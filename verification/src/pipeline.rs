//! The life of one generation unit, as a state machine: generated, then
//! verified, then, where objects are emitted, optimized and emitted. The
//! one who runs the unit performs each action and reports how it went.

use vstd::prelude::*;

verus! {

/// Where a generation unit stands.
#[derive(Clone, Copy, Debug, PartialEq, Eq, Structural)]
pub enum UnitStage {
    Created,
    Generating,
    RecordingUnoptimized,
    Verifying,
    Optimizing,
    Emitting,
    RecordingOptimized,
    Done,
    Failed,
}

/// How the action that a unit was last told to perform went.
#[derive(Clone, Copy, Debug, PartialEq, Eq, Structural)]
pub enum UnitEvent {
    Begin,
    Succeeded,
    Failed,
}

/// What a unit is told to do next.
#[derive(Clone, Copy, Debug, PartialEq, Eq, Structural)]
pub enum UnitAction {
    /// Generate the entry points of the unit.
    Generate,
    /// Keep the generated code as text, before any optimization.
    RecordUnoptimized,
    /// Check the structure of the generated code.
    Verify,
    /// Optimize the generated code.
    Optimize,
    /// Write the object file of the unit.
    Emit,
    /// Keep the code as text, as it was emitted.
    RecordOptimized,
    /// Nothing is left to do.
    Finish,
    /// Give up the whole compilation.
    Abort,
}

/// What the one who started the compilation asked for.
#[derive(Clone, Copy, Debug, PartialEq, Eq, Structural)]
pub struct UnitOptions {
    pub emit: bool,
    pub dump_ir: bool,
    pub dump_unopt_ir: bool,
}

/// The stage that follows the emission, or the verification where
/// nothing is emitted, with its action.
pub open spec fn after_emission(opts: UnitOptions) -> (UnitStage, UnitAction) {
    if opts.dump_ir {
        (UnitStage::RecordingOptimized, UnitAction::RecordOptimized)
    } else {
        (UnitStage::Done, UnitAction::Finish)
    }
}

/// The next stage of a unit and the action to perform, given where it
/// stands and how its last action went. A unit that fails verification or
/// emission, or that is told something out of turn, fails for good.
pub open spec fn step_spec(stage: UnitStage, event: UnitEvent, opts: UnitOptions) -> (UnitStage, UnitAction) {
    match (stage, event) {
        (UnitStage::Created, UnitEvent::Begin) => (UnitStage::Generating, UnitAction::Generate),
        (UnitStage::Generating, UnitEvent::Succeeded) => if opts.dump_unopt_ir {
            (UnitStage::RecordingUnoptimized, UnitAction::RecordUnoptimized)
        } else {
            (UnitStage::Verifying, UnitAction::Verify)
        },
        (UnitStage::RecordingUnoptimized, UnitEvent::Succeeded) => (
            UnitStage::Verifying,
            UnitAction::Verify,
        ),
        (UnitStage::Verifying, UnitEvent::Succeeded) => if opts.emit {
            (UnitStage::Optimizing, UnitAction::Optimize)
        } else {
            after_emission(opts)
        },
        (UnitStage::Optimizing, UnitEvent::Succeeded) => (UnitStage::Emitting, UnitAction::Emit),
        (UnitStage::Emitting, UnitEvent::Succeeded) => after_emission(opts),
        (UnitStage::RecordingOptimized, UnitEvent::Succeeded) => (UnitStage::Done, UnitAction::Finish),
        (UnitStage::Done, _) => (UnitStage::Done, UnitAction::Finish),
        _ => (UnitStage::Failed, UnitAction::Abort),
    }
}

/// The next stage of a unit and the action to perform.
pub fn step(stage: UnitStage, event: UnitEvent, opts: UnitOptions) -> (r: (UnitStage, UnitAction))
    ensures
        r == step_spec(stage, event, opts),
{
    let finish = if opts.dump_ir {
        (UnitStage::RecordingOptimized, UnitAction::RecordOptimized)
    } else {
        (UnitStage::Done, UnitAction::Finish)
    };
    match (stage, event) {
        (UnitStage::Created, UnitEvent::Begin) => (UnitStage::Generating, UnitAction::Generate),
        (UnitStage::Generating, UnitEvent::Succeeded) => if opts.dump_unopt_ir {
            (UnitStage::RecordingUnoptimized, UnitAction::RecordUnoptimized)
        } else {
            (UnitStage::Verifying, UnitAction::Verify)
        },
        (UnitStage::RecordingUnoptimized, UnitEvent::Succeeded) => (
            UnitStage::Verifying,
            UnitAction::Verify,
        ),
        (UnitStage::Verifying, UnitEvent::Succeeded) => if opts.emit {
            (UnitStage::Optimizing, UnitAction::Optimize)
        } else {
            finish
        },
        (UnitStage::Optimizing, UnitEvent::Succeeded) => (UnitStage::Emitting, UnitAction::Emit),
        (UnitStage::Emitting, UnitEvent::Succeeded) => finish,
        (UnitStage::RecordingOptimized, UnitEvent::Succeeded) => (UnitStage::Done, UnitAction::Finish),
        (UnitStage::Done, _) => (UnitStage::Done, UnitAction::Finish),
        _ => (UnitStage::Failed, UnitAction::Abort),
    }
}

/// The stage that a unit reaches from `stage` by a sequence of events.
pub open spec fn run(stage: UnitStage, events: Seq<UnitEvent>, opts: UnitOptions) -> UnitStage
    decreases events.len(),
{
    if events.len() == 0 {
        stage
    } else {
        step_spec(run(stage, events.drop_last(), opts), events.last(), opts).0
    }
}

/// The stages that lie behind a verification that passed.
pub open spec fn passed_verification(stage: UnitStage) -> bool {
    stage == UnitStage::Optimizing || stage == UnitStage::Emitting || stage
        == UnitStage::RecordingOptimized || stage == UnitStage::Done
}

/// No unit is emitted unverified. Whatever is reported to a new unit, it
/// is told to emit only behind a verification that passed, and it stands
/// behind one only if, at some point, it was verifying and success was
/// reported.
pub proof fn lemma_emitted_only_verified(events: Seq<UnitEvent>, opts: UnitOptions)
    ensures
        passed_verification(run(UnitStage::Created, events, opts)) ==> exists|i: int|
            0 <= i < events.len() && #[trigger] run(UnitStage::Created, events.take(i), opts)
                == UnitStage::Verifying && events[i] == UnitEvent::Succeeded,
        forall|event: UnitEvent|
            #[trigger] step_spec(run(UnitStage::Created, events, opts), event, opts).1 == UnitAction::Emit
                ==> passed_verification(run(UnitStage::Created, events, opts)),
        forall|event: UnitEvent|
            #[trigger] step_spec(run(UnitStage::Created, events, opts), event, opts).1 == UnitAction::Emit
                ==> opts.emit,
    decreases events.len(),
{
    if events.len() > 0 {
        let front = events.drop_last();
        lemma_emitted_only_verified(front, opts);
        lemma_optimizing_needs_emit(events, opts);
        let before = run(UnitStage::Created, front, opts);
        if passed_verification(run(UnitStage::Created, events, opts)) {
            if passed_verification(before) {
                let i = choose|i: int|
                    0 <= i < front.len() && #[trigger] run(UnitStage::Created, front.take(i), opts)
                        == UnitStage::Verifying && front[i] == UnitEvent::Succeeded;
                assert(events.take(i) =~= front.take(i));
                assert(run(UnitStage::Created, events.take(i), opts) == UnitStage::Verifying);
            } else {
                assert(before == UnitStage::Verifying);
                assert(events.take(events.len() - 1) =~= front);
                assert(run(UnitStage::Created, events.take(events.len() - 1), opts) == UnitStage::Verifying);
            }
        }
    } else {
        lemma_optimizing_needs_emit(events, opts);
    }
}

/// A unit optimizes only where objects are emitted.
pub proof fn lemma_optimizing_needs_emit(events: Seq<UnitEvent>, opts: UnitOptions)
    ensures
        run(UnitStage::Created, events, opts) == UnitStage::Optimizing ==> opts.emit,
    decreases events.len(),
{
    if events.len() > 0 {
        lemma_optimizing_needs_emit(events.drop_last(), opts);
    }
}

} // verus!
