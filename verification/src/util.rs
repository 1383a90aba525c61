//! Helpers of the equation assembly: the accumulation protocol and the
//! handling of optimization barriers.

use vstd::prelude::*;
use crate::ir::{
    f_zero, first_index, FuncCursor, Function, Inst, InstructionData, Opcode, Value, ValueDef,
};

verus! {

/// The instruction, if any, by which `val` is accumulated onto `dst`.
pub open spec fn add_instruction(dst: Value, val: Value, negate: bool) -> Option<InstructionData> {
    if val == f_zero() {
        None
    } else if dst == f_zero() {
        if negate {
            Some(InstructionData { opcode: Opcode::Fneg, lhs: val, rhs: val })
        } else {
            Some(InstructionData { opcode: Opcode::OptBarrier, lhs: val, rhs: val })
        }
    } else if negate {
        Some(InstructionData { opcode: Opcode::Fsub, lhs: dst, rhs: val })
    } else {
        Some(InstructionData { opcode: Opcode::Fadd, lhs: dst, rhs: val })
    }
}

/// The running sum after `val` has been accumulated onto it at the cursor:
/// the sum as it was where nothing is emitted, else the result of the
/// instruction emitted.
pub open spec fn accumulated(cursor: FuncCursor, dst: Value, val: Value, negate: bool) -> Value {
    match add_instruction(dst, val, negate) {
        None => dst,
        Some(_) => cursor.next_value(),
    }
}

/// What the cursor holds after `val` has been accumulated onto `dst`.
pub open spec fn cursor_after(cursor: FuncCursor, dst: Value, val: Value, negate: bool) -> (
    Seq<ValueDef>,
    Seq<InstructionData>,
    Seq<Inst>,
    int,
) {
    match add_instruction(dst, val, negate) {
        None => cursor.state(),
        Some(data) => cursor.inserted(data),
    }
}

/// Accumulates `val` (or its negation) onto the running sum `dst`.
///
/// Zero is the identity: a zero `val` changes nothing. The first value
/// that reaches a sum that is still zero is stored behind an optimization
/// barrier, or negated; every later one is added or subtracted.
pub fn add(cursor: &mut FuncCursor, dst: &mut Value, val: Value, negate: bool)
    requires
        old(cursor).wf(),
        old(cursor).func.has_room(),
        old(dst).0 < old(cursor).func.defs@.len(),
        val.0 < old(cursor).func.defs@.len(),
    ensures
        final(cursor).wf(),
        *final(dst) == accumulated(*old(cursor), *old(dst), val, negate),
        final(cursor).state() == cursor_after(*old(cursor), *old(dst), val, negate),
        final(dst).0 < final(cursor).func.defs@.len(),
        final(cursor).func.defs@.len() >= old(cursor).func.defs@.len(),
{
    if val.0 == 0 {
    } else if dst.0 == 0 {
        if negate {
            *dst = cursor.ins(Opcode::Fneg, val, val);
        } else {
            *dst = cursor.ins(Opcode::OptBarrier, val, val);
        }
    } else if negate {
        let old_dst = *dst;
        *dst = cursor.ins(Opcode::Fsub, old_dst, val);
    } else {
        let old_dst = *dst;
        *dst = cursor.ins(Opcode::Fadd, old_dst, val);
    }
}

/// The argument of the optimization barrier that defines `val`, if one does.
pub open spec fn barrier_arg(func: &Function, val: Value) -> Option<Value> {
    match func.spec_value_def(val) {
        ValueDef::Result(inst) => if inst.0 < func.insts@.len() && func.insts@[inst.0 as int].opcode
            == Opcode::OptBarrier {
            Some(func.insts@[inst.0 as int].lhs)
        } else {
            None
        },
        _ => None,
    }
}

/// The value behind at most `fuel` optimization barriers, starting at `val`.
pub open spec fn strip_optbarrier_spec(func: &Function, val: Value, fuel: nat) -> Value
    decreases fuel,
{
    if fuel == 0 {
        val
    } else {
        match barrier_arg(func, val) {
            Some(arg) => strip_optbarrier_spec(func, arg, (fuel - 1) as nat),
            None => val,
        }
    }
}

/// Follows a chain of optimization barriers to the value behind it. The
/// walk takes at most one step for each value of the function.
pub fn strip_optbarrier(func: &Function, val: Value) -> (r: Value)
    ensures
        r == strip_optbarrier_spec(func, val, func.defs@.len()),
{
    let mut cur = val;
    let mut fuel: usize = func.defs.len();
    while fuel > 0
        invariant
            strip_optbarrier_spec(func, val, func.defs@.len()) == strip_optbarrier_spec(
                func,
                cur,
                fuel as nat,
            ),
        decreases fuel,
    {
        let mut next: Option<Value> = None;
        if let ValueDef::Result(inst) = func.value_def(cur) {
            if (inst.0 as usize) < func.insts.len() {
                let data = func.insts[inst.0 as usize];
                if data.opcode == Opcode::OptBarrier {
                    next = Some(data.lhs);
                }
            }
        }
        assert(next == barrier_arg(func, cur));
        match next {
            Some(arg) => {
                cur = arg;
                fuel = fuel - 1;
            },
            None => {
                assert(strip_optbarrier_spec(func, cur, fuel as nat) == cur);
                assert(strip_optbarrier_spec(func, cur, 0) == cur);
                fuel = 0;
            },
        }
    }
    cur
}

/// The value behind the optimization barriers of `val` where that is a
/// constant, else `val` itself.
pub open spec fn strip_optbarrier_if_const_spec(func: &Function, val: Value) -> Value {
    let stripped = strip_optbarrier_spec(func, val, func.defs@.len());
    if func.spec_value_def(stripped) == ValueDef::Const {
        stripped
    } else {
        val
    }
}

/// The constant behind the optimization barriers of `val`, if a constant
/// stands there; otherwise `val` itself, barriers kept.
pub fn strip_optbarrier_if_const(func: &Function, val: Value) -> (r: Value)
    ensures
        r == strip_optbarrier_if_const_spec(func, val),
{
    let stripped = strip_optbarrier(func, val);
    match func.value_def(stripped) {
        ValueDef::Const => stripped,
        _ => val,
    }
}

/// An update of a value: what is done to the value behind an optimization
/// barrier, with a cursor to insert the instructions that it takes.
pub trait ValueUpdate: Sized {
    /// Whether the update can be made on the value at the cursor. An
    /// update that does not say when it can be made is one that no proof
    /// can rely on.
    open spec fn applies(&self, cursor: FuncCursor, val: Value) -> bool {
        false
    }

    /// What the cursor holds after the update, and the updated value.
    open spec fn updated(&self, cursor: FuncCursor, val: Value) -> (
        (Seq<ValueDef>, Seq<InstructionData>, Seq<Inst>, int),
        Value,
    ) {
        arbitrary()
    }

    /// Makes the update: inserts what it takes at the cursor and returns
    /// the updated value. It takes no value and no instruction away.
    fn update(self, val: Value, cursor: &mut FuncCursor) -> (r: Value)
        requires
            old(cursor).wf(),
            val.0 < old(cursor).func.defs@.len(),
            self.applies(*old(cursor), val),
        ensures
            final(cursor).wf(),
            (final(cursor).state(), r) == self.updated(*old(cursor), val),
            r.0 < final(cursor).func.defs@.len(),
            final(cursor).func.defs@.len() >= old(cursor).func.defs@.len(),
            final(cursor).func.insts@.len() >= old(cursor).func.insts@.len(),
    ;
}

/// The update that accumulates `val`, or its negation, onto the value.
#[derive(Clone, Copy, Debug, PartialEq, Eq, Structural)]
pub struct Accumulate {
    pub val: Value,
    pub negate: bool,
}

impl ValueUpdate for Accumulate {
    open spec fn applies(&self, cursor: FuncCursor, val: Value) -> bool {
        cursor.func.has_room() && self.val.0 < cursor.func.defs@.len()
    }

    open spec fn updated(&self, cursor: FuncCursor, val: Value) -> (
        (Seq<ValueDef>, Seq<InstructionData>, Seq<Inst>, int),
        Value,
    ) {
        (
            cursor_after(cursor, val, self.val, self.negate),
            accumulated(cursor, val, self.val, self.negate),
        )
    }

    fn update(self, val: Value, cursor: &mut FuncCursor) -> (r: Value) {
        let mut dst = val;
        self::add(cursor, &mut dst, self.val, self.negate);
        dst
    }
}

/// Where the update of a value behind an optimization barrier works: on
/// the argument of the instruction that defines the value, in front of that
/// instruction; or, for a value that no instruction defines, on the value
/// itself, at the end of the function.
pub open spec fn update_site(func: &Function, val: Value) -> (Option<Inst>, Value, int) {
    match func.spec_value_def(val) {
        ValueDef::Result(inst) => (
            Some(inst),
            func.insts@[inst.0 as int].lhs,
            first_index(func.layout@, inst),
        ),
        _ => (None, val, func.layout@.len() as int),
    }
}

/// The cursor at which the update of a value works.
pub open spec fn update_cursor(func: &Function, val: Value) -> FuncCursor {
    FuncCursor { func: *func, pos: update_site(func, val).2 as usize }
}

/// The barrier instruction on a value.
pub open spec fn barrier_on(val: Value) -> InstructionData {
    InstructionData { opcode: Opcode::OptBarrier, lhs: val, rhs: val }
}

/// Whether a value is the result of a barrier, in a function with the
/// given definitions and instructions.
pub open spec fn is_barrier(defs: Seq<ValueDef>, insts: Seq<InstructionData>, val: Value) -> bool {
    val.0 < defs.len() && (defs[val.0 as int] matches ValueDef::Result(i) && i.0 < insts.len()
        && insts[i.0 as int].opcode == Opcode::OptBarrier)
}

/// Updates the value behind an optimization barrier.
///
/// Where an instruction defines `val`, the update works on the argument
/// of that instruction, in front of it, and the instruction becomes a
/// barrier on the result; `val` stays what it is. Otherwise the update works
/// on `val` itself at the end of the function, and `val` becomes the result
/// behind a barrier, which is inserted where the update left the cursor
/// unless the result is one already.
pub fn update_optbarrier<U: ValueUpdate>(func: &mut Function, val: &mut Value, update: U)
    requires
        old(func).wf(),
        old(val).0 < old(func).defs@.len(),
        update.applies(update_cursor(old(func), *old(val)), update_site(old(func), *old(val)).1),
        update_site(old(func), *old(val)).0.is_none() ==> ({
            let ((defs, insts, _, _), _) = update.updated(
                update_cursor(old(func), *old(val)),
                update_site(old(func), *old(val)).1,
            );
            defs.len() < u32::MAX && insts.len() < u32::MAX
        }),
    ensures
        final(func).wf(),
        final(val).0 < final(func).defs@.len(),
        ({
            let (site, arg, _) = update_site(old(func), *old(val));
            let ((defs, insts, layout, pos), updated) = update.updated(
                update_cursor(old(func), *old(val)),
                arg,
            );
            match site {
                Some(inst) => {
                    &&& *final(val) == *old(val)
                    &&& final(func).defs@ == defs
                    &&& final(func).insts@ == insts.update(inst.0 as int, barrier_on(updated))
                    &&& final(func).layout@ == layout
                },
                None => if is_barrier(defs, insts, updated) {
                    &&& *final(val) == updated
                    &&& final(func).defs@ == defs
                    &&& final(func).insts@ == insts
                    &&& final(func).layout@ == layout
                } else {
                    &&& *final(val) == Value(defs.len() as u32)
                    &&& final(func).defs@ == defs.push(ValueDef::Result(Inst(insts.len() as u32)))
                    &&& final(func).insts@ == insts.push(barrier_on(updated))
                    &&& final(func).layout@ == layout.insert(pos, Inst(insts.len() as u32))
                },
            }
        }),
{
    let mut taken = Function::new();
    core::mem::swap(func, &mut taken);
    match taken.value_def(*val) {
        ValueDef::Result(inst) => {
            let arg = taken.insts[inst.0 as usize].lhs;
            let mut cursor = FuncCursor::at_inst(taken, inst);
            proof {
                crate::ir::lemma_first_index_bound(cursor.func.layout@, inst);
            }
            let arg = update.update(arg, &mut cursor);
            let FuncCursor { func: mut done, pos: _ } = cursor;
            done.insts.set(
                inst.0 as usize,
                InstructionData { opcode: Opcode::OptBarrier, lhs: arg, rhs: arg },
            );
            core::mem::swap(func, &mut done);
        },
        _ => {
            let mut cursor = FuncCursor::at_exit(taken);
            let updated = update.update(*val, &mut cursor);
            let already = match cursor.func.value_def(updated) {
                ValueDef::Result(i) => match cursor.func.insts[i.0 as usize].opcode {
                    Opcode::OptBarrier => true,
                    _ => false,
                },
                _ => false,
            };
            if already {
                *val = updated;
            } else {
                *val = cursor.ins(Opcode::OptBarrier, updated, updated);
            }
            let FuncCursor { func: mut done, pos: _ } = cursor;
            core::mem::swap(func, &mut done);
        },
    }
}

/// What the equation assembly knows of the parameters of a function: for
/// each, whether it depends on the operating point.
pub struct ParamInfo {
    pub op_dependent: Vec<bool>,
}

/// Whether a value depends on the operating point, given the set of
/// instructions that do.
pub open spec fn is_op_dependent_spec(
    func: &Function,
    val: Value,
    op_dependent_insts: Seq<bool>,
    intern: &ParamInfo,
) -> bool {
    match func.spec_value_def(val) {
        ValueDef::Result(inst) => inst.0 < op_dependent_insts.len() && op_dependent_insts[inst.0 as int],
        ValueDef::Param(param) => intern.op_dependent@[param as int],
        ValueDef::Const | ValueDef::Invalid => false,
    }
}

/// Whether `val` depends on the operating point: the result of an
/// instruction does if the instruction is in the set, a parameter if it is
/// marked so, a constant or an invalid value never.
pub fn is_op_dependent(
    func: &Function,
    val: Value,
    op_dependent_insts: &Vec<bool>,
    intern: &ParamInfo,
) -> (r: bool)
    requires
        func.spec_value_def(val) matches ValueDef::Param(param) ==> param < intern.op_dependent@.len(),
    ensures
        r == is_op_dependent_spec(func, val, op_dependent_insts@, intern),
{
    match func.value_def(val) {
        ValueDef::Result(inst) => (inst.0 as usize) < op_dependent_insts.len()
            && op_dependent_insts[inst.0 as usize],
        ValueDef::Param(param) => intern.op_dependent[param as usize],
        ValueDef::Const => false,
        ValueDef::Invalid => false,
    }
}

} // verus!
