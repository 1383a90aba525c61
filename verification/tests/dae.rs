use osdi_backend::dae::{
    CurrentKind, DaeSystem, MatrixEntry, MatrixEntryId, NoiseSource, NoiseSourceKind, SimUnknown,
    SimUnknownKind, Topology, TopologyNode,
};
use osdi_backend::ir::{
    FuncCursor, Function, Inst, InstructionData, Opcode, Value, ValueDef,
};
use osdi_backend::util::{
    add, is_op_dependent, strip_optbarrier, strip_optbarrier_if_const, update_optbarrier,
    Accumulate, ParamInfo, ValueUpdate,
};

fn function_with_params(n: u32) -> Function {
    let mut f = Function::new();
    for p in 0..n {
        f.defs.push(ValueDef::Param(p));
    }
    f
}

#[test]
fn add_zero_changes_nothing() {
    let mut cursor = FuncCursor::at_exit(function_with_params(2));
    let mut dst = Value(1);
    add(&mut cursor, &mut dst, Value(0), false);
    assert_eq!(dst, Value(1));
    add(&mut cursor, &mut dst, Value(0), true);
    assert_eq!(dst, Value(1));
    assert!(cursor.func.insts.is_empty());
    assert_eq!(cursor.func.defs.len(), 3);
    assert_eq!(cursor.pos, 0);
}

#[test]
fn first_value_is_stored_behind_a_barrier() {
    let mut cursor = FuncCursor::at_exit(function_with_params(2));
    let mut dst = Value(0);
    add(&mut cursor, &mut dst, Value(2), false);
    assert_eq!(dst, Value(3));
    assert_eq!(
        cursor.func.insts,
        vec![InstructionData { opcode: Opcode::OptBarrier, lhs: Value(2), rhs: Value(2) }]
    );
    assert_eq!(cursor.func.defs[3], ValueDef::Result(Inst(0)));
    assert_eq!(cursor.func.layout, vec![Inst(0)]);
    assert_eq!(cursor.pos, 1);
}

#[test]
fn first_negated_value_is_negated() {
    let mut cursor = FuncCursor::at_exit(function_with_params(2));
    let mut dst = Value(0);
    add(&mut cursor, &mut dst, Value(1), true);
    assert_eq!(dst, Value(3));
    assert_eq!(
        cursor.func.insts,
        vec![InstructionData { opcode: Opcode::Fneg, lhs: Value(1), rhs: Value(1) }]
    );
}

#[test]
fn later_values_are_added_or_subtracted() {
    let mut cursor = FuncCursor::at_exit(function_with_params(3));
    let mut dst = Value(1);
    add(&mut cursor, &mut dst, Value(2), false);
    assert_eq!(dst, Value(4));
    add(&mut cursor, &mut dst, Value(3), true);
    assert_eq!(dst, Value(5));
    assert_eq!(
        cursor.func.insts,
        vec![
            InstructionData { opcode: Opcode::Fadd, lhs: Value(1), rhs: Value(2) },
            InstructionData { opcode: Opcode::Fsub, lhs: Value(4), rhs: Value(3) },
        ]
    );
    assert_eq!(cursor.func.layout, vec![Inst(0), Inst(1)]);
}

#[test]
fn cursor_inserts_in_front_of_an_instruction() {
    let mut cursor = FuncCursor::at_exit(function_with_params(2));
    let a = cursor.ins(Opcode::Fadd, Value(1), Value(2));
    let b = cursor.ins(Opcode::Fmul, a, a);
    let mut cursor = FuncCursor::at_inst(cursor.func, Inst(1));
    assert_eq!(cursor.pos, 1);
    let c = cursor.ins(Opcode::Fneg, a, a);
    assert_eq!(cursor.func.layout, vec![Inst(0), Inst(2), Inst(1)]);
    assert_eq!((a, b, c), (Value(3), Value(4), Value(5)));
    let cursor = FuncCursor::at_inst(cursor.func, Inst(9));
    assert_eq!(cursor.pos, 3);
}

/// value 3 = barrier(1), value 4 = barrier(3), value 5 = barrier(0),
/// value 6 = 1 + 2
fn barriers() -> Function {
    let mut cursor = FuncCursor::at_exit(function_with_params(2));
    let b = cursor.ins(Opcode::OptBarrier, Value(1), Value(1));
    cursor.ins(Opcode::OptBarrier, b, b);
    cursor.ins(Opcode::OptBarrier, Value(0), Value(0));
    cursor.ins(Opcode::Fadd, Value(1), Value(2));
    cursor.func
}

#[test]
fn barriers_are_stripped_down_to_the_value() {
    let f = barriers();
    assert_eq!(strip_optbarrier(&f, Value(4)), Value(1));
    assert_eq!(strip_optbarrier(&f, Value(3)), Value(1));
    assert_eq!(strip_optbarrier(&f, Value(5)), Value(0));
    assert_eq!(strip_optbarrier(&f, Value(6)), Value(6));
    assert_eq!(strip_optbarrier(&f, Value(1)), Value(1));
    assert_eq!(strip_optbarrier(&f, Value(99)), Value(99));
}

#[test]
fn barriers_are_kept_unless_a_constant_stands_behind() {
    let f = barriers();
    assert_eq!(strip_optbarrier_if_const(&f, Value(5)), Value(0));
    assert_eq!(strip_optbarrier_if_const(&f, Value(4)), Value(4));
    assert_eq!(strip_optbarrier_if_const(&f, Value(3)), Value(3));
    assert_eq!(strip_optbarrier_if_const(&f, Value(0)), Value(0));
    assert_eq!(strip_optbarrier_if_const(&f, Value(6)), Value(6));
}

#[test]
fn op_dependence_follows_the_definition() {
    let f = barriers();
    let insts = vec![false, true, false];
    let intern = ParamInfo { op_dependent: vec![true, false] };
    assert!(is_op_dependent(&f, Value(1), &insts, &intern));
    assert!(!is_op_dependent(&f, Value(2), &insts, &intern));
    assert!(!is_op_dependent(&f, Value(3), &insts, &intern));
    assert!(is_op_dependent(&f, Value(4), &insts, &intern));
    // the instruction of value 6 lies outside the set
    assert!(!is_op_dependent(&f, Value(6), &insts, &intern));
    assert!(!is_op_dependent(&f, Value(0), &insts, &intern));
    assert!(!is_op_dependent(&f, Value(77), &insts, &intern));
}

#[test]
fn update_rewrites_the_barrier_in_place() {
    let mut f = barriers();
    let mut val = Value(3);
    update_optbarrier(&mut f, &mut val, Accumulate { val: Value(2), negate: false });
    assert_eq!(val, Value(3));
    // the sum was inserted in front of the barrier, which now holds it
    assert_eq!(f.insts[4], InstructionData { opcode: Opcode::Fadd, lhs: Value(1), rhs: Value(2) });
    assert_eq!(f.insts[0], InstructionData { opcode: Opcode::OptBarrier, lhs: Value(7), rhs: Value(7) });
    assert_eq!(f.layout, vec![Inst(4), Inst(0), Inst(1), Inst(2), Inst(3)]);
}

#[test]
fn update_of_a_plain_value_ends_behind_a_barrier() {
    let mut f = function_with_params(2);
    let mut val = Value(1);
    update_optbarrier(&mut f, &mut val, Accumulate { val: Value(2), negate: true });
    assert_eq!(val, Value(4));
    assert_eq!(
        f.insts,
        vec![
            InstructionData { opcode: Opcode::Fsub, lhs: Value(1), rhs: Value(2) },
            InstructionData { opcode: Opcode::OptBarrier, lhs: Value(3), rhs: Value(3) },
        ]
    );
    assert_eq!(f.layout, vec![Inst(0), Inst(1)]);

    // a sum that starts from zero is a barrier already
    let mut f = function_with_params(2);
    let mut val = Value(0);
    update_optbarrier(&mut f, &mut val, Accumulate { val: Value(2), negate: false });
    assert_eq!(val, Value(3));
    assert_eq!(f.insts.len(), 1);
}

fn entry(row: u32, col: u32, resist: u32, react: u32) -> MatrixEntry {
    MatrixEntry {
        row: SimUnknown(row),
        col: SimUnknown(col),
        resist: Value(resist),
        react: Value(react),
    }
}

#[test]
fn unknowns_are_entered_once_and_keep_their_place() {
    let mut dae = DaeSystem::new();
    let a = dae.ensure_unknown(SimUnknownKind::KirchoffLaw(7));
    let b = dae.ensure_unknown(SimUnknownKind::Current(CurrentKind::Branch(7)));
    let c = dae.ensure_unknown(SimUnknownKind::Implicit(7));
    let a2 = dae.ensure_unknown(SimUnknownKind::KirchoffLaw(7));
    assert_eq!(a, Some(SimUnknown(0)));
    assert_eq!(b, Some(SimUnknown(1)));
    assert_eq!(c, Some(SimUnknown(2)));
    assert_eq!(a2, a);
    assert_eq!(dae.unknowns.len(), 3);
    assert_eq!(dae.residual.len(), 3);
    assert_eq!(dae.find_unknown(SimUnknownKind::KirchoffLaw(8)), None);
    assert_eq!(
        dae.find_unknown(SimUnknownKind::Current(CurrentKind::Branch(7))),
        Some(SimUnknown(1))
    );
}

#[test]
fn contributions_accumulate_on_entries_and_residuals() {
    let mut dae = DaeSystem::new();
    let a = dae.ensure_unknown(SimUnknownKind::KirchoffLaw(0)).unwrap();
    let b = dae.ensure_unknown(SimUnknownKind::KirchoffLaw(1)).unwrap();
    let mut cursor = FuncCursor::at_exit(function_with_params(3));
    let aa = dae.ensure_entry(a, a).unwrap();
    let ab = dae.ensure_entry(a, b).unwrap();
    assert_eq!(dae.ensure_entry(a, a), Some(aa));
    assert_eq!((aa, ab), (MatrixEntryId(0), MatrixEntryId(1)));
    assert_eq!(dae.find_entry(b, a), None);

    dae.add_jacobian(&mut cursor, aa, Value(1), false, false);
    dae.add_jacobian(&mut cursor, aa, Value(2), false, true);
    dae.add_jacobian(&mut cursor, ab, Value(3), true, true);
    assert_eq!(dae.jacobian, vec![entry(0, 0, 5, 0), entry(0, 1, 0, 6)]);
    dae.add_residual(&mut cursor, b, Value(1), true, false);
    assert_eq!(dae.residual[1].react, Value(7));
    assert_eq!(dae.residual[1].resist, Value(0));
    assert_eq!(dae.residual[0].react, Value(0));
    assert_eq!(
        cursor.func.insts,
        vec![
            InstructionData { opcode: Opcode::OptBarrier, lhs: Value(1), rhs: Value(1) },
            InstructionData { opcode: Opcode::Fsub, lhs: Value(4), rhs: Value(2) },
            InstructionData { opcode: Opcode::Fneg, lhs: Value(3), rhs: Value(3) },
            InstructionData { opcode: Opcode::OptBarrier, lhs: Value(1), rhs: Value(1) },
        ]
    );
}

#[test]
fn sparsify_drops_entries_that_are_zero_in_both_channels() {
    // value 5 is a barrier on the zero constant
    let f = barriers();
    let mut dae = DaeSystem::new();
    for node in 0..2 {
        dae.ensure_unknown(SimUnknownKind::KirchoffLaw(node));
    }
    dae.jacobian = vec![
        entry(0, 0, 1, 0),
        entry(0, 1, 0, 0),
        entry(1, 0, 5, 5),
        entry(1, 1, 5, 4),
    ];
    dae.sparsify(&f);
    assert_eq!(dae.jacobian, vec![entry(0, 0, 1, 0), entry(1, 1, 0, 4)]);
    assert_eq!(dae.num_resistive, 1);
    assert_eq!(dae.num_reactive, 1);
    assert_eq!(dae.unknowns.len(), 2);
    assert!(dae.jacobian.iter().all(|e| e.resist != Value(0) || e.react != Value(0)));

    let mut empty = DaeSystem::new();
    empty.sparsify(&f);
    assert!(empty.jacobian.is_empty());
    assert_eq!((empty.num_resistive, empty.num_reactive), (0, 0));
}

#[test]
fn topology_gives_one_unknown_per_node_current_and_equation() {
    let topology = Topology {
        nodes: vec![
            TopologyNode { node: 0, is_ground: true },
            TopologyNode { node: 1, is_ground: false },
            TopologyNode { node: 2, is_ground: false },
            TopologyNode { node: 1, is_ground: false },
        ],
        currents: vec![
            CurrentKind::Branch(4),
            CurrentKind::Port(1),
            CurrentKind::Unnamed { hi: 1, lo: 2, has_lo: true },
            CurrentKind::Branch(4),
        ],
        implicit_equations: 2,
    };
    assert_eq!(topology.unknown_kinds().len(), 9);
    let dae = DaeSystem::from_topology(&topology).unwrap();
    assert_eq!(
        dae.unknowns,
        vec![
            SimUnknownKind::KirchoffLaw(1),
            SimUnknownKind::KirchoffLaw(2),
            SimUnknownKind::Current(CurrentKind::Branch(4)),
            SimUnknownKind::Current(CurrentKind::Port(1)),
            SimUnknownKind::Current(CurrentKind::Unnamed { hi: 1, lo: 2, has_lo: true }),
            SimUnknownKind::Implicit(0),
            SimUnknownKind::Implicit(1),
        ]
    );
    assert_eq!(dae.residual.len(), 7);
    assert!(dae.residual.iter().all(|r| r.resist == Value(0) && r.react == Value(0)));
    assert!(dae.jacobian.is_empty());
    assert!(dae.validate_sparse());

    let nothing = Topology { nodes: vec![], currents: vec![], implicit_equations: 0 };
    let dae = DaeSystem::from_topology(&nothing).unwrap();
    assert!(dae.unknowns.is_empty());
}

#[test]
fn noise_sources_keep_their_order() {
    let mut dae = DaeSystem::new();
    dae.ensure_unknown(SimUnknownKind::KirchoffLaw(0));
    let white = NoiseSource {
        name: 3,
        kind: NoiseSourceKind::WhiteNoise { pwr: Value(1) },
        hi: SimUnknown(0),
        lo: SimUnknown(0),
        has_lo: false,
        factor: Value(2),
    };
    let flicker = NoiseSource {
        name: 4,
        kind: NoiseSourceKind::FlickerNoise { pwr: Value(1), exp: Value(2) },
        hi: SimUnknown(0),
        lo: SimUnknown(0),
        has_lo: true,
        factor: Value(2),
    };
    assert!(dae.add_noise_source(white));
    assert!(dae.add_noise_source(flicker));
    assert_eq!(dae.noise_sources, vec![white, flicker]);
    assert!(dae.validate());
    // a source between unknowns that the system does not have
    dae.noise_sources[1].lo = SimUnknown(1);
    assert!(!dae.validate());
}

/// An update of the caller's own: the value times a factor.
struct Scale {
    factor: Value,
}

impl ValueUpdate for Scale {
    fn update(self, val: Value, cursor: &mut FuncCursor) -> Value {
        cursor.ins(Opcode::Fmul, val, self.factor)
    }
}

#[test]
fn update_takes_any_update() {
    let mut f = barriers();
    let mut val = Value(3);
    update_optbarrier(&mut f, &mut val, Scale { factor: Value(2) });
    assert_eq!(val, Value(3));
    assert_eq!(f.insts[4], InstructionData { opcode: Opcode::Fmul, lhs: Value(1), rhs: Value(2) });
    assert_eq!(f.insts[0], InstructionData { opcode: Opcode::OptBarrier, lhs: Value(7), rhs: Value(7) });
    assert_eq!(f.layout, vec![Inst(4), Inst(0), Inst(1), Inst(2), Inst(3)]);

    let mut f = function_with_params(2);
    let mut val = Value(1);
    update_optbarrier(&mut f, &mut val, Scale { factor: Value(2) });
    assert_eq!(val, Value(4));
    assert_eq!(
        f.insts,
        vec![
            InstructionData { opcode: Opcode::Fmul, lhs: Value(1), rhs: Value(2) },
            InstructionData { opcode: Opcode::OptBarrier, lhs: Value(3), rhs: Value(3) },
        ]
    );
}
