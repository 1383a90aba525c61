use osdi_backend::compilation_unit::{
    ArgType, OsdiCompilationUnit, OsdiInstanceData, OsdiModelData, OsdiModule,
};
use osdi_backend::dae::{
    DaeSystem, MatrixEntry, MatrixEntryId, NodeCollapse, NoiseSource, NoiseSourceKind, Residual,
    SimUnknown, SimUnknownKind,
};
use osdi_backend::ir::{Function, Value};
use osdi_backend::load::{Dest, Expr, JacobianLoadType, Store};
use osdi_backend::module::ModuleInfo;

const G: Value = Value(11);
const C: Value = Value(12);
const ZERO: Value = Value(0);

fn out(v: Value) -> Box<Expr> {
    Box::new(Expr::Output(v))
}

fn residual(resist: u32, react: u32, resist_lim: u32, react_lim: u32) -> Residual {
    Residual {
        resist: Value(resist),
        react: Value(react),
        resist_lim_rhs: Value(resist_lim),
        react_lim_rhs: Value(react_lim),
    }
}

fn entry(row: u32, col: u32, resist: Value, react: Value) -> MatrixEntry {
    MatrixEntry { row: SimUnknown(row), col: SimUnknown(col), resist, react }
}

fn unit_of(
    residual: Vec<Residual>,
    jacobian: Vec<MatrixEntry>,
    noise_sources: Vec<NoiseSource>,
) -> OsdiCompilationUnit {
    let unknowns = (0..residual.len() as u32).map(SimUnknownKind::KirchoffLaw).collect();
    let num_resistive = jacobian.iter().filter(|e| e.resist != ZERO).count() as u32;
    let num_reactive = jacobian.iter().filter(|e| e.react != ZERO).count() as u32;
    OsdiCompilationUnit {
        module: OsdiModule {
            sym: String::from("m"),
            info: ModuleInfo {
                name: String::from("m"),
                sym: String::from("m"),
                node_strs: vec![],
                params: vec![],
                op_vars: vec![],
                sys_fun_alias: vec![],
                sys_funs: vec![],
            },
            dae_system: DaeSystem {
                unknowns,
                residual,
                jacobian,
                noise_sources,
                num_resistive,
                num_reactive,
            },
            eval: Function::new(),
            callbacks: vec![],
            node_collapse: NodeCollapse::new(),
        },
        inst_data: OsdiInstanceData { params: vec![], opvars: vec![] },
        model_data: OsdiModelData { params: vec![] },
    }
}

/// Unknowns A and B; a resistive entry (A, A) = g and a reactive entry
/// (A, B) = c.
fn two_unknowns() -> OsdiCompilationUnit {
    unit_of(
        vec![residual(0, 0, 0, 0), residual(0, 0, 0, 0)],
        vec![entry(0, 0, G, ZERO), entry(0, 1, ZERO, C)],
        vec![],
    )
}

#[test]
fn load_type_reads_and_writes() {
    assert!(JacobianLoadType::React.dst_reactive());
    assert!(!JacobianLoadType::Resist.dst_reactive());
    assert!(!JacobianLoadType::Tran.dst_reactive());
    assert!(JacobianLoadType::Resist.read_resistive());
    assert!(JacobianLoadType::Tran.read_resistive());
    assert!(!JacobianLoadType::React.read_resistive());
    assert!(JacobianLoadType::React.read_reactive());
    assert!(JacobianLoadType::Tran.read_reactive());
    assert!(!JacobianLoadType::Resist.read_reactive());
    assert_eq!(JacobianLoadType::Tran.name(), "tran");
    assert_eq!(JacobianLoadType::Resist.name(), "resist");
    assert_eq!(JacobianLoadType::React.name(), "react");
}

#[test]
fn resistive_jacobian_stores_only_the_resistive_entry() {
    let f = two_unknowns().load_jacobian(JacobianLoadType::Resist, false);
    assert_eq!(f.prototype.name, "load_jacobian_resist_m");
    assert_eq!(f.prototype.args, vec![ArgType::Ptr, ArgType::Ptr]);
    assert_eq!(
        f.stores,
        vec![Store {
            dest: Dest::Jacobian { entry: MatrixEntryId(0), reactive: false, with_offset: false },
            value: Expr::Output(G),
        }]
    );
}

#[test]
fn reactive_jacobian_stores_only_the_reactive_entry() {
    let f = two_unknowns().load_jacobian(JacobianLoadType::React, false);
    assert_eq!(f.prototype.name, "load_jacobian_react_m");
    assert_eq!(
        f.stores,
        vec![Store {
            dest: Dest::Jacobian { entry: MatrixEntryId(1), reactive: true, with_offset: false },
            value: Expr::Output(C),
        }]
    );
    // the entry is that of column B
    assert_eq!(two_unknowns().module.dae_system.jacobian[1].col, SimUnknown(1));
}

#[test]
fn transient_jacobian_scales_the_reactive_part() {
    let u = unit_of(
        vec![residual(0, 0, 0, 0)],
        vec![entry(0, 0, G, C), entry(0, 0, ZERO, C), entry(0, 0, G, ZERO)],
        vec![],
    );
    let f = u.load_jacobian(JacobianLoadType::Tran, false);
    assert_eq!(f.prototype.name, "load_jacobian_tran_m");
    assert_eq!(f.prototype.args, vec![ArgType::Ptr, ArgType::Ptr, ArgType::Double]);
    assert_eq!(f.stores.len(), 3);
    assert_eq!(
        f.stores[0].value,
        Expr::Add(out(G), Box::new(Expr::Mul(out(C), Box::new(Expr::Alpha))))
    );
    assert_eq!(f.stores[1].value, Expr::Mul(out(C), Box::new(Expr::Alpha)));
    assert_eq!(f.stores[2].value, Expr::Output(G));
    assert_eq!(
        f.stores[2].dest,
        Dest::Jacobian { entry: MatrixEntryId(2), reactive: false, with_offset: false }
    );

    let f = u.load_jacobian(JacobianLoadType::Tran, true);
    assert_eq!(f.prototype.name, "load_jacobian_with_offset_tran_m");
    assert_eq!(f.prototype.args, vec![ArgType::Ptr, ArgType::Ptr, ArgType::Size]);
    assert_eq!(f.stores[0].value, Expr::Add(out(G), out(C)));
    assert_eq!(
        f.stores[0].dest,
        Dest::Jacobian { entry: MatrixEntryId(0), reactive: false, with_offset: true }
    );
}

#[test]
fn jacobian_array_is_dense_and_in_order() {
    let u = two_unknowns();
    let f = u.write_jacobian_array(JacobianLoadType::Resist);
    assert_eq!(f.prototype.name, "write_jacobian_array_resist_m");
    assert_eq!(f.stores, vec![Store { dest: Dest::Array { pos: 0 }, value: Expr::Output(G) }]);
    let f = u.write_jacobian_array(JacobianLoadType::React);
    assert_eq!(f.stores, vec![Store { dest: Dest::Array { pos: 0 }, value: Expr::Output(C) }]);

    let u = unit_of(
        vec![residual(0, 0, 0, 0), residual(0, 0, 0, 0)],
        vec![
            entry(0, 0, Value(5), ZERO),
            entry(0, 1, ZERO, Value(6)),
            entry(1, 0, Value(7), Value(8)),
            entry(1, 1, Value(9), ZERO),
        ],
        vec![],
    );
    let f = u.write_jacobian_array(JacobianLoadType::Resist);
    assert_eq!(f.stores.len() as u32, u.module.dae_system.num_resistive);
    assert_eq!(
        f.stores,
        vec![
            Store { dest: Dest::Array { pos: 0 }, value: Expr::Output(Value(5)) },
            Store { dest: Dest::Array { pos: 1 }, value: Expr::Output(Value(7)) },
            Store { dest: Dest::Array { pos: 2 }, value: Expr::Output(Value(9)) },
        ]
    );
    let f = u.write_jacobian_array(JacobianLoadType::React);
    assert_eq!(f.stores.len() as u32, u.module.dae_system.num_reactive);
    assert_eq!(
        f.stores,
        vec![
            Store { dest: Dest::Array { pos: 0 }, value: Expr::Output(Value(6)) },
            Store { dest: Dest::Array { pos: 1 }, value: Expr::Output(Value(8)) },
        ]
    );
}

#[test]
fn residual_loader_skips_unknowns_without_contribution() {
    let u = unit_of(
        vec![residual(3, 0, 0, 0), residual(0, 4, 0, 0), residual(5, 6, 0, 0)],
        vec![],
        vec![],
    );
    let f = u.load_residual(false);
    assert_eq!(f.prototype.name, "load_residual_resist_m");
    assert_eq!(f.prototype.args, vec![ArgType::Ptr, ArgType::Ptr, ArgType::Ptr]);
    assert_eq!(f.prototype.ret, ArgType::Void);
    assert_eq!(
        f.stores,
        vec![
            Store {
                dest: Dest::Contrib { node: SimUnknown(0), negate: false },
                value: Expr::Output(Value(3)),
            },
            Store {
                dest: Dest::Contrib { node: SimUnknown(2), negate: false },
                value: Expr::Output(Value(5)),
            },
        ]
    );
    let f = u.load_residual(true);
    assert_eq!(f.prototype.name, "load_residual_react_m");
    assert_eq!(
        f.stores,
        vec![
            Store {
                dest: Dest::Contrib { node: SimUnknown(1), negate: false },
                value: Expr::Output(Value(4)),
            },
            Store {
                dest: Dest::Contrib { node: SimUnknown(2), negate: false },
                value: Expr::Output(Value(6)),
            },
        ]
    );
}

#[test]
fn lim_rhs_loader_subtracts() {
    let u = unit_of(vec![residual(3, 0, 0, 7), residual(0, 0, 8, 0)], vec![], vec![]);
    let f = u.load_lim_rhs(false);
    assert_eq!(f.prototype.name, "load_lim_rhs_resist_m");
    assert_eq!(
        f.stores,
        vec![Store {
            dest: Dest::Contrib { node: SimUnknown(1), negate: true },
            value: Expr::Output(Value(8)),
        }]
    );
    let f = u.load_lim_rhs(true);
    assert_eq!(f.prototype.name, "load_lim_rhs_react_m");
    assert_eq!(
        f.stores,
        vec![Store {
            dest: Dest::Contrib { node: SimUnknown(0), negate: true },
            value: Expr::Output(Value(7)),
        }]
    );
}

#[test]
fn empty_system_loads_nothing() {
    let u = unit_of(vec![], vec![], vec![]);
    assert!(u.load_residual(false).stores.is_empty());
    assert!(u.load_lim_rhs(true).stores.is_empty());
    assert!(u.load_jacobian(JacobianLoadType::Tran, false).stores.is_empty());
    assert!(u.write_jacobian_array(JacobianLoadType::React).stores.is_empty());
    assert!(u.load_spice_rhs(true).stores.is_empty());
    assert!(!u.module.dae_system.has_noise_table());
    assert!(u.load_noise().stores.is_empty());
}

#[test]
fn spice_rhs_dc_combines_jacobian_residual_and_limiting() {
    // row 0: g * V(0) + c' * V(1) - residual + lim ; row 1: only a residual
    let u = unit_of(
        vec![residual(3, 0, 4, 0), residual(5, 0, 0, 0), residual(0, 0, 9, 0)],
        vec![entry(0, 0, G, ZERO), entry(1, 1, ZERO, C), entry(0, 1, Value(13), Value(14))],
        vec![],
    );
    let f = u.load_spice_rhs(false);
    assert_eq!(f.prototype.name, "load_spice_rhs_dc_m");
    assert_eq!(f.prototype.args, vec![ArgType::Ptr; 4]);
    let sum = Expr::Add(
        Box::new(Expr::Mul(out(G), Box::new(Expr::Voltage(SimUnknown(0))))),
        Box::new(Expr::Mul(out(Value(13)), Box::new(Expr::Voltage(SimUnknown(1))))),
    );
    let row0 = Expr::Add(Box::new(Expr::Sub(Box::new(sum), out(Value(3)))), out(Value(4)));
    let row1 = Expr::Sub(Box::new(Expr::Zero), out(Value(5)));
    assert_eq!(
        f.stores,
        vec![
            Store { dest: Dest::Contrib { node: SimUnknown(0), negate: false }, value: row0 },
            Store { dest: Dest::Contrib { node: SimUnknown(1), negate: false }, value: row1 },
        ]
    );
}

#[test]
fn spice_rhs_tran_appends_the_scaled_reactive_pass() {
    let u = unit_of(
        vec![residual(0, 3, 0, 4), residual(0, 5, 0, 0)],
        vec![entry(0, 1, ZERO, C)],
        vec![],
    );
    let f = u.load_spice_rhs(true);
    assert_eq!(f.prototype.name, "load_spice_rhs_tran_m");
    assert_eq!(
        f.prototype.args,
        vec![ArgType::Ptr, ArgType::Ptr, ArgType::Ptr, ArgType::Ptr, ArgType::Double]
    );
    // the direct-current pass has nothing to store; the transient pass stores row 0
    let term = Expr::Mul(out(C), Box::new(Expr::Voltage(SimUnknown(1))));
    let row0 = Expr::Mul(
        Box::new(Expr::Add(Box::new(term), out(Value(4)))),
        Box::new(Expr::Alpha),
    );
    assert_eq!(
        f.stores,
        vec![Store { dest: Dest::Contrib { node: SimUnknown(0), negate: false }, value: row0 }]
    );
    let mut stores = vec![];
    u.load_spice_rhs_(false, &mut stores);
    assert!(stores.is_empty());
    u.load_spice_rhs_(true, &mut stores);
    assert_eq!(stores.len(), 1);
}

fn source(kind: NoiseSourceKind, factor: u32) -> NoiseSource {
    NoiseSource {
        name: 0,
        kind,
        hi: SimUnknown(0),
        lo: SimUnknown(0),
        has_lo: false,
        factor: Value(factor),
    }
}

#[test]
fn noise_power_is_shape_times_squared_factor() {
    let u = unit_of(
        vec![residual(0, 0, 0, 0)],
        vec![],
        vec![
            source(NoiseSourceKind::WhiteNoise { pwr: Value(20) }, 21),
            source(NoiseSourceKind::FlickerNoise { pwr: Value(30), exp: Value(31) }, 32),
        ],
    );
    assert!(!u.module.dae_system.has_noise_table());
    let f = u.load_noise();
    assert_eq!(f.prototype.name, "load_noise_m");
    assert_eq!(
        f.prototype.args,
        vec![ArgType::Ptr, ArgType::Ptr, ArgType::Double, ArgType::Ptr]
    );
    let white = Expr::Mul(Box::new(Expr::Mul(out(Value(20)), out(Value(21)))), out(Value(21)));
    let shape = Expr::Div(
        out(Value(30)),
        Box::new(Expr::Pow(Box::new(Expr::Freq), out(Value(31)))),
    );
    let flicker = Expr::Mul(Box::new(Expr::Mul(Box::new(shape), out(Value(32)))), out(Value(32)));
    assert_eq!(
        f.stores,
        vec![
            Store { dest: Dest::Array { pos: 0 }, value: white },
            Store { dest: Dest::Array { pos: 1 }, value: flicker },
        ]
    );
}

#[test]
fn noise_table_is_told_before_the_loader_is_asked_for() {
    let u = unit_of(
        vec![residual(0, 0, 0, 0)],
        vec![],
        vec![
            source(NoiseSourceKind::WhiteNoise { pwr: Value(20) }, 21),
            source(NoiseSourceKind::NoiseTable { log: true }, 22),
        ],
    );
    assert!(u.module.dae_system.has_noise_table());
    let u = unit_of(
        vec![residual(0, 0, 0, 0)],
        vec![],
        vec![source(NoiseSourceKind::FlickerNoise { pwr: Value(1), exp: Value(2) }, 21)],
    );
    assert!(!u.module.dae_system.has_noise_table());
}
