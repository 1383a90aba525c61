use osdi_backend::base_n::{encode, ALPHANUMERIC_ONLY, CASE_INSENSITIVE, MAX_BASE};
use osdi_backend::callbacks::{CallbackBody, CodegenCx, LlValue};
use osdi_backend::compilation_unit::{ArgType, OsdiCompilationUnit};
use osdi_backend::compile::{
    compile, exports, CompileError, Export, LimTable, Offset, OsdiLimFunction, OsdiLimId,
    UnitKind,
};
use osdi_backend::dae::{
    CollapsePair, DaeSystem, MatrixEntry, NodeCollapse, NoiseSource, NoiseSourceKind, SimUnknown,
    SimUnknownKind,
};
use osdi_backend::elysian::{
    is_real_text, parse_i32, parse_line, parse_lines, Line, NumericText, ParseError,
    ParseErrorKind,
};
use osdi_backend::metadata::{JacobianEntryDescriptor, ParamDescriptor, ParamScope};
use osdi_backend::interner::intern_all;
use osdi_backend::ir::{FuncCursor, Function, Opcode, Value, ValueDef};
use osdi_backend::module::{
    base_type, lltype, param_positions, ty_len, CallBackKind, CompiledModule, LlType, ModuleInfo,
    ModuleInput, OpVarInfo, ParamInfo, SysFunParam, Type,
};
use osdi_backend::paths::{main_object_path, object_path, object_paths};
use osdi_backend::pipeline::UnitEvent::{Begin, Failed, Succeeded};
use osdi_backend::pipeline::{step, UnitAction, UnitEvent, UnitOptions, UnitStage};

fn s(text: &str) -> String {
    String::from(text)
}

fn param(name: &str, alias: &[&str], is_instance: bool) -> ParamInfo {
    ParamInfo {
        name: s(name),
        alias: alias.iter().map(|a| s(a)).collect(),
        unit: s("V"),
        description: format!("the {name}"),
        group: s(""),
        ty: Type::Real,
        is_instance,
    }
}

fn info(name: &str) -> ModuleInfo {
    ModuleInfo {
        name: s(name),
        sym: format!("{name}_sym"),
        node_strs: vec![s("A"), s("B")],
        params: vec![
            param("r", &["res"], false),
            param("w", &[], true),
            param("tnom", &["tref", "t0"], false),
            param("l", &[], true),
        ],
        op_vars: vec![OpVarInfo { name: s("i"), unit: s("A"), description: s("current") }],
        sys_fun_alias: vec![vec![s("m")], vec![]],
        sys_funs: vec![
            SysFunParam { name: s("mfactor"), live_eval: false, live_init: true, live_model_setup: false },
            SysFunParam { name: s("xposition"), live_eval: false, live_init: false, live_model_setup: false },
            SysFunParam { name: s("temperature"), live_eval: true, live_init: false, live_model_setup: false },
        ],
    }
}

fn input(name: &str, callbacks: Vec<CallBackKind>) -> ModuleInput {
    let mut eval = Function::new();
    eval.defs.push(ValueDef::Param(0));
    let mut cursor = FuncCursor::at_exit(eval);
    let zero = cursor.ins(Opcode::OptBarrier, Value(0), Value(0));
    let mut dae = DaeSystem::new();
    dae.ensure_unknown(SimUnknownKind::KirchoffLaw(0));
    dae.jacobian = vec![
        MatrixEntry { row: SimUnknown(0), col: SimUnknown(0), resist: zero, react: zero },
    ];
    ModuleInput {
        info: info(name),
        eval: cursor.func,
        dae_system: dae,
        callbacks,
        node_collapse: NodeCollapse::new(),
    }
}

#[test]
fn numbers_in_base_36_and_62() {
    assert_eq!(encode(0, CASE_INSENSITIVE), "0");
    assert_eq!(encode(9, CASE_INSENSITIVE), "9");
    assert_eq!(encode(10, CASE_INSENSITIVE), "a");
    assert_eq!(encode(35, CASE_INSENSITIVE), "z");
    assert_eq!(encode(36, CASE_INSENSITIVE), "10");
    assert_eq!(encode(36 * 36 + 1, CASE_INSENSITIVE), "101");
    assert_eq!(encode(61, ALPHANUMERIC_ONLY), "Z");
    assert_eq!(encode(62, ALPHANUMERIC_ONLY), "10");
    assert_eq!(encode(63, MAX_BASE), "$");
    assert_eq!(encode(255, 2), "11111111");
    assert_eq!(encode(1234567890, 10), "1234567890");
    assert_eq!(
        encode(u128::MAX, 16),
        "ffffffffffffffffffffffffffffffff"
    );
}

#[test]
fn object_files_are_numbered_from_one_in_base_36() {
    assert_eq!(object_path("out/lib.osdi", 0), "out/lib.o1");
    assert_eq!(object_path("out/lib.osdi", 34), "out/lib.oz");
    assert_eq!(object_path("out/lib.osdi", 35), "out/lib.o10");
    assert_eq!(object_path("lib", 2), "lib.o3");
    assert_eq!(main_object_path("out/lib.osdi"), "out/lib.o");
    assert_eq!(object_paths("a.osdi", 3), vec![s("a.o1"), s("a.o2"), s("a.o3")]);
    assert!(object_paths("a.osdi", 0).is_empty());
}

#[test]
fn index_types_show_as_lim_and_number() {
    assert_eq!(OsdiLimId(0).display(), "lim0");
    assert_eq!(OsdiLimId(42).display(), "lim42");
    assert_eq!(Offset(7).display(), "lim7");
    assert!(OsdiLimId(1) < OsdiLimId(2));
    assert_eq!(Offset(3), Offset(3));
}

#[test]
fn lim_table_holds_each_function_once() {
    let mut table = LimTable::new();
    let pnjlim = OsdiLimFunction { name: 1, num_args: 2 };
    let fetlim = OsdiLimFunction { name: 2, num_args: 1 };
    assert_eq!(table.ensure(pnjlim), (0, true));
    assert_eq!(table.ensure(fetlim), (1, true));
    assert_eq!(table.ensure(pnjlim), (0, false));
    // the same name with another number of arguments is another function
    assert_eq!(table.ensure(OsdiLimFunction { name: 1, num_args: 3 }), (2, true));
    assert_eq!(table.funs.len(), 3);
    assert_eq!(table.index_of(fetlim), Some(1));
    assert_eq!(table.index_of(OsdiLimFunction { name: 9, num_args: 0 }), None);

    let mut table = LimTable::new();
    table.ensure_callbacks(&vec![
        CallBackKind::Other,
        CallBackKind::BuiltinLimit { name: 5, num_args: 4 },
        CallBackKind::BuiltinLimit { name: 5, num_args: 4 },
        CallBackKind::BuiltinLimit { name: 6, num_args: 2 },
    ]);
    assert_eq!(
        table.funs,
        vec![OsdiLimFunction { name: 5, num_args: 2 }, OsdiLimFunction { name: 6, num_args: 0 }]
    );
}

#[test]
fn exports_name_version_zero_point_four() {
    let e = exports(2, 0);
    assert_eq!(
        e,
        vec![
            Export::Descriptors { count: 2 },
            Export::NumDescriptors(2),
            Export::VersionMajor(0),
            Export::VersionMinor(4),
            Export::DescriptorSize,
        ]
    );
    let names: Vec<&str> = e.iter().map(|x| x.symbol()).collect();
    assert_eq!(
        names,
        vec![
            "OSDI_DESCRIPTORS",
            "OSDI_NUM_DESCRIPTORS",
            "OSDI_VERSION_MAJOR",
            "OSDI_VERSION_MINOR",
            "OSDI_DESCRIPTOR_SIZE",
        ]
    );
    let e = exports(1, 3);
    assert_eq!(e.len(), 7);
    assert_eq!(e[5], Export::LimTable { count: 3 });
    assert_eq!(e[6], Export::LimTableLen(3));
    assert_eq!(e[5].symbol(), "OSDI_LIM_TABLE");
    assert_eq!(e[6].symbol(), "OSDI_LIM_TABLE_LEN");
}

#[test]
fn module_names_are_collected_in_order() {
    let module = CompiledModule::new(input("diode", vec![]));
    let unit = OsdiCompilationUnit::new(module, s("diode_sym"));
    let names = unit.module.names();
    let expected = vec![
        "diode", "A", "B", "Multiplier (Verilog-A $mfactor)", "deg", "m", "",
        "res", "r", "V", "the r", "",
        "w", "V", "the w", "",
        "tref", "t0", "tnom", "V", "the tnom", "",
        "l", "V", "the l", "",
        "i", "A", "current",
        "m",
        "$mfactor", "$temperature",
    ];
    assert_eq!(names, expected);
}

#[test]
fn names_are_interned_once_in_first_seen_order() {
    let module = CompiledModule::new(input("diode", vec![]));
    let unit = OsdiCompilationUnit::new(module, s("diode_sym"));
    let mut pool = lasso::Rodeo::new();
    assert!(unit.module.intern_names(&mut pool));
    let strings: Vec<&str> = pool.strings().collect();
    assert_eq!(
        strings,
        vec![
            "diode", "A", "B", "Multiplier (Verilog-A $mfactor)", "deg", "m", "", "res", "r",
            "V", "the r", "w", "the w", "tref", "t0", "tnom", "the tnom", "l", "the l", "i",
            "current", "$mfactor", "$temperature",
        ]
    );
    let before = pool.len();
    assert!(unit.module.intern_names(&mut pool));
    assert_eq!(pool.len(), before);
    assert!(intern_all(&mut pool, &vec![s("deg"), s("new"), s("new")]));
    assert_eq!(pool.len(), before + 1);
    assert_eq!(pool.get("new").map(|k| lasso::Key::into_usize(k)), Some(before));
}

#[test]
fn parameters_get_their_identities_in_declaration_order() {
    let module = CompiledModule::new(input("diode", vec![]));
    assert_eq!(module.inst_params, vec![1, 3]);
    assert_eq!(module.model_params, vec![0, 1, 2, 3]);
    let unit = OsdiCompilationUnit::new(module, s("d"));
    assert_eq!(unit.inst_data.params, vec![1, 3]);
    assert_eq!(unit.model_data.params, vec![0, 2]);
    assert_eq!(unit.inst_data.opvars, vec![0]);
    assert_eq!(param_positions(&info("x").params, true), vec![1, 3]);
    assert_eq!(param_positions(&vec![], false), Vec::<u32>::new());
    // the equation system was sparsified: its one entry was zero behind barriers
    assert!(unit.module.dae_system.jacobian.is_empty());
}

#[test]
fn compile_plans_four_units_per_module() {
    let modules = vec![
        input("diode", vec![CallBackKind::BuiltinLimit { name: 3, num_args: 4 }]),
        input(
            "bjt",
            vec![
                CallBackKind::BuiltinLimit { name: 4, num_args: 3 },
                CallBackKind::BuiltinLimit { name: 3, num_args: 4 },
            ],
        ),
    ];
    let plan = compile(modules, "build/devices.osdi").unwrap();
    assert_eq!(plan.name, "devices");
    assert_eq!(plan.units.len(), 2);
    assert_eq!(plan.units[1].module.sym, "bjt_sym");
    assert_eq!(
        plan.paths,
        vec![
            "build/devices.o1", "build/devices.o2", "build/devices.o3", "build/devices.o4",
            "build/devices.o5", "build/devices.o6", "build/devices.o7", "build/devices.o8",
            "build/devices.o",
        ]
    );
    let tasks: Vec<(usize, UnitKind, &str, usize)> =
        plan.tasks.iter().map(|t| (t.module, t.kind, t.name.as_str(), t.path)).collect();
    assert_eq!(
        tasks,
        vec![
            (0, UnitKind::Access, "access_diode_sym", 0),
            (0, UnitKind::SetupModel, "setup_model_diode_sym", 1),
            (0, UnitKind::SetupInstance, "setup_instance_diode_sym", 2),
            (0, UnitKind::Eval, "eval_diode_sym", 3),
            (1, UnitKind::Access, "access_bjt_sym", 4),
            (1, UnitKind::SetupModel, "setup_model_bjt_sym", 5),
            (1, UnitKind::SetupInstance, "setup_instance_bjt_sym", 6),
            (1, UnitKind::Eval, "eval_bjt_sym", 7),
        ]
    );
    assert_eq!(
        plan.lim_table.funs,
        vec![OsdiLimFunction { name: 3, num_args: 2 }, OsdiLimFunction { name: 4, num_args: 1 }]
    );
    assert_eq!(plan.exports.len(), 7);
    assert_eq!(plan.exports[1], Export::NumDescriptors(2));
    assert_eq!(plan.exports[6], Export::LimTableLen(2));
    // both modules share all strings but their names
    let strings: Vec<&str> = plan.literals.strings().collect();
    assert_eq!(strings[0], "diode");
    assert_eq!(strings.len(), 24);
    assert_eq!(strings[23], "bjt");
}

#[test]
fn compile_without_modules_exports_an_empty_table() {
    let plan = compile(vec![], "x.osdi").unwrap();
    assert!(plan.units.is_empty());
    assert!(plan.tasks.is_empty());
    assert_eq!(plan.paths, vec!["x.o"]);
    assert_eq!(plan.exports.len(), 5);
    assert_eq!(plan.exports[0], Export::Descriptors { count: 0 });
    assert_eq!(plan.literals.len(), 0);
}

#[test]
fn compile_needs_a_file_name() {
    match compile(vec![], "..") {
        Err(e) => assert_eq!(e, CompileError::NotAFile),
        Ok(_) => panic!("a destination without a file name was accepted"),
    }
    match compile(vec![input("d", vec![])], "") {
        Err(e) => assert_eq!(e, CompileError::NotAFile),
        Ok(_) => panic!("an empty destination was accepted"),
    }
}

#[test]
fn array_types_count_their_scalars() {
    let vec3 = Type::Array { ty: Box::new(Type::Real), len: 3 };
    let mat = Type::Array { ty: Box::new(Type::Array { ty: Box::new(Type::Integer), len: 4 }), len: 2 };
    assert_eq!(ty_len(&Type::Real), None);
    assert_eq!(ty_len(&Type::EmptyArray), Some(0));
    assert_eq!(ty_len(&vec3), Some(3));
    assert_eq!(ty_len(&mat), Some(8));
    assert_eq!(
        ty_len(&Type::Array { ty: Box::new(Type::EmptyArray), len: 5 }),
        Some(0)
    );
    assert_eq!(base_type(&mat), &Type::Integer);
    assert_eq!(base_type(&Type::Bool), &Type::Bool);
    assert_eq!(lltype(&Type::Real), LlType::Double);
    assert_eq!(lltype(&Type::Integer), LlType::Int);
    assert_eq!(lltype(&Type::String), LlType::Ptr);
    assert_eq!(lltype(&Type::Bool), LlType::Bool);
    assert_eq!(lltype(&Type::Void), LlType::Void);
    assert_eq!(lltype(&vec3), LlType::Array(Box::new(LlType::Double), 3));
    assert_eq!(lltype(&mat), LlType::Array(Box::new(LlType::Int), 8));
    assert_eq!(
        lltype(&Type::EmptyArray),
        LlType::Array(Box::new(LlType::Array(Box::new(LlType::Int), 0)), 0)
    );
}

#[test]
fn local_callbacks_are_numbered() {
    let mut cx = CodegenCx::new();
    assert_eq!(cx.local_callback_name(), "cb.0");
    assert_eq!(cx.local_callback_name(), "cb.1");
    assert_eq!(cx.generate_local_symbol_name("tmp"), "tmp.2");
    cx.local_gen_sym_counter = 62;
    assert_eq!(cx.local_callback_name(), "cb.10");
    assert_eq!(cx.local_gen_sym_counter, 63);

    let args = [ArgType::Ptr, ArgType::Double];
    let val = LlValue { id: 9, ty: ArgType::Int };
    let f = cx.const_callback(&args, val);
    assert_eq!(f.name, "cb.11");
    assert_eq!(f.args, args.to_vec());
    assert_eq!(f.ret, ArgType::Int);
    assert_eq!(f.fun, CallbackBody::Return(val));
    assert!(f.state.is_empty());
    assert_eq!(f.num_state, 0);

    let f = cx.trivial_callbacks(&args);
    assert_eq!(f.name, "cb.12");
    assert_eq!(f.ret, ArgType::Void);
    assert_eq!(f.fun, CallbackBody::ReturnVoid);

    let f = cx.const_return(&args, 1);
    assert_eq!(f.name, "cb.13");
    assert_eq!(f.ret, ArgType::Double);
    assert_eq!(f.fun, CallbackBody::ReturnParam(1));
    assert_eq!(f.args.len(), 2);
}

fn run(events: &[UnitEvent], opts: UnitOptions) -> (UnitStage, Vec<UnitAction>) {
    let mut stage = UnitStage::Created;
    let mut actions = vec![];
    for e in events {
        let (next, action) = step(stage, *e, opts);
        stage = next;
        actions.push(action);
    }
    (stage, actions)
}

#[test]
fn unit_is_verified_before_it_is_emitted() {
    let all = UnitOptions { emit: true, dump_ir: true, dump_unopt_ir: true };
    let (stage, actions) = run(&[Begin, Succeeded, Succeeded, Succeeded, Succeeded, Succeeded, Succeeded], all);
    assert_eq!(stage, UnitStage::Done);
    assert_eq!(
        actions,
        vec![
            UnitAction::Generate,
            UnitAction::RecordUnoptimized,
            UnitAction::Verify,
            UnitAction::Optimize,
            UnitAction::Emit,
            UnitAction::RecordOptimized,
            UnitAction::Finish,
        ]
    );
    let plain = UnitOptions { emit: true, dump_ir: false, dump_unopt_ir: false };
    let (stage, actions) = run(&[Begin, Succeeded, Succeeded, Succeeded, Succeeded], plain);
    assert_eq!(stage, UnitStage::Done);
    assert_eq!(
        actions,
        vec![
            UnitAction::Generate,
            UnitAction::Verify,
            UnitAction::Optimize,
            UnitAction::Emit,
            UnitAction::Finish,
        ]
    );
    let dry = UnitOptions { emit: false, dump_ir: false, dump_unopt_ir: false };
    let (stage, actions) = run(&[Begin, Succeeded, Succeeded], dry);
    assert_eq!(stage, UnitStage::Done);
    assert_eq!(actions, vec![UnitAction::Generate, UnitAction::Verify, UnitAction::Finish]);

    // a failed verification is fatal, and nothing is emitted after it
    let (stage, actions) = run(&[Begin, Succeeded, Failed, Succeeded, Succeeded], plain);
    assert_eq!(stage, UnitStage::Failed);
    assert_eq!(actions[2], UnitAction::Abort);
    assert!(!actions.contains(&UnitAction::Emit));
    // so is a failed emission
    let (stage, _) = run(&[Begin, Succeeded, Succeeded, Succeeded, Failed], plain);
    assert_eq!(stage, UnitStage::Failed);
    // and a report out of turn
    assert_eq!(step(UnitStage::Created, Succeeded, plain), (UnitStage::Failed, UnitAction::Abort));
    assert_eq!(step(UnitStage::Done, Failed, plain), (UnitStage::Done, UnitAction::Finish));
}

#[test]
fn descriptor_lists_entries_and_identities() {
    let mut module = input("diode", vec![]);
    module.dae_system.ensure_unknown(SimUnknownKind::KirchoffLaw(1));
    module.dae_system.jacobian.push(MatrixEntry {
        row: SimUnknown(1),
        col: SimUnknown(0),
        resist: Value(0),
        react: Value(1),
    });
    let pair = CollapsePair { hi: SimUnknown(1), lo: SimUnknown(0), has_lo: true };
    assert!(module.node_collapse.record(&module.dae_system, pair));
    assert!(module.node_collapse.record(&module.dae_system, pair));
    let ground = CollapsePair { hi: SimUnknown(0), lo: SimUnknown(0), has_lo: false };
    assert!(module.node_collapse.record(&module.dae_system, ground));
    assert_eq!(module.node_collapse.pairs, vec![pair, ground]);

    let unit = OsdiCompilationUnit::new(CompiledModule::new(module), s("d"));
    let d = unit.descriptor();
    assert_eq!(d.name, "diode");
    assert_eq!(d.num_nodes, 2);
    assert_eq!(
        d.jacobian_entries,
        vec![JacobianEntryDescriptor {
            row: SimUnknown(1),
            col: SimUnknown(0),
            has_resist: false,
            has_react: true,
        }]
    );
    assert_eq!(d.num_resistive_jacobian_entries, 0);
    assert_eq!(d.num_reactive_jacobian_entries, 1);
    assert_eq!(d.collapsible, vec![pair, ground]);
    assert_eq!(d.num_noise_src, 0);
    assert_eq!((d.num_params, d.num_instance_params, d.num_opvars), (4, 2, 1));
    assert_eq!(
        d.param_opvar,
        vec![
            ParamDescriptor { id: 0, scope: ParamScope::Instance, position: 1 },
            ParamDescriptor { id: 1, scope: ParamScope::Instance, position: 3 },
            ParamDescriptor { id: 2, scope: ParamScope::Model, position: 0 },
            ParamDescriptor { id: 3, scope: ParamScope::Model, position: 2 },
            ParamDescriptor { id: 4, scope: ParamScope::OpVar, position: 0 },
        ]
    );
}

#[test]
fn compiling_twice_gives_the_same_plan() {
    let a = compile(vec![input("diode", vec![]), input("bjt", vec![])], "lib.osdi").unwrap();
    let b = compile(vec![input("diode", vec![]), input("bjt", vec![])], "lib.osdi").unwrap();
    assert_eq!(a.paths, b.paths);
    assert_eq!(a.exports, b.exports);
    assert_eq!(a.name, b.name);
    assert_eq!(a.descriptors.len(), 2);
    for i in 0..2 {
        assert_eq!(a.descriptors[i].param_opvar, b.descriptors[i].param_opvar);
        assert_eq!(a.descriptors[i].jacobian_entries, b.descriptors[i].jacobian_entries);
        assert_eq!(a.units[i].inst_data.params, b.units[i].inst_data.params);
    }
    let sa: Vec<&str> = a.literals.strings().collect();
    let sb: Vec<&str> = b.literals.strings().collect();
    assert_eq!(sa, sb);
}

fn entry(name: &str, value: NumericText) -> Line {
    Line::Entry { name: name.as_bytes().to_vec(), value }
}

fn real_text(text: &str) -> NumericText {
    NumericText::Real(text.as_bytes().to_vec())
}

#[test]
fn integers_are_read_with_an_optional_sign() {
    assert_eq!(parse_i32(b"0"), Some(0));
    assert_eq!(parse_i32(b"42"), Some(42));
    assert_eq!(parse_i32(b"+7"), Some(7));
    assert_eq!(parse_i32(b"-7"), Some(-7));
    assert_eq!(parse_i32(b"007"), Some(7));
    assert_eq!(parse_i32(b"2147483647"), Some(i32::MAX));
    assert_eq!(parse_i32(b"-2147483648"), Some(i32::MIN));
    assert_eq!(parse_i32(b"2147483648"), None);
    assert_eq!(parse_i32(b"-2147483649"), None);
    assert_eq!(parse_i32(b"99999999999999999999999"), None);
    assert_eq!(parse_i32(b""), None);
    assert_eq!(parse_i32(b"+"), None);
    assert_eq!(parse_i32(b"-"), None);
    assert_eq!(parse_i32(b"1.5"), None);
    assert_eq!(parse_i32(b"1e3"), None);
    assert_eq!(parse_i32(b"--1"), None);
    assert_eq!(parse_i32(b" 1"), None);
    assert_eq!(parse_i32(b"12a"), None);
    // what the standard library reads as an integer, and nothing else
    for text in ["0", "+0", "-0", "12", "2147483648", "-2147483648", "x", "+-1", "1_0", "١"] {
        assert_eq!(parse_i32(text.as_bytes()), text.parse::<i32>().ok(), "{}", text);
    }
}

#[test]
fn lines_hold_a_name_and_a_value() {
    assert_eq!(parse_line(b"vth = 3"), entry("vth", NumericText::Int(3)));
    assert_eq!(parse_line(b"  vth=-3  "), entry("vth", NumericText::Int(-3)));
    assert_eq!(parse_line(b"tox = 1.5e-9"), entry("tox", real_text("1.5e-9")));
    assert_eq!(parse_line(b"\tk\t=\t2.0\r"), entry("k", real_text("2.0")));
    assert_eq!(parse_line(b"a b = 1e3"), entry("a b", real_text("1e3")));
    assert_eq!(parse_line(b"a = c d"), Line::BadValue { text: b"c d".to_vec() });
    assert_eq!(parse_line(b"= 1"), entry("", NumericText::Int(1)));
    assert_eq!(parse_line(b"x ="), Line::BadValue { text: vec![] });
    assert_eq!(parse_line(b"="), Line::BadValue { text: vec![] });
    assert_eq!(parse_line(b""), Line::Blank);
    assert_eq!(parse_line(b"   \t "), Line::Blank);
    assert_eq!(parse_line(b"vth"), Line::Malformed);
    assert_eq!(parse_line(b"a = b = c"), Line::Malformed);
    assert_eq!(parse_line(b"a == 1"), Line::Malformed);
}

#[test]
fn file_is_read_up_to_the_first_malformed_line() {
    let lines: Vec<Vec<u8>> =
        ["a = 1", "", "b = 2.5", "  ", "c=-4"].iter().map(|l| l.as_bytes().to_vec()).collect();
    assert_eq!(
        parse_lines(&lines),
        Ok(vec![
            (b"a".to_vec(), NumericText::Int(1)),
            (b"b".to_vec(), real_text("2.5")),
            (b"c".to_vec(), NumericText::Int(-4)),
        ])
    );
    let lines: Vec<Vec<u8>> =
        ["a = 1", "", "oops", "b = = 2"].iter().map(|l| l.as_bytes().to_vec()).collect();
    assert_eq!(
        parse_lines(&lines),
        Err(ParseError { line: 3, kind: ParseErrorKind::ExpectedFormat })
    );
    let lines: Vec<Vec<u8>> =
        ["a = 1", "b = 1.5.2", "oops"].iter().map(|l| l.as_bytes().to_vec()).collect();
    assert_eq!(
        parse_lines(&lines),
        Err(ParseError { line: 2, kind: ParseErrorKind::CannotParseValue })
    );
    assert_eq!(parse_lines(&vec![]), Ok(vec![]));
}

#[test]
fn a_full_pool_keeps_what_it_took() {
    let eight = std::num::NonZeroUsize::new(8).unwrap();
    let mut pool: lasso::Rodeo = lasso::Rodeo::with_capacity_and_memory_limits(
        lasso::Capacity::for_bytes(eight),
        lasso::MemoryLimits::for_memory_usage(8),
    );
    let names = vec![s("abcd"), s("efgh"), s("abcd"), s("ijkl"), s("mnop")];
    assert!(!intern_all(&mut pool, &names));
    let strings: Vec<&str> = pool.strings().collect();
    assert_eq!(strings, vec!["abcd", "efgh"]);
    // what is there already still interns
    assert!(intern_all(&mut pool, &vec![s("efgh"), s("")]));
}

#[test]
fn compile_rejects_a_module_that_is_not_well_formed() {
    let mut bad = input("diode", vec![]);
    // an entry outside the system
    bad.dae_system.jacobian.push(MatrixEntry {
        row: SimUnknown(5),
        col: SimUnknown(0),
        resist: Value(1),
        react: Value(0),
    });
    assert!(!bad.validate());
    match compile(vec![input("ok", vec![]), bad], "lib.osdi") {
        Err(e) => assert_eq!(e, CompileError::InvalidModule),
        Ok(_) => panic!("an entry outside the system was accepted"),
    }
    // a limiting function without its state arguments
    let bad = input("diode", vec![CallBackKind::BuiltinLimit { name: 1, num_args: 1 }]);
    assert!(!bad.validate());
    // the same unknown twice
    let mut bad = input("diode", vec![]);
    bad.dae_system.unknowns.push(SimUnknownKind::KirchoffLaw(0));
    assert!(!bad.validate());
    assert!(input("diode", vec![]).validate());
    // an invalid module comes before a destination without a file name
    let bad = input("diode", vec![CallBackKind::BuiltinLimit { name: 1, num_args: 0 }]);
    match compile(vec![bad], "..") {
        Err(e) => assert_eq!(e, CompileError::InvalidModule),
        Ok(_) => panic!("accepted"),
    }
}

#[test]
fn validators_tell_well_formed_values() {
    let unit = OsdiCompilationUnit::new(CompiledModule::new(input("diode", vec![])), s("d"));
    assert!(unit.validate());
    let mut broken = OsdiCompilationUnit::new(CompiledModule::new(input("diode", vec![])), s("d"));
    broken.module.dae_system.num_resistive = 3;
    assert!(!broken.validate());
    let mut eval = Function::new();
    assert!(eval.validate());
    eval.defs.push(ValueDef::Result(osdi_backend::ir::Inst(0)));
    assert!(!eval.validate());
    let mut cursor = FuncCursor::at_exit(Function::new());
    assert!(cursor.validate());
    cursor.pos = 1;
    assert!(!cursor.validate());
    let mut flags = osdi_backend::bitfield::GivenFlags::new(40);
    assert!(flags.validate());
    flags.words.pop();
    assert!(!flags.validate());
}

#[test]
fn real_numbers_are_told_by_their_text() {
    let good = [
        "0", "1", "-1", "+1", "1.", ".5", "1.5", "-.5", "+5.", "1e3", "1E3", "1e+3", "1e-3",
        "1.5e10", ".5e1", "5.e1", "inf", "-inf", "+Infinity", "INF", "nan", "NaN", "-nan", "007",
        "123456789012345678901234567890", "1e400", "0.000000000000000000000001",
    ];
    let bad = [
        "", "+", "-", ".", "-.", "e3", "1e", "1e+", "1.5.2", "1 2", " 1", "1 ", "--1", "1e3.5",
        "0x10", "1_000", "infinit", "infinityy", "na", "1ee3", ".e1", "+-1", "1f", "abc", "1,5",
    ];
    for text in good {
        assert!(is_real_text(text.as_bytes()), "{}", text);
        assert!(text.parse::<f64>().is_ok(), "{}", text);
    }
    for text in bad {
        assert!(!is_real_text(text.as_bytes()), "{}", text);
        assert!(text.parse::<f64>().is_err(), "{}", text);
    }
}

#[test]
fn compile_stops_at_a_noise_table() {
    let mut module = input("diode", vec![]);
    assert!(module.dae_system.add_noise_source(NoiseSource {
        name: 1,
        kind: NoiseSourceKind::NoiseTable { log: false },
        hi: SimUnknown(0),
        lo: SimUnknown(0),
        has_lo: false,
        factor: Value(1),
    }));
    assert!(module.validate());
    match compile(vec![input("ok", vec![]), module], "lib.osdi") {
        Err(e) => assert_eq!(e, CompileError::NoiseTableUnimplemented),
        Ok(_) => panic!("a noise table was planned"),
    }
    // white and flicker noise are planned
    let mut module = input("diode", vec![]);
    assert!(module.dae_system.add_noise_source(NoiseSource {
        name: 1,
        kind: NoiseSourceKind::WhiteNoise { pwr: Value(1) },
        hi: SimUnknown(0),
        lo: SimUnknown(0),
        has_lo: false,
        factor: Value(1),
    }));
    let plan = compile(vec![module], "lib.osdi").unwrap();
    assert_eq!(plan.units[0].load_noise().stores.len(), 1);
    assert_eq!(plan.descriptors[0].num_noise_src, 1);
}

#[test]
fn white_space_of_every_kind_is_taken_off() {
    let spaces = [
        " ", "\t", "\n", "\u{b}", "\u{c}", "\r", "\u{85}", "\u{a0}", "\u{1680}", "\u{2000}",
        "\u{2001}", "\u{2005}", "\u{200a}", "\u{2028}", "\u{2029}", "\u{202f}", "\u{205f}",
        "\u{3000}",
    ];
    for space in spaces {
        let line = format!("{space}{space}vth{space}={space}5{space}{space}");
        assert_eq!(parse_line(line.as_bytes()), entry("vth", NumericText::Int(5)), "{:?}", space);
        assert_eq!(parse_line(space.as_bytes()), Line::Blank, "{:?}", space);
    }
    // characters that are no white space stay
    let others = ["\u{200b}", "\u{2060}", "\u{feff}", "\u{180e}", "\u{c2}", "\u{e2}", "\u{1c}"];
    for other in others {
        let line = format!("{other}vth = 5");
        let name = format!("{other}vth");
        assert_eq!(name.trim(), name);
        assert_eq!(parse_line(line.as_bytes()), entry(&name, NumericText::Int(5)), "{:?}", other);
        let line = format!("vth = 5{other}");
        assert_eq!(
            parse_line(line.as_bytes()),
            Line::BadValue { text: format!("5{other}").into_bytes() },
            "{:?}",
            other
        );
    }
    // what the standard library takes off, and nothing else
    let samples = [
        "\u{a0}5", " a\u{3000} = \u{2003}1.5\u{85} ", "\u{2028}", "x\u{a0}y = 1", "\u{1680}k=2\u{205f}",
    ];
    for sample in samples {
        match parse_line(sample.as_bytes()) {
            Line::Entry { name, value } => {
                let parts: Vec<&str> = sample.trim().split('=').collect();
                assert_eq!(parts.len(), 2);
                assert_eq!(name, parts[0].trim().as_bytes());
                match value {
                    NumericText::Int(i) => assert_eq!(parts[1].trim().parse::<i32>(), Ok(i)),
                    NumericText::Real(text) => {
                        assert_eq!(text, parts[1].trim().as_bytes());
                        assert!(parts[1].trim().parse::<f64>().is_ok());
                    }
                }
            }
            Line::Blank => assert!(sample.trim().is_empty()),
            Line::Malformed => assert_ne!(sample.trim().split('=').count(), 2),
            Line::BadValue { text } => {
                let parts: Vec<&str> = sample.trim().split('=').collect();
                assert_eq!(text, parts[1].trim().as_bytes());
                assert!(parts[1].trim().parse::<f64>().is_err());
            }
        }
    }
}
