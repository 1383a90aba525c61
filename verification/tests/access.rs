use osdi_backend::access::{
    AccessCase, GivenBit, GivenCase, Storage, ACCESS_FLAG_INSTANCE, ACCESS_FLAG_SET,
};
use osdi_backend::bitfield::GivenFlags;
use osdi_backend::compilation_unit::{
    ArgType, OsdiCompilationUnit, OsdiInstanceData, OsdiModelData, OsdiModule,
};
use osdi_backend::dae::{DaeSystem, NodeCollapse};
use osdi_backend::ir::Function;
use osdi_backend::module::ModuleInfo;

fn unit(n_inst: u32, n_model: u32, n_opvar: u32) -> OsdiCompilationUnit {
    OsdiCompilationUnit {
        module: OsdiModule {
            sym: String::from("res"),
            info: ModuleInfo {
                name: String::from("resistor"),
                sym: String::from("res"),
                node_strs: vec![],
                params: vec![],
                op_vars: vec![],
                sys_fun_alias: vec![],
                sys_funs: vec![],
            },
            dae_system: DaeSystem::new(),
            eval: Function::new(),
            callbacks: vec![],
            node_collapse: NodeCollapse::new(),
        },
        inst_data: OsdiInstanceData {
            params: (0..n_inst).collect(),
            opvars: (0..n_opvar).collect(),
        },
        model_data: OsdiModelData { params: (n_inst..n_inst + n_model).collect() },
    }
}

#[test]
fn access_prototype_is_exported_with_four_arguments() {
    let p = unit(1, 1, 1).access_function_prototype();
    assert_eq!(p.name, "access_res");
    assert_eq!(p.args, vec![ArgType::Ptr, ArgType::Ptr, ArgType::Int, ArgType::Int]);
    assert_eq!(p.ret, ArgType::Ptr);
    assert!(p.exported);
}

#[test]
fn access_function_lists_cases_in_identity_order() {
    let f = unit(2, 1, 2).access_function();
    assert_eq!(
        f.inst_cases,
        vec![
            AccessCase { id: 0, ptr: Storage::InstanceParam(0), given: GivenBit::Instance(0) },
            AccessCase { id: 1, ptr: Storage::InstanceParam(1), given: GivenBit::Instance(1) },
        ]
    );
    assert_eq!(
        f.model_cases,
        vec![
            AccessCase { id: 0, ptr: Storage::ModelInstanceParam(0), given: GivenBit::Model(0) },
            AccessCase { id: 1, ptr: Storage::ModelInstanceParam(1), given: GivenBit::Model(1) },
            AccessCase { id: 2, ptr: Storage::ModelParam(0), given: GivenBit::Model(2) },
        ]
    );
    assert_eq!(
        f.opvar_cases,
        vec![
            AccessCase { id: 3, ptr: Storage::OpVar(0), given: GivenBit::NoBit },
            AccessCase { id: 4, ptr: Storage::OpVar(1), given: GivenBit::NoBit },
        ]
    );
}

#[test]
fn instance_scope_returns_instance_storage() {
    let u = unit(3, 2, 1);
    let f = u.access_function();
    let mut inst = GivenFlags::new(3);
    let mut model = GivenFlags::new(5);
    assert_eq!(
        f.call(&mut inst, &mut model, 1, ACCESS_FLAG_INSTANCE),
        Some(Storage::InstanceParam(1))
    );
    assert_eq!(f.call(&mut inst, &mut model, 1, 0), Some(Storage::ModelInstanceParam(1)));
    assert_eq!(f.call(&mut inst, &mut model, 4, 0), Some(Storage::ModelParam(1)));
    assert_eq!(f.call(&mut inst, &mut model, 5, 0), Some(Storage::OpVar(0)));
    assert_eq!(f.call(&mut inst, &mut model, 5, ACCESS_FLAG_INSTANCE), Some(Storage::OpVar(0)));
    assert_eq!(f.call(&mut inst, &mut model, 6, 0), None);
    // a model-only identity is unknown to the instance scope
    assert_eq!(f.call(&mut inst, &mut model, 3, ACCESS_FLAG_INSTANCE), None);
    // reads set no flag
    assert_eq!(inst.words, vec![0]);
    assert_eq!(model.words, vec![0]);
}

#[test]
fn write_marks_the_flag_of_the_scope() {
    let u = unit(3, 2, 1);
    let f = u.access_function();
    let gi = u.given_flag_instance();
    let gm = u.given_flag_model();
    let mut inst = GivenFlags::new(3);
    let mut model = GivenFlags::new(5);

    assert_eq!(gi.call(&inst, 2), 0);
    let p = f.call(&mut inst, &mut model, 2, ACCESS_FLAG_INSTANCE | ACCESS_FLAG_SET);
    assert_eq!(p, Some(Storage::InstanceParam(2)));
    assert_eq!(gi.call(&inst, 2), 1);
    assert_eq!(gi.call(&inst, 0), 0);
    assert_eq!(gi.call(&inst, 1), 0);
    assert_eq!(gm.call(&model, 2), 0);

    // a write without instance scope marks the model's flag
    let p = f.call(&mut inst, &mut model, 1, ACCESS_FLAG_SET);
    assert_eq!(p, Some(Storage::ModelInstanceParam(1)));
    assert_eq!(gm.call(&model, 1), 1);
    assert_eq!(gi.call(&inst, 1), 0);

    let p = f.call(&mut inst, &mut model, 4, ACCESS_FLAG_SET);
    assert_eq!(p, Some(Storage::ModelParam(1)));
    assert_eq!(gm.call(&model, 4), 1);
    assert_eq!(gm.call(&model, 3), 0);

    // out of range: never an error
    assert_eq!(gi.call(&inst, 3), 0);
    assert_eq!(gi.call(&inst, u32::MAX), 0);
    assert_eq!(gm.call(&model, 5), 0);
}

#[test]
fn writing_an_opvar_sets_no_flag() {
    let u = unit(1, 1, 2);
    let f = u.access_function();
    let mut inst = GivenFlags::new(1);
    let mut model = GivenFlags::new(2);
    assert_eq!(
        f.call(&mut inst, &mut model, 3, ACCESS_FLAG_SET | ACCESS_FLAG_INSTANCE),
        Some(Storage::OpVar(1))
    );
    assert_eq!(inst.words, vec![0]);
    assert_eq!(model.words, vec![0]);
}

#[test]
fn unknown_identity_with_write_changes_nothing() {
    let u = unit(3, 0, 0);
    let f = u.access_function();
    let gi = u.given_flag_instance();
    let mut inst = GivenFlags::new(3);
    let mut model = GivenFlags::new(3);
    let flags = ACCESS_FLAG_SET | ACCESS_FLAG_INSTANCE;
    assert_eq!(f.call(&mut inst, &mut model, 5, flags), None);
    assert_eq!(inst.words, GivenFlags::new(3).words);
    assert_eq!(model.words, GivenFlags::new(3).words);
    assert_eq!(gi.call(&inst, 5), 0);
}

#[test]
fn given_functions_cover_their_ranges() {
    let u = unit(2, 3, 1);
    let gi = u.given_flag_instance();
    let gm = u.given_flag_model();
    assert_eq!(gi.prototype.name, "given_flag_instance_res");
    assert_eq!(gm.prototype.name, "given_flag_model_res");
    assert_eq!(gi.prototype.args, vec![ArgType::Ptr, ArgType::Int]);
    assert_eq!(gi.prototype.ret, ArgType::Int);
    assert!(!gi.prototype.exported);
    assert_eq!(gi.cases, vec![GivenCase { id: 0, bit: 0 }, GivenCase { id: 1, bit: 1 }]);
    assert_eq!(gm.cases.len(), 5);
    assert_eq!(gm.cases[4], GivenCase { id: 4, bit: 4 });
}

#[test]
fn given_flags_pack_bits_into_words() {
    let mut flags = GivenFlags::new(70);
    assert_eq!(flags.words, vec![0, 0, 0]);
    flags.set(0);
    flags.set(33);
    flags.set(69);
    assert_eq!(flags.words, vec![1, 2, 32]);
    assert!(flags.is_set(33));
    assert!(!flags.is_set(34));
    assert!(!flags.is_set(70));
    flags.set(33);
    assert_eq!(flags.words, vec![1, 2, 32]);
    assert_eq!(GivenFlags::new(0).words, Vec::<u32>::new());
    assert_eq!(GivenFlags::new(32).words, vec![0]);
    assert_eq!(GivenFlags::new(33).words, vec![0, 0]);
}

#[test]
fn empty_module_knows_no_identity() {
    let u = unit(0, 0, 0);
    let f = u.access_function();
    let mut inst = GivenFlags::new(0);
    let mut model = GivenFlags::new(0);
    assert_eq!(f.call(&mut inst, &mut model, 0, ACCESS_FLAG_SET), None);
    assert_eq!(u.given_flag_model().call(&model, 0), 0);
}
