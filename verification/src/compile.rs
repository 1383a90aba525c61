//! The compilation of a set of modules: the table of limiting functions,
//! the literal pool, the generation units with their object files, and the
//! symbols that the finished library exports.

use vstd::prelude::*;
use vstd::string::*;
use lasso::{Rodeo, Spur};
use std::collections::hash_map::RandomState;
use crate::base_n::{encode, encode_spec};
use crate::compilation_unit::{entry_name, OsdiCompilationUnit, OsdiModule};
use crate::interner::{
    intern_all, interned, lemma_interned_concat, new_pool, strings_of, with_all_interned,
};
use crate::dae::{has_table, sparsified};
use crate::metadata::{is_descriptor_of, OsdiDescriptor};
use crate::module::{
    positions, CallBackKind, CompiledModule, ModuleInfo, ModuleInput, OpVarInfo, ParamInfo, SysFunParam,
};
use crate::paths::{
    file_stem, file_stem_text, main_object_path, object_extension, object_paths, with_extension_text,
};

verus! {

/// The major and minor version of the device interface.
pub const OSDI_VERSION_MAJOR: u32 = 0;

pub const OSDI_VERSION_MINOR: u32 = 4;

/// The index of a limiting function in the table of limiting functions.
#[derive(PartialEq, Eq, PartialOrd, Ord, Clone, Copy, Hash, Debug)]
pub struct OsdiLimId(pub u32);

/// An offset into the storage of an instance or a model.
#[derive(PartialEq, Eq, PartialOrd, Ord, Clone, Copy, Hash, Debug)]
pub struct Offset(pub u32);

/// The text under which an index is shown: `lim`, then the number in
/// decimal.
pub open spec fn lim_text(id: u32) -> Seq<char> {
    "lim"@ + encode_spec(id as nat, 10)
}

impl OsdiLimId {
    /// The text under which the index is shown.
    pub fn display(&self) -> (s: String)
        ensures
            s@ == lim_text(self.0),
    {
        String::from_str("lim").concat(encode(self.0 as u128, 10).as_str())
    }
}

impl Offset {
    /// The text under which the offset is shown.
    pub fn display(&self) -> (s: String)
        ensures
            s@ == lim_text(self.0),
    {
        String::from_str("lim").concat(encode(self.0 as u128, 10).as_str())
    }
}

/// A limiting function: the key of its name and the number of its
/// arguments, the two state arguments not counted.
#[derive(Clone, Copy, Debug, PartialEq, Eq, Structural)]
pub struct OsdiLimFunction {
    pub name: u32,
    pub num_args: u32,
}

/// The table after a function has been entered: unchanged where it holds
/// the function, else with the function behind the others.
pub open spec fn with_ensured(table: Seq<OsdiLimFunction>, f: OsdiLimFunction) -> Seq<OsdiLimFunction> {
    if table.contains(f) {
        table
    } else {
        table.push(f)
    }
}

/// The table after the limiting functions among the callbacks of one
/// module have been entered, in the order of the callbacks.
pub open spec fn with_callbacks(table: Seq<OsdiLimFunction>, callbacks: Seq<CallBackKind>) -> Seq<
    OsdiLimFunction,
>
    decreases callbacks.len(),
{
    if callbacks.len() == 0 {
        table
    } else {
        let rest = with_callbacks(table, callbacks.drop_last());
        match callbacks.last() {
            CallBackKind::BuiltinLimit { name, num_args } => with_ensured(
                rest,
                OsdiLimFunction { name, num_args: (num_args - 2) as u32 },
            ),
            CallBackKind::Other => rest,
        }
    }
}

/// The table of limiting functions, each entered once, in the order in
/// which the modules first call them.
pub struct LimTable {
    pub funs: Vec<OsdiLimFunction>,
}

impl LimTable {
    /// No function stands in the table twice.
    pub open spec fn wf(&self) -> bool {
        self.funs@.no_duplicates()
    }

    /// The place of a function in the table.
    pub open spec fn spec_index_of(&self, f: OsdiLimFunction) -> Option<int> {
        if self.funs@.contains(f) {
            Some(self.funs@.index_of(f))
        } else {
            None
        }
    }

    pub fn new() -> (table: LimTable)
        ensures
            table.wf(),
            table.funs@.len() == 0,
    {
        LimTable { funs: Vec::new() }
    }

    /// The place of a function in the table, if it stands there.
    pub fn index_of(&self, f: OsdiLimFunction) -> (r: Option<usize>)
        ensures
            r.is_some() == self.funs@.contains(f),
            r matches Some(k) ==> k < self.funs@.len() && self.funs@[k as int] == f,
    {
        let mut i: usize = 0;
        while i < self.funs.len()
            invariant
                i <= self.funs@.len(),
                forall|k: int| 0 <= k < i ==> self.funs@[k] != f,
            decreases self.funs@.len() - i,
        {
            let g = self.funs[i];
            if g.name == f.name && g.num_args == f.num_args {
                return Some(i);
            }
            i = i + 1;
        }
        None
    }

    /// Enters a function unless it stands in the table, and returns its
    /// place and whether it was entered.
    pub fn ensure(&mut self, f: OsdiLimFunction) -> (r: (usize, bool))
        requires
            old(self).wf(),
        ensures
            final(self).wf(),
            final(self).funs@ == with_ensured(old(self).funs@, f),
            r.0 < final(self).funs@.len(),
            final(self).funs@[r.0 as int] == f,
            r.1 == !old(self).funs@.contains(f),
    {
        match self.index_of(f) {
            Some(k) => (k, false),
            None => {
                self.funs.push(f);
                (self.funs.len() - 1, true)
            },
        }
    }

    /// Enters the limiting functions among the callbacks of one module.
    pub fn ensure_callbacks(&mut self, callbacks: &Vec<CallBackKind>)
        requires
            old(self).wf(),
            forall|k: int|
                0 <= k < callbacks@.len() ==> (#[trigger] callbacks@[k]
                    matches CallBackKind::BuiltinLimit { num_args, .. } ==> num_args >= 2),
        ensures
            final(self).wf(),
            final(self).funs@ == with_callbacks(old(self).funs@, callbacks@),
    {
        let mut i: usize = 0;
        proof {
            assert(callbacks@.take(0) =~= Seq::<CallBackKind>::empty());
        }
        while i < callbacks.len()
            invariant
                i <= callbacks@.len(),
                self.wf(),
                forall|k: int|
                    0 <= k < callbacks@.len() ==> (#[trigger] callbacks@[k]
                        matches CallBackKind::BuiltinLimit { num_args, .. } ==> num_args >= 2),
                self.funs@ == with_callbacks(old(self).funs@, callbacks@.take(i as int)),
            decreases callbacks@.len() - i,
        {
            proof {
                assert(callbacks@.take(i + 1).drop_last() =~= callbacks@.take(i as int));
                assert(callbacks@.take(i + 1).last() == callbacks@[i as int]);
            }
            if let CallBackKind::BuiltinLimit { name, num_args } = callbacks[i] {
                self.ensure(OsdiLimFunction { name, num_args: num_args - 2 });
            }
            i = i + 1;
        }
        proof {
            assert(callbacks@.take(i as int) =~= callbacks@);
        }
    }
}

/// The strings of one parameter: its aliases, then its name, unit,
/// description and group.
pub open spec fn param_names(p: ParamInfo) -> Seq<Seq<char>> {
    strings_of(p.alias@) + seq![p.name@, p.unit@, p.description@, p.group@]
}

/// The strings of the parameters, one parameter after another.
pub open spec fn params_names(params: Seq<ParamInfo>) -> Seq<Seq<char>>
    decreases params.len(),
{
    if params.len() == 0 {
        Seq::empty()
    } else {
        params_names(params.drop_last()) + param_names(params.last())
    }
}

/// The strings of the operating-point variables: for each its name, unit
/// and description.
pub open spec fn op_vars_names(vars: Seq<OpVarInfo>) -> Seq<Seq<char>>
    decreases vars.len(),
{
    if vars.len() == 0 {
        Seq::empty()
    } else {
        op_vars_names(vars.drop_last()) + seq![
            vars.last().name@,
            vars.last().unit@,
            vars.last().description@,
        ]
    }
}

/// The aliases of the system functions, one list after another.
pub open spec fn alias_names(lists: Seq<Vec<String>>) -> Seq<Seq<char>>
    decreases lists.len(),
{
    if lists.len() == 0 {
        Seq::empty()
    } else {
        alias_names(lists.drop_last()) + strings_of(lists.last()@)
    }
}

/// Whether a system-function parameter is live in one of the module's
/// functions.
pub open spec fn is_live(f: SysFunParam) -> bool {
    f.live_eval || f.live_init || f.live_model_setup
}

/// The strings of the live system-function parameters: a dollar sign and
/// the name.
pub open spec fn sys_fun_names(funs: Seq<SysFunParam>) -> Seq<Seq<char>>
    decreases funs.len(),
{
    if funs.len() == 0 {
        Seq::empty()
    } else {
        let rest = sys_fun_names(funs.drop_last());
        if is_live(funs.last()) {
            rest.push("$"@ + funs.last().name@)
        } else {
            rest
        }
    }
}

/// The strings that the descriptor of a module refers to, in the order
/// in which they are interned.
pub open spec fn module_names(info: ModuleInfo) -> Seq<Seq<char>> {
    seq![info.name@] + strings_of(info.node_strs@) + seq![
        "Multiplier (Verilog-A $mfactor)"@,
        "deg"@,
        "m"@,
        ""@,
    ] + params_names(info.params@) + op_vars_names(info.op_vars@) + alias_names(info.sys_fun_alias@)
        + sys_fun_names(info.sys_funs@)
}

fn push_name(out: &mut Vec<String>, s: &str)
    ensures
        strings_of(final(out)@) == strings_of(old(out)@).push(s@),
{
    out.push(String::from_str(s));
    assert(strings_of(out@) =~= strings_of(old(out)@).push(s@));
}

fn push_names(out: &mut Vec<String>, list: &Vec<String>)
    ensures
        strings_of(final(out)@) == strings_of(old(out)@) + strings_of(list@),
{
    let mut i: usize = 0;
    assert(strings_of(out@) =~= strings_of(old(out)@) + strings_of(list@).take(0));
    while i < list.len()
        invariant
            i <= list@.len(),
            strings_of(out@) == strings_of(old(out)@) + strings_of(list@).take(i as int),
        decreases list@.len() - i,
    {
        let ghost before = strings_of(out@);
        push_name(out, list[i].as_str());
        i = i + 1;
        assert(strings_of(out@) =~= strings_of(old(out)@) + strings_of(list@).take(i as int));
    }
    assert(strings_of(list@).take(i as int) =~= strings_of(list@));
}

impl OsdiModule {
    /// The strings that the descriptor of the module refers to, in the
    /// order in which they are interned.
    pub fn names(&self) -> (out: Vec<String>)
        ensures
            strings_of(out@) == module_names(self.info),
    {
        let info = &self.info;
        let mut out: Vec<String> = Vec::new();
        assert(strings_of(out@) =~= Seq::<Seq<char>>::empty());
        push_name(&mut out, info.name.as_str());
        push_names(&mut out, &info.node_strs);
        push_name(&mut out, "Multiplier (Verilog-A $mfactor)");
        push_name(&mut out, "deg");
        push_name(&mut out, "m");
        push_name(&mut out, "");
        let ghost head = seq![info.name@] + strings_of(info.node_strs@) + seq![
            "Multiplier (Verilog-A $mfactor)"@,
            "deg"@,
            "m"@,
            ""@,
        ];
        assert(strings_of(out@) =~= head);

        let mut i: usize = 0;
        assert(info.params@.take(0) =~= Seq::<ParamInfo>::empty());
        assert(strings_of(out@) =~= head + params_names(info.params@.take(0)));
        while i < info.params.len()
            invariant
                i <= info.params@.len(),
                strings_of(out@) == head + params_names(info.params@.take(i as int)),
            decreases info.params@.len() - i,
        {
            let param = &info.params[i];
            let ghost before = strings_of(out@);
            push_names(&mut out, &param.alias);
            push_name(&mut out, param.name.as_str());
            push_name(&mut out, param.unit.as_str());
            push_name(&mut out, param.description.as_str());
            push_name(&mut out, param.group.as_str());
            proof {
                assert(info.params@.take(i + 1).drop_last() =~= info.params@.take(i as int));
                assert(info.params@.take(i + 1).last() == *param);
                assert(strings_of(out@) =~= before + param_names(*param));
                assert(strings_of(out@) =~= head + params_names(info.params@.take(i + 1)));
            }
            i = i + 1;
        }
        assert(info.params@.take(i as int) =~= info.params@);
        let ghost head = head + params_names(info.params@);

        let mut i: usize = 0;
        assert(info.op_vars@.take(0) =~= Seq::<OpVarInfo>::empty());
        assert(strings_of(out@) =~= head + op_vars_names(info.op_vars@.take(0)));
        while i < info.op_vars.len()
            invariant
                i <= info.op_vars@.len(),
                strings_of(out@) == head + op_vars_names(info.op_vars@.take(i as int)),
            decreases info.op_vars@.len() - i,
        {
            let var = &info.op_vars[i];
            let ghost before = strings_of(out@);
            push_name(&mut out, var.name.as_str());
            push_name(&mut out, var.unit.as_str());
            push_name(&mut out, var.description.as_str());
            proof {
                assert(info.op_vars@.take(i + 1).drop_last() =~= info.op_vars@.take(i as int));
                assert(info.op_vars@.take(i + 1).last() == *var);
                assert(strings_of(out@) =~= before + seq![var.name@, var.unit@, var.description@]);
                assert(strings_of(out@) =~= head + op_vars_names(info.op_vars@.take(i + 1)));
            }
            i = i + 1;
        }
        assert(info.op_vars@.take(i as int) =~= info.op_vars@);
        let ghost head = head + op_vars_names(info.op_vars@);

        let mut i: usize = 0;
        assert(info.sys_fun_alias@.take(0) =~= Seq::<Vec<String>>::empty());
        assert(strings_of(out@) =~= head + alias_names(info.sys_fun_alias@.take(0)));
        while i < info.sys_fun_alias.len()
            invariant
                i <= info.sys_fun_alias@.len(),
                strings_of(out@) == head + alias_names(info.sys_fun_alias@.take(i as int)),
            decreases info.sys_fun_alias@.len() - i,
        {
            let list = &info.sys_fun_alias[i];
            push_names(&mut out, list);
            proof {
                assert(info.sys_fun_alias@.take(i + 1).drop_last() =~= info.sys_fun_alias@.take(i as int));
                assert(info.sys_fun_alias@.take(i + 1).last() == *list);
                assert(strings_of(out@) =~= head + alias_names(info.sys_fun_alias@.take(i + 1)));
            }
            i = i + 1;
        }
        assert(info.sys_fun_alias@.take(i as int) =~= info.sys_fun_alias@);
        let ghost head = head + alias_names(info.sys_fun_alias@);

        let mut i: usize = 0;
        assert(info.sys_funs@.take(0) =~= Seq::<SysFunParam>::empty());
        assert(strings_of(out@) =~= head + sys_fun_names(info.sys_funs@.take(0)));
        while i < info.sys_funs.len()
            invariant
                i <= info.sys_funs@.len(),
                strings_of(out@) == head + sys_fun_names(info.sys_funs@.take(i as int)),
            decreases info.sys_funs@.len() - i,
        {
            let param = &info.sys_funs[i];
            if param.live_eval || param.live_init || param.live_model_setup {
                let name = String::from_str("$").concat(param.name.as_str());
                push_name(&mut out, name.as_str());
            }
            proof {
                assert(info.sys_funs@.take(i + 1).drop_last() =~= info.sys_funs@.take(i as int));
                assert(info.sys_funs@.take(i + 1).last() == *param);
                assert(strings_of(out@) =~= head + sys_fun_names(info.sys_funs@.take(i + 1)));
            }
            i = i + 1;
        }
        assert(info.sys_funs@.take(i as int) =~= info.sys_funs@);
        out
    }

    /// Interns every string that the descriptor of the module refers to,
    /// and says whether all of them found room in the pool.
    pub fn intern_names(&self, literals: &mut Rodeo<Spur, RandomState>) -> (ok: bool)
        ensures
            ok ==> interned(*final(literals)) == with_all_interned(
                interned(*old(literals)),
                module_names(self.info),
            ),
            !ok ==> exists|n: int|
                0 <= n < module_names(self.info).len() && interned(*final(literals))
                    == #[trigger] with_all_interned(
                    interned(*old(literals)),
                    module_names(self.info).take(n),
                ),
    {
        let names = self.names();
        intern_all(literals, &names)
    }
}

/// What one generation unit generates.
#[derive(Clone, Copy, Debug, PartialEq, Eq, Structural)]
pub enum UnitKind {
    Access,
    SetupModel,
    SetupInstance,
    Eval,
}

/// One generation unit: the module it works on, what it generates, its
/// name, and which of the object files it writes.
pub struct GenerationTask {
    pub module: usize,
    pub kind: UnitKind,
    pub name: String,
    pub path: usize,
}

/// A symbol that the finished library exports, with its value where that
/// is a number.
#[derive(Clone, Copy, Debug, PartialEq, Eq, Structural)]
pub enum Export {
    /// `OSDI_DESCRIPTORS`: the descriptors of the modules, in input order.
    Descriptors { count: u32 },
    /// `OSDI_NUM_DESCRIPTORS`
    NumDescriptors(u32),
    /// `OSDI_VERSION_MAJOR`
    VersionMajor(u32),
    /// `OSDI_VERSION_MINOR`
    VersionMinor(u32),
    /// `OSDI_DESCRIPTOR_SIZE`: the size of one descriptor on the target.
    DescriptorSize,
    /// `OSDI_LIM_TABLE`: the limiting functions, in table order.
    LimTable { count: u32 },
    /// `OSDI_LIM_TABLE_LEN`
    LimTableLen(u32),
}

impl Export {
    pub open spec fn spec_symbol(self) -> Seq<char> {
        match self {
            Export::Descriptors { .. } => "OSDI_DESCRIPTORS"@,
            Export::NumDescriptors(_) => "OSDI_NUM_DESCRIPTORS"@,
            Export::VersionMajor(_) => "OSDI_VERSION_MAJOR"@,
            Export::VersionMinor(_) => "OSDI_VERSION_MINOR"@,
            Export::DescriptorSize => "OSDI_DESCRIPTOR_SIZE"@,
            Export::LimTable { .. } => "OSDI_LIM_TABLE"@,
            Export::LimTableLen(_) => "OSDI_LIM_TABLE_LEN"@,
        }
    }

    /// The name of the exported symbol.
    pub fn symbol(self) -> (r: &'static str)
        ensures
            r@ == self.spec_symbol(),
    {
        match self {
            Export::Descriptors { .. } => "OSDI_DESCRIPTORS",
            Export::NumDescriptors(_) => "OSDI_NUM_DESCRIPTORS",
            Export::VersionMajor(_) => "OSDI_VERSION_MAJOR",
            Export::VersionMinor(_) => "OSDI_VERSION_MINOR",
            Export::DescriptorSize => "OSDI_DESCRIPTOR_SIZE",
            Export::LimTable { .. } => "OSDI_LIM_TABLE",
            Export::LimTableLen(_) => "OSDI_LIM_TABLE_LEN",
        }
    }
}

/// The exports of a library of `modules` modules with `lims` limiting
/// functions: the descriptors and their number, the version, the size of
/// a descriptor, and the table of limiting functions with its length where
/// there is any limiting function.
pub open spec fn exports_spec(modules: u32, lims: u32) -> Seq<Export> {
    let head = seq![
        Export::Descriptors { count: modules },
        Export::NumDescriptors(modules),
        Export::VersionMajor(0),
        Export::VersionMinor(4),
        Export::DescriptorSize,
    ];
    if lims != 0 {
        head + seq![Export::LimTable { count: lims }, Export::LimTableLen(lims)]
    } else {
        head
    }
}

/// The exports of a library of `modules` modules with `lims` limiting
/// functions.
pub fn exports(modules: u32, lims: u32) -> (r: Vec<Export>)
    ensures
        r@ == exports_spec(modules, lims),
{
    let mut r: Vec<Export> = Vec::new();
    r.push(Export::Descriptors { count: modules });
    r.push(Export::NumDescriptors(modules));
    r.push(Export::VersionMajor(OSDI_VERSION_MAJOR));
    r.push(Export::VersionMinor(OSDI_VERSION_MINOR));
    r.push(Export::DescriptorSize);
    if lims != 0 {
        r.push(Export::LimTable { count: lims });
        r.push(Export::LimTableLen(lims));
    }
    assert(r@ =~= exports_spec(modules, lims));
    r
}

/// What the `k`-th unit of a module generates.
pub open spec fn kind_of(k: int) -> UnitKind {
    if k == 0 {
        UnitKind::Access
    } else if k == 1 {
        UnitKind::SetupModel
    } else if k == 2 {
        UnitKind::SetupInstance
    } else {
        UnitKind::Eval
    }
}

/// The prefix of the name of a unit.
pub open spec fn kind_prefix(kind: UnitKind) -> Seq<char> {
    match kind {
        UnitKind::Access => "access_"@,
        UnitKind::SetupModel => "setup_model_"@,
        UnitKind::SetupInstance => "setup_instance_"@,
        UnitKind::Eval => "eval_"@,
    }
}

/// Whether the task is the `k`-th unit of module `i` with symbol `sym`.
pub open spec fn is_task(task: GenerationTask, i: int, k: int, sym: Seq<char>) -> bool {
    &&& task.module == i
    &&& task.kind == kind_of(k)
    &&& task.name@ == kind_prefix(kind_of(k)) + sym
    &&& task.path == 4 * i + k
}

/// The four generation units of each module, in input order.
pub fn generation_tasks(units: &Vec<OsdiCompilationUnit>) -> (tasks: Vec<GenerationTask>)
    requires
        4 * units@.len() <= usize::MAX,
    ensures
        tasks@.len() == 4 * units@.len(),
        forall|i: int, k: int|
            0 <= i < units@.len() && 0 <= k < 4 ==> is_task(
                #[trigger] tasks@[4 * i + k],
                i,
                k,
                units@[i].module.sym@,
            ),
{
    let mut tasks: Vec<GenerationTask> = Vec::new();
    let n = units.len();
    let mut i: usize = 0;
    while i < n
        invariant
            i <= n,
            n == units@.len(),
            4 * n <= usize::MAX,
            tasks@.len() == 4 * i,
            forall|j: int, k: int|
                0 <= j < i && 0 <= k < 4 ==> is_task(
                    #[trigger] tasks@[4 * j + k],
                    j,
                    k,
                    units@[j].module.sym@,
                ),
        decreases n - i,
    {
        let sym = &units[i].module.sym;
        let ghost before = tasks@;
        tasks.push(
            GenerationTask {
                module: i,
                kind: UnitKind::Access,
                name: entry_name("access_", sym),
                path: 4 * i,
            },
        );
        tasks.push(
            GenerationTask {
                module: i,
                kind: UnitKind::SetupModel,
                name: entry_name("setup_model_", sym),
                path: 4 * i + 1,
            },
        );
        tasks.push(
            GenerationTask {
                module: i,
                kind: UnitKind::SetupInstance,
                name: entry_name("setup_instance_", sym),
                path: 4 * i + 2,
            },
        );
        tasks.push(
            GenerationTask {
                module: i,
                kind: UnitKind::Eval,
                name: entry_name("eval_", sym),
                path: 4 * i + 3,
            },
        );
        proof {
            assert forall|j: int, k: int| 0 <= j < i + 1 && 0 <= k < 4 implies is_task(
                #[trigger] tasks@[4 * j + k],
                j,
                k,
                units@[j].module.sym@,
            ) by {
                if j < i {
                    assert(tasks@[4 * j + k] == before[4 * j + k]);
                }
            }
        }
        i = i + 1;
    }
    tasks
}

/// The table of limiting functions of a list of modules.
pub open spec fn lim_functions(modules: Seq<ModuleInput>) -> Seq<OsdiLimFunction>
    decreases modules.len(),
{
    if modules.len() == 0 {
        Seq::empty()
    } else {
        with_callbacks(lim_functions(modules.drop_last()), modules.last().callbacks@)
    }
}

/// The strings of a list of modules, one module after another.
pub open spec fn all_names(modules: Seq<ModuleInput>) -> Seq<Seq<char>>
    decreases modules.len(),
{
    if modules.len() == 0 {
        Seq::empty()
    } else {
        all_names(modules.drop_last()) + module_names(modules.last().info)
    }
}

/// Whether the unit is that of the module handed in: its equation system
/// sparsified, its parameters and variables numbered, the rest as it came.
pub open spec fn is_unit_of(unit: OsdiCompilationUnit, input: ModuleInput) -> bool {
    &&& unit.wf()
    &&& unit.module.sym == input.info.sym
    &&& unit.module.info == input.info
    &&& unit.module.eval == input.eval
    &&& unit.module.callbacks == input.callbacks
    &&& unit.module.node_collapse == input.node_collapse
    &&& unit.module.dae_system.jacobian@ == sparsified(input.dae_system.jacobian@, &input.eval)
    &&& unit.module.dae_system.unknowns@ == input.dae_system.unknowns@
    &&& unit.module.dae_system.residual@ == input.dae_system.residual@
    &&& unit.module.dae_system.noise_sources@ == input.dae_system.noise_sources@
    &&& unit.inst_data.params@ == positions(input.info.params@, true)
    &&& unit.model_data.params@ == positions(input.info.params@, false)
    &&& unit.inst_data.opvars@ == Seq::new(input.info.op_vars@.len(), |i: int| i as u32)
}

/// Why a compilation cannot be planned.
#[derive(Clone, Copy, Debug, PartialEq, Eq, Structural)]
pub enum CompileError {
    /// There are more modules than can be numbered.
    TooManyModules,
    /// A module that was handed in is not well formed.
    InvalidModule,
    /// The destination has no file name.
    NotAFile,
    /// There are more limiting functions than a 32-bit length can count.
    LimTableTooLarge,
    /// A module has a noise source given by a table, which is not
    /// implemented.
    NoiseTableUnimplemented,
    /// The literal pool cannot hold another string.
    LiteralPoolExhausted,
}

/// A planned compilation: the units of the modules and their
/// descriptors, the pool of their strings, the table of limiting functions,
/// the generation units with the object files they write, the name of the
/// main unit, its exports, and the paths of all object files, that of the
/// main unit last.
pub struct Compilation {
    pub units: Vec<OsdiCompilationUnit>,
    pub descriptors: Vec<OsdiDescriptor>,
    pub literals: Rodeo<Spur, RandomState>,
    pub lim_table: LimTable,
    pub tasks: Vec<GenerationTask>,
    pub name: String,
    pub exports: Vec<Export>,
    pub paths: Vec<String>,
}

impl Compilation {
    /// Whether this is the compilation of the modules to the destination.
    pub open spec fn is_plan_of(&self, modules: Seq<ModuleInput>, dst: Seq<char>) -> bool {
        let n = modules.len() as int;
        &&& self.units@.len() == n
        &&& forall|i: int| 0 <= i < n ==> is_unit_of(#[trigger] self.units@[i], modules[i])
        &&& forall|i: int|
            0 <= i < n ==> !has_table((#[trigger] self.units@[i]).module.dae_system.noise_sources@)
        &&& self.descriptors@.len() == n
        &&& forall|i: int|
            0 <= i < n ==> is_descriptor_of(#[trigger] &self.descriptors@[i], &self.units@[i])
        &&& self.lim_table.wf()
        &&& self.lim_table.funs@ == lim_functions(modules)
        &&& interned(self.literals) == with_all_interned(Seq::empty(), all_names(modules))
        &&& Some(self.name@) == file_stem_text(dst)
        &&& self.tasks@.len() == 4 * n
        &&& forall|i: int, k: int|
            0 <= i < n && 0 <= k < 4 ==> is_task(
                #[trigger] self.tasks@[4 * i + k],
                i,
                k,
                modules[i].info.sym@,
            )
        &&& self.paths@.len() == 4 * n + 1
        &&& forall|i: int|
            0 <= i < 4 * n ==> (#[trigger] self.paths@[i])@ == with_extension_text(
                dst,
                object_extension(i as nat),
            )
        &&& self.paths@[4 * n]@ == with_extension_text(dst, "o"@)
        &&& self.exports@ == exports_spec(n as u32, self.lim_table.funs@.len() as u32)
    }
}

/// Plans the compilation of the modules into one library at the
/// destination.
///
/// Without a module nothing is interned, and a plan is owed whenever the
/// destination has a file stem. With modules the literal pool decides
/// whether their strings find room.
///
/// Each module is compiled and its limiting functions are entered in the
/// table. Each module gets four generation units, and each unit an object
/// file of its own, numbered in the order of the modules; the main unit,
/// named after the destination's file stem, takes the destination with the
/// extension `o` and comes last.
pub fn compile(modules: Vec<ModuleInput>, dst: &str) -> (r: Result<Compilation, CompileError>)
    ensures
        !can_number(modules@.len()) <==> r == Err::<Compilation, CompileError>(
            CompileError::TooManyModules,
        ),
        can_number(modules@.len()) && !all_valid(modules@) <==> r == Err::<Compilation, CompileError>(
            CompileError::InvalidModule,
        ),
        can_number(modules@.len()) && all_valid(modules@) && file_stem_text(dst@).is_none() <==> r
            == Err::<Compilation, CompileError>(CompileError::NotAFile),
        can_number(modules@.len()) && all_valid(modules@) && file_stem_text(dst@).is_some()
            && lim_functions(modules@).len() > u32::MAX <==> r == Err::<Compilation, CompileError>(
            CompileError::LimTableTooLarge,
        ),
        can_number(modules@.len()) && all_valid(modules@) && file_stem_text(dst@).is_some()
            && lim_functions(modules@).len() <= u32::MAX && any_noise_table(modules@) <==> r == Err::<
            Compilation,
            CompileError,
        >(CompileError::NoiseTableUnimplemented),
        r == Err::<Compilation, CompileError>(CompileError::LiteralPoolExhausted) ==> modules@.len() > 0,
        modules@.len() == 0 && file_stem_text(dst@).is_some() ==> r.is_ok(),
        r matches Ok(plan) ==> plan.is_plan_of(modules@, dst@),
{
    let ghost input = modules@;
    if modules.len() > u32::MAX as usize || modules.len() > (usize::MAX - 1) / 4 {
        return Err(CompileError::TooManyModules);
    }
    let mut checked: usize = 0;
    while checked < modules.len()
        invariant
            checked <= modules@.len(),
            can_number(modules@.len()),
            forall|k: int| 0 <= k < checked ==> (#[trigger] modules@[k]).wf(),
        decreases modules@.len() - checked,
    {
        if !modules[checked].validate() {
            return Err(CompileError::InvalidModule);
        }
        checked = checked + 1;
    }
    let mut pending = modules;
    let mut literals = new_pool();
    let mut lim_table = LimTable::new();
    let mut compiled_modules: Vec<CompiledModule> = Vec::new();
    let n = pending.len();
    let mut i: usize = 0;
    proof {
        assert(input.take(0) =~= Seq::<ModuleInput>::empty());
        assert(input.skip(0) =~= input);
    }
    while i < n
        invariant
            i <= n,
            n == input.len(),
            pending@ == input.skip(i as int),
            forall|k: int| 0 <= k < input.len() ==> (#[trigger] input[k]).wf(),
            lim_table.wf(),
            lim_table.funs@ == lim_functions(input.take(i as int)),
            compiled_modules@.len() == i,
            forall|k: int| 0 <= k < i ==> is_compiled_of(#[trigger] compiled_modules@[k], input[k]),
        decreases n - i,
    {
        let module = pending.remove(0);
        proof {
            assert(module == input[i as int]);
            assert(pending@ =~= input.skip(i + 1));
            assert(input.take(i + 1).drop_last() =~= input.take(i as int));
            assert(input.take(i + 1).last() == module);
        }
        let mir = CompiledModule::new(module);
        lim_table.ensure_callbacks(&mir.callbacks);
        compiled_modules.push(mir);
        i = i + 1;
    }
    proof {
        assert(input.take(n as int) =~= input);
    }

    let name = match file_stem(dst) {
        Some(name) => name,
        None => {
            return Err(CompileError::NotAFile);
        },
    };
    if lim_table.funs.len() > u32::MAX as usize {
        return Err(CompileError::LimTableTooLarge);
    }
    let mut k: usize = 0;
    while k < n
        invariant
            k <= n,
            n == input.len(),
            compiled_modules@.len() == n,
            forall|j: int| 0 <= j < n ==> is_compiled_of(#[trigger] compiled_modules@[j], input[j]),
            forall|j: int| 0 <= j < k ==> !has_table((#[trigger] input[j]).dae_system.noise_sources@),
            input == modules@,
            can_number(input.len()),
            all_valid(input),
            file_stem_text(dst@).is_some(),
            lim_functions(input).len() <= u32::MAX,
        decreases n - k,
    {
        assert(is_compiled_of(compiled_modules@[k as int], input[k as int]));
        if compiled_modules[k].dae_system.has_noise_table() {
            assert(has_table(input[k as int].dae_system.noise_sources@));
            return Err(CompileError::NoiseTableUnimplemented);
        }
        k = k + 1;
    }
    let mut paths = object_paths(dst, n * 4);

    let mut units: Vec<OsdiCompilationUnit> = Vec::new();
    let mut descriptors: Vec<OsdiDescriptor> = Vec::new();
    let mut i: usize = 0;
    proof {
        assert(input.take(0) =~= Seq::<ModuleInput>::empty());
        assert(compiled_modules@.skip(0) =~= compiled_modules@);
    }
    while i < n
        invariant
            i <= n,
            n == input.len(),
            compiled_modules@.len() == n - i,
            forall|k: int|
                0 <= k < n - i ==> is_compiled_of(#[trigger] compiled_modules@[k], input[i + k]),
            units@.len() == i,
            forall|k: int| 0 <= k < i ==> is_unit_of(#[trigger] units@[k], input[k]),
            descriptors@.len() == i,
            forall|k: int| 0 <= k < i ==> is_descriptor_of(#[trigger] &descriptors@[k], &units@[k]),
            interned(literals) == with_all_interned(Seq::empty(), all_names(input.take(i as int))),
            input == modules@,
            can_number(input.len()),
            all_valid(input),
            file_stem_text(dst@).is_some(),
            lim_functions(input).len() <= u32::MAX,
            !any_noise_table(input),
        decreases n - i,
    {
        let ghost before = compiled_modules@;
        let module = compiled_modules.remove(0);
        proof {
            assert(module == before[0]);
            assert(is_compiled_of(before[0], input[i + 0]));
            assert forall|k: int| 0 <= k < n - (i + 1) implies is_compiled_of(
                #[trigger] compiled_modules@[k],
                input[i + 1 + k],
            ) by {
                assert(compiled_modules@[k] == before[k + 1]);
                assert(is_compiled_of(before[k + 1], input[i + (k + 1)]));
            }
        }
        let sym = module.info.sym.clone();
        let unit = OsdiCompilationUnit::new(module, sym);
        let ok = unit.module.intern_names(&mut literals);
        if !ok {
            return Err(CompileError::LiteralPoolExhausted);
        }
        proof {
            assert(input.take(i + 1).drop_last() =~= input.take(i as int));
            assert(input.take(i + 1).last() == input[i as int]);
            lemma_interned_concat(
                Seq::empty(),
                all_names(input.take(i as int)),
                module_names(input[i as int].info),
            );
        }
        let ghost units_before = units@;
        let ghost descriptors_before = descriptors@;
        descriptors.push(unit.descriptor());
        units.push(unit);
        proof {
            assert forall|k: int| 0 <= k < i + 1 implies is_descriptor_of(
                #[trigger] &descriptors@[k],
                &units@[k],
            ) by {
                if k < i {
                    assert(descriptors@[k] == descriptors_before[k]);
                    assert(units@[k] == units_before[k]);
                    assert(is_descriptor_of(&descriptors_before[k], &units_before[k]));
                }
            }
        }
        i = i + 1;
    }
    proof {
        assert(input.take(n as int) =~= input);
    }

    let main_file = main_object_path(dst);
    let tasks = generation_tasks(&units);
    let exports = exports(n as u32, lim_table.funs.len() as u32);
    paths.push(main_file);
    let plan = Compilation { units, descriptors, literals, lim_table, tasks, name, exports, paths };
    proof {
        assert forall|i: int, k: int| 0 <= i < n && 0 <= k < 4 implies is_task(
            #[trigger] plan.tasks@[4 * i + k],
            i,
            k,
            input[i].info.sym@,
        ) by {
            assert(is_unit_of(plan.units@[i], input[i]));
        }
    }
    Ok(plan)
}

/// Whether so many modules, four units each and the main unit, can be
/// numbered.
pub open spec fn can_number(n: nat) -> bool {
    n <= u32::MAX && 4 * n + 1 <= usize::MAX
}

/// Whether one of the modules has a noise source given by a table.
pub open spec fn any_noise_table(modules: Seq<ModuleInput>) -> bool {
    exists|i: int| 0 <= i < modules.len() && has_table((#[trigger] modules[i]).dae_system.noise_sources@)
}

/// Whether every module is well formed.
pub open spec fn all_valid(modules: Seq<ModuleInput>) -> bool {
    forall|i: int| 0 <= i < modules.len() ==> (#[trigger] modules[i]).wf()
}

/// Whether the compiled module is that of the module handed in.
pub open spec fn is_compiled_of(compiled: CompiledModule, input: ModuleInput) -> bool {
    &&& compiled.wf()
    &&& compiled.info == input.info
    &&& compiled.eval == input.eval
    &&& compiled.callbacks == input.callbacks
    &&& compiled.node_collapse == input.node_collapse
    &&& compiled.dae_system.jacobian@ == sparsified(input.dae_system.jacobian@, &input.eval)
    &&& compiled.dae_system.unknowns@ == input.dae_system.unknowns@
    &&& compiled.dae_system.residual@ == input.dae_system.residual@
    &&& compiled.dae_system.noise_sources@ == input.dae_system.noise_sources@
}

} // verus!
