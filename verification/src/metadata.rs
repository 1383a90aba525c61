//! The descriptor of a module: what a simulator is told of its unknowns,
//! its Jacobian and its parameters.

use vstd::prelude::*;
use vstd::string::*;
use crate::compilation_unit::OsdiCompilationUnit;
use crate::compile::{is_unit_of, Compilation};
use crate::dae::{CollapsePair, MatrixEntry, SimUnknown};
use crate::module::ModuleInput;

verus! {

/// Who stores a parameter.
#[derive(Clone, Copy, Debug, PartialEq, Eq, Structural)]
pub enum ParamScope {
    Instance,
    Model,
    OpVar,
}

/// A parameter or operating-point variable in the descriptor: its
/// identity, who stores it, and its position in the module's declaration.
#[derive(Clone, Copy, Debug, PartialEq, Eq, Structural)]
pub struct ParamDescriptor {
    pub id: u32,
    pub scope: ParamScope,
    pub position: u32,
}

/// A Jacobian entry in the descriptor: its row and column, and which
/// channels it has.
#[derive(Clone, Copy, Debug, PartialEq, Eq, Structural)]
pub struct JacobianEntryDescriptor {
    pub row: SimUnknown,
    pub col: SimUnknown,
    pub has_resist: bool,
    pub has_react: bool,
}

/// The descriptor of one module.
pub struct OsdiDescriptor {
    pub name: String,
    pub num_nodes: u32,
    pub jacobian_entries: Vec<JacobianEntryDescriptor>,
    pub num_resistive_jacobian_entries: u32,
    pub num_reactive_jacobian_entries: u32,
    pub collapsible: Vec<CollapsePair>,
    pub num_noise_src: u32,
    pub num_params: u32,
    pub num_instance_params: u32,
    pub num_opvars: u32,
    pub param_opvar: Vec<ParamDescriptor>,
}

/// How an entry of the Jacobian is described.
pub open spec fn describe_entry(e: MatrixEntry) -> JacobianEntryDescriptor {
    JacobianEntryDescriptor {
        row: e.row,
        col: e.col,
        has_resist: e.spec_present(false),
        has_react: e.spec_present(true),
    }
}

/// How the parameter or variable with the given identity is described.
pub open spec fn describe_param(unit: &OsdiCompilationUnit, id: int) -> ParamDescriptor {
    if id < unit.n_inst() {
        ParamDescriptor {
            id: id as u32,
            scope: ParamScope::Instance,
            position: unit.inst_data.params@[id],
        }
    } else if id < unit.n_inst() + unit.n_model() {
        ParamDescriptor {
            id: id as u32,
            scope: ParamScope::Model,
            position: unit.model_data.params@[id - unit.n_inst()],
        }
    } else {
        ParamDescriptor {
            id: id as u32,
            scope: ParamScope::OpVar,
            position: unit.inst_data.opvars@[id - unit.n_inst() - unit.n_model()],
        }
    }
}

/// Whether the descriptor is that of the unit: it names the module,
/// counts its unknowns, noise sources, parameters and variables, describes
/// every Jacobian entry in the order of the entries, lists the collapsible
/// pairs, and describes every parameter and variable at the place of its
/// identity.
pub open spec fn is_descriptor_of(d: &OsdiDescriptor, unit: &OsdiCompilationUnit) -> bool {
    let dae = unit.module.dae_system;
    &&& d.name@ == unit.module.info.name@
    &&& d.num_nodes == dae.unknowns@.len()
    &&& d.jacobian_entries@ == Seq::new(dae.jacobian@.len(), |k: int| describe_entry(dae.jacobian@[k]))
    &&& d.num_resistive_jacobian_entries == dae.num_resistive
    &&& d.num_reactive_jacobian_entries == dae.num_reactive
    &&& d.collapsible@ == unit.module.node_collapse.pairs@
    &&& d.num_noise_src == dae.noise_sources@.len()
    &&& d.num_params == unit.n_inst() + unit.n_model()
    &&& d.num_instance_params == unit.n_inst()
    &&& d.num_opvars == unit.n_opvar()
    &&& d.param_opvar@ == Seq::new(
        (unit.n_inst() + unit.n_model() + unit.n_opvar()) as nat,
        |id: int| describe_param(unit, id),
    )
}

fn copy_pairs(pairs: &Vec<CollapsePair>) -> (r: Vec<CollapsePair>)
    ensures
        r@ == pairs@,
{
    let mut r: Vec<CollapsePair> = Vec::new();
    let mut i: usize = 0;
    while i < pairs.len()
        invariant
            i <= pairs@.len(),
            r@ == pairs@.take(i as int),
        decreases pairs@.len() - i,
    {
        r.push(pairs[i]);
        i = i + 1;
        assert(r@ =~= pairs@.take(i as int));
    }
    assert(pairs@.take(i as int) =~= pairs@);
    r
}

impl OsdiCompilationUnit {
    /// The descriptor of the module.
    pub fn descriptor(&self) -> (d: OsdiDescriptor)
        requires
            self.wf(),
        ensures
            is_descriptor_of(&d, self),
    {
        let dae = &self.module.dae_system;
        let mut jacobian_entries: Vec<JacobianEntryDescriptor> = Vec::new();
        let mut k: usize = 0;
        while k < dae.jacobian.len()
            invariant
                k <= dae.jacobian@.len(),
                jacobian_entries@ == Seq::new(k as nat, |j: int| describe_entry(dae.jacobian@[j])),
            decreases dae.jacobian@.len() - k,
        {
            let e = dae.jacobian[k];
            jacobian_entries.push(
                JacobianEntryDescriptor {
                    row: e.row,
                    col: e.col,
                    has_resist: e.present(false),
                    has_react: e.present(true),
                },
            );
            k = k + 1;
            assert(jacobian_entries@ =~= Seq::new(k as nat, |j: int| describe_entry(dae.jacobian@[j])));
        }
        let n_inst = self.inst_data.params.len();
        let n_model = self.model_data.params.len();
        let n_opvar = self.inst_data.opvars.len();
        let total = n_inst + n_model + n_opvar;
        let mut param_opvar: Vec<ParamDescriptor> = Vec::new();
        let mut id: usize = 0;
        while id < total
            invariant
                id <= total,
                total == n_inst + n_model + n_opvar,
                total <= u32::MAX,
                n_inst == self.n_inst(),
                n_model == self.n_model(),
                n_opvar == self.n_opvar(),
                param_opvar@ == Seq::new(id as nat, |j: int| describe_param(self, j)),
            decreases total - id,
        {
            let d = if id < n_inst {
                ParamDescriptor {
                    id: id as u32,
                    scope: ParamScope::Instance,
                    position: self.inst_data.params[id],
                }
            } else if id < n_inst + n_model {
                ParamDescriptor {
                    id: id as u32,
                    scope: ParamScope::Model,
                    position: self.model_data.params[id - n_inst],
                }
            } else {
                ParamDescriptor {
                    id: id as u32,
                    scope: ParamScope::OpVar,
                    position: self.inst_data.opvars[id - n_inst - n_model],
                }
            };
            param_opvar.push(d);
            id = id + 1;
            assert(param_opvar@ =~= Seq::new(id as nat, |j: int| describe_param(self, j)));
        }
        OsdiDescriptor {
            name: self.module.info.name.clone(),
            num_nodes: dae.unknowns.len() as u32,
            jacobian_entries,
            num_resistive_jacobian_entries: dae.num_resistive,
            num_reactive_jacobian_entries: dae.num_reactive,
            collapsible: copy_pairs(&self.module.node_collapse.pairs),
            num_noise_src: dae.noise_sources.len() as u32,
            num_params: (n_inst + n_model) as u32,
            num_instance_params: n_inst as u32,
            num_opvars: n_opvar as u32,
            param_opvar,
        }
    }
}

/// Determinism of the descriptor. The descriptors of two units of the
/// same module are the same, field for field: the same entries in the same
/// order, and the same identity for every parameter.
pub proof fn lemma_descriptor_determined(
    d1: &OsdiDescriptor,
    d2: &OsdiDescriptor,
    u1: &OsdiCompilationUnit,
    u2: &OsdiCompilationUnit,
    input: ModuleInput,
)
    requires
        is_unit_of(*u1, input),
        is_unit_of(*u2, input),
        is_descriptor_of(d1, u1),
        is_descriptor_of(d2, u2),
    ensures
        d1.name@ == d2.name@,
        d1.num_nodes == d2.num_nodes,
        d1.jacobian_entries@ == d2.jacobian_entries@,
        d1.num_resistive_jacobian_entries == d2.num_resistive_jacobian_entries,
        d1.num_reactive_jacobian_entries == d2.num_reactive_jacobian_entries,
        d1.collapsible@ == d2.collapsible@,
        d1.num_noise_src == d2.num_noise_src,
        d1.num_params == d2.num_params,
        d1.num_instance_params == d2.num_instance_params,
        d1.num_opvars == d2.num_opvars,
        d1.param_opvar@ == d2.param_opvar@,
{
    assert(d1.jacobian_entries@ =~= d2.jacobian_entries@);
    assert(d1.param_opvar@ =~= d2.param_opvar@);
}

/// Determinism of the compilation. Two compilations of the same modules
/// to the same destination agree in everything that reaches the finished
/// library: the generation units with their names and object files, the
/// exports, the table of limiting functions, the literal pool, and the
/// identities of the parameters of every module.
pub proof fn lemma_compilation_determined(
    a: &Compilation,
    b: &Compilation,
    modules: Seq<ModuleInput>,
    dst: Seq<char>,
)
    requires
        a.is_plan_of(modules, dst),
        b.is_plan_of(modules, dst),
    ensures
        a.name@ == b.name@,
        a.exports@ == b.exports@,
        a.lim_table.funs@ == b.lim_table.funs@,
        crate::interner::interned(a.literals) == crate::interner::interned(b.literals),
        a.paths@.len() == b.paths@.len(),
        forall|i: int| 0 <= i < a.paths@.len() ==> (#[trigger] a.paths@[i])@ == b.paths@[i]@,
        a.tasks@.len() == b.tasks@.len(),
        forall|i: int|
            0 <= i < a.tasks@.len() ==> (#[trigger] a.tasks@[i]).name@ == b.tasks@[i].name@
                && a.tasks@[i].kind == b.tasks@[i].kind && a.tasks@[i].module == b.tasks@[i].module
                && a.tasks@[i].path == b.tasks@[i].path,
        a.units@.len() == b.units@.len(),
        forall|i: int|
            0 <= i < a.units@.len() ==> (#[trigger] a.units@[i]).inst_data.params@
                == b.units@[i].inst_data.params@ && a.units@[i].model_data.params@
                == b.units@[i].model_data.params@ && a.units@[i].inst_data.opvars@
                == b.units@[i].inst_data.opvars@ && a.units@[i].module.dae_system.jacobian@
                == b.units@[i].module.dae_system.jacobian@,
{
    let n = modules.len() as int;
    assert forall|i: int| 0 <= i < a.paths@.len() implies (#[trigger] a.paths@[i])@ == b.paths@[i]@ by {
        if i < 4 * n {
            assert(b.paths@[i]@ == crate::paths::with_extension_text(
                dst,
                crate::paths::object_extension(i as nat),
            ));
        }
    }
    assert forall|i: int| 0 <= i < a.tasks@.len() implies (#[trigger] a.tasks@[i]).name@
        == b.tasks@[i].name@ && a.tasks@[i].kind == b.tasks@[i].kind && a.tasks@[i].module
        == b.tasks@[i].module && a.tasks@[i].path == b.tasks@[i].path by {
        let m = i / 4;
        let k = i % 4;
        assert(i == 4 * m + k);
        assert(crate::compile::is_task(a.tasks@[4 * m + k], m, k, modules[m].info.sym@));
        assert(crate::compile::is_task(b.tasks@[4 * m + k], m, k, modules[m].info.sym@));
    }
    assert forall|i: int| 0 <= i < a.units@.len() implies (#[trigger] a.units@[i]).inst_data.params@
        == b.units@[i].inst_data.params@ && a.units@[i].model_data.params@
        == b.units@[i].model_data.params@ && a.units@[i].inst_data.opvars@
        == b.units@[i].inst_data.opvars@ && a.units@[i].module.dae_system.jacobian@
        == b.units@[i].module.dae_system.jacobian@ by {
        assert(is_unit_of(a.units@[i], modules[i]));
        assert(is_unit_of(b.units@[i], modules[i]));
    }
}

} // verus!
