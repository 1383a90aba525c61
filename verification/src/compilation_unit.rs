//! What the generation of one module's entry points works on.

use vstd::prelude::*;
use vstd::string::*;
use crate::dae::{DaeSystem, NodeCollapse};
use crate::ir::Function;
use crate::module::{param_positions, positions, CallBackKind, CompiledModule, ModuleInfo, ParamInfo};

verus! {

/// The type of an argument or result of a generated entry point.
#[derive(Clone, Copy, Debug, PartialEq, Eq, Structural)]
pub enum ArgType {
    Ptr,
    Int,
    Double,
    Size,
    Void,
}

/// The declaration of a generated entry point: its symbol, the types of its
/// arguments and of its result, and whether the symbol is exported.
pub struct Prototype {
    pub name: String,
    pub args: Vec<ArgType>,
    pub ret: ArgType,
    pub exported: bool,
}

/// The parameters that every instance stores, and the operating-point
/// variables. Each holds, in the order of the identities given out, the
/// position of the parameter or variable in the module's declaration.
pub struct OsdiInstanceData {
    pub params: Vec<u32>,
    pub opvars: Vec<u32>,
}

/// The parameters that only the model stores, in the order of the
/// identities given out.
pub struct OsdiModelData {
    pub params: Vec<u32>,
}

/// One compiled module as the generation sees it.
pub struct OsdiModule {
    pub sym: String,
    pub info: ModuleInfo,
    pub dae_system: DaeSystem,
    pub eval: Function,
    pub callbacks: Vec<CallBackKind>,
    pub node_collapse: NodeCollapse,
}

/// The unit that generates the entry points of one module.
pub struct OsdiCompilationUnit {
    pub module: OsdiModule,
    pub inst_data: OsdiInstanceData,
    pub model_data: OsdiModelData,
}

impl OsdiCompilationUnit {
    /// The number of instance parameters.
    pub open spec fn n_inst(&self) -> int {
        self.inst_data.params@.len() as int
    }

    /// The number of parameters that only the model stores.
    pub open spec fn n_model(&self) -> int {
        self.model_data.params@.len() as int
    }

    /// The number of operating-point variables.
    pub open spec fn n_opvar(&self) -> int {
        self.inst_data.opvars@.len() as int
    }

    /// Every identity fits in 32 bits, and the equation system is sparse.
    pub open spec fn wf(&self) -> bool {
        &&& self.n_inst() + self.n_model() + self.n_opvar() <= u32::MAX
        &&& self.module.dae_system.sparse()
        &&& self.module.node_collapse.wf(self.module.dae_system.unknowns@.len() as int)
    }
}

/// The positions of a list of positions are strictly increasing, each is
/// that of a parameter of the kind asked for, and every such parameter has
/// its position in the list. So every parameter gets one identity, and the
/// identities follow the order of declaration.
pub proof fn lemma_positions(params: Seq<ParamInfo>, instance: bool)
    requires
        params.len() <= u32::MAX,
    ensures
        forall|a: int, b: int|
            0 <= a < b < positions(params, instance).len() ==> positions(params, instance)[a] < positions(
                params,
                instance,
            )[b],
        forall|k: int|
            0 <= k < positions(params, instance).len() ==> (#[trigger] positions(params, instance)[k])
                < params.len() && params[positions(params, instance)[k] as int].is_instance == instance,
        forall|i: int|
            0 <= i < params.len() && (#[trigger] params[i]).is_instance == instance ==> positions(
                params,
                instance,
            ).contains(i as u32),
        positions(params, true).len() + positions(params, false).len() == params.len(),
    decreases params.len(),
{
    let out = positions(params, instance);
    if params.len() > 0 {
        let front = params.drop_last();
        let rest = positions(front, instance);
        lemma_positions(front, instance);
        lemma_positions(front, !instance);
        assert forall|k: int| 0 <= k < out.len() implies (#[trigger] out[k]) < params.len() && params[out[k] as int].is_instance
            == instance by {
            if k < rest.len() {
                assert(out[k] == rest[k]);
                assert(front[rest[k] as int] == params[rest[k] as int]);
            }
        }
        assert forall|a: int, b: int| 0 <= a < b < out.len() implies out[a] < out[b] by {
            assert(out[a] == rest[a]);
            if b < rest.len() {
                assert(out[b] == rest[b]);
            }
        }
        assert forall|i: int|
            0 <= i < params.len() && (#[trigger] params[i]).is_instance == instance implies out.contains(
            i as u32,
        ) by {
            if i < front.len() {
                assert(front[i] == params[i]);
                let k = choose|k: int| 0 <= k < rest.len() && rest[k] == i as u32;
                assert(out[k] == i as u32);
            } else {
                assert(out[rest.len() as int] == i as u32);
            }
        }
    }
}

impl OsdiCompilationUnit {
    /// Checks that the unit is well formed.
    pub fn validate(&self) -> (ok: bool)
        ensures
            ok == self.wf(),
    {
        let n_inst = self.inst_data.params.len();
        let n_model = self.model_data.params.len();
        let n_opvar = self.inst_data.opvars.len();
        let max = u32::MAX as usize;
        if n_inst > max || n_model > max - n_inst || n_opvar > max - n_inst - n_model {
            return false;
        }
        self.module.dae_system.validate_sparse() && self.module.node_collapse.validate(
            self.module.dae_system.unknowns.len(),
        )
    }

    /// The unit of a compiled module under the given symbol. Instance
    /// parameters get the identities from zero in the order of their
    /// declaration, the other parameters follow in the order of theirs, and
    /// the operating-point variables follow those.
    pub fn new(module: CompiledModule, sym: String) -> (unit: OsdiCompilationUnit)
        requires
            module.wf(),
        ensures
            unit.wf(),
            unit.module.sym == sym,
            unit.module.info == module.info,
            unit.module.dae_system == module.dae_system,
            unit.module.eval == module.eval,
            unit.module.callbacks == module.callbacks,
            unit.module.node_collapse == module.node_collapse,
            unit.inst_data.params@ == positions(module.info.params@, true),
            unit.model_data.params@ == positions(module.info.params@, false),
            unit.inst_data.opvars@ == Seq::new(module.info.op_vars@.len(), |i: int| i as u32),
    {
        let CompiledModule {
            info,
            dae_system,
            eval,
            callbacks,
            node_collapse,
            inst_params,
            model_params: _,
        } = module;
        let params = param_positions(&info.params, false);
        let mut opvars: Vec<u32> = Vec::new();
        let n = info.op_vars.len();
        let mut i: usize = 0;
        while i < n
            invariant
                i <= n,
                n == info.op_vars@.len(),
                n <= u32::MAX,
                opvars@ == Seq::new(i as nat, |k: int| k as u32),
            decreases n - i,
        {
            opvars.push(i as u32);
            i = i + 1;
            assert(opvars@ =~= Seq::new(i as nat, |k: int| k as u32));
        }
        proof {
            lemma_positions(info.params@, true);
        }
        OsdiCompilationUnit {
            module: OsdiModule { sym, info, dae_system, eval, callbacks, node_collapse },
            inst_data: OsdiInstanceData { params: inst_params, opvars },
            model_data: OsdiModelData { params },
        }
    }
}

/// The symbol of an entry point: a prefix, then the module's own symbol.
pub fn entry_name(prefix: &str, sym: &String) -> (name: String)
    ensures
        name@ == prefix@ + sym@,
{
    String::from_str(prefix).concat(sym.as_str())
}

} // verus!
