//! What is known of one device module: its parameters and variables, the
//! types of their values, and its compiled form.

use vstd::prelude::*;
use crate::dae::{sparsified, DaeSystem, NodeCollapse};
use crate::ir::Function;

verus! {

/// The type of a value of the device description.
#[derive(Debug, PartialEq, Eq)]
pub enum Type {
    Real,
    Integer,
    String,
    Array { ty: Box<Type>, len: u32 },
    EmptyArray,
    Bool,
    Void,
    Invalid,
}

/// The type of a value in generated code.
#[derive(Debug, PartialEq, Eq)]
pub enum LlType {
    Double,
    Int,
    Ptr,
    Bool,
    Void,
    Array(Box<LlType>, u32),
}

/// The number of scalars in a value of an array type; nothing for a type
/// that is no array.
pub open spec fn ty_len_spec(ty: &Type) -> Option<nat>
    decreases ty,
{
    match ty {
        Type::Array { ty, len } => Some(
            *len as nat * match ty_len_spec(ty) {
                Some(n) => n,
                None => 1,
            },
        ),
        Type::EmptyArray => Some(0),
        _ => None,
    }
}

/// Whether the number of scalars of the type, and of every array type
/// nested in it, fits in 32 bits.
pub open spec fn ty_len_fits(ty: &Type) -> bool
    decreases ty,
{
    match ty {
        Type::Array { ty: inner, len } => ty_len_fits(inner) && ty_len_spec(ty).unwrap() <= u32::MAX,
        _ => true,
    }
}

/// The type of the scalars of a type: the type itself unless it is an
/// array.
pub open spec fn base_type_spec(ty: &Type) -> &Type
    decreases ty,
{
    match ty {
        Type::Array { ty: inner, .. } => base_type_spec(inner),
        _ => ty,
    }
}

/// The number of scalars in a value of an array type.
pub fn ty_len(ty: &Type) -> (r: Option<u32>)
    requires
        ty_len_fits(ty),
    ensures
        match r {
            Some(n) => ty_len_spec(ty) == Some(n as nat),
            None => ty_len_spec(ty).is_none(),
        },
    decreases ty,
{
    match ty {
        Type::Array { ty: inner, len } => {
            let n: u32 = match ty_len(inner) {
                Some(n) => n,
                None => 1,
            };
            assert(*len as nat * n as nat <= u32::MAX);
            assert(*len * n == *len as nat * n as nat) by (nonlinear_arith)
                requires
                    *len as nat * n as nat <= u32::MAX,
            ;
            Some(*len * n)
        },
        Type::EmptyArray => Some(0),
        _ => None,
    }
}

/// The type of the scalars of a type.
pub fn base_type(ty: &Type) -> (r: &Type)
    ensures
        r == base_type_spec(ty),
        !(r is Array),
    decreases ty,
{
    match ty {
        Type::Array { ty: inner, .. } => base_type(inner),
        _ => ty,
    }
}

/// The generated type of the scalars of a type.
pub open spec fn scalar_lltype(base: &Type) -> LlType {
    match base {
        Type::Real => LlType::Double,
        Type::Integer => LlType::Int,
        Type::String => LlType::Ptr,
        Type::EmptyArray => LlType::Array(Box::new(LlType::Int), 0),
        Type::Bool => LlType::Bool,
        _ => LlType::Void,
    }
}

/// The generated type of a type: that of its scalars, or for an array
/// type an array of as many of them as the type holds scalars.
pub open spec fn lltype_spec(ty: &Type) -> LlType {
    let llty = scalar_lltype(base_type_spec(ty));
    match ty_len_spec(ty) {
        Some(len) => LlType::Array(Box::new(llty), len as u32),
        None => llty,
    }
}

/// The generated type of a type. The erroneous type has none.
pub fn lltype(ty: &Type) -> (r: LlType)
    requires
        ty_len_fits(ty),
        !(base_type_spec(ty) is Invalid),
    ensures
        r == lltype_spec(ty),
{
    let llty = match base_type(ty) {
        Type::Real => LlType::Double,
        Type::Integer => LlType::Int,
        Type::String => LlType::Ptr,
        Type::EmptyArray => LlType::Array(Box::new(LlType::Int), 0),
        Type::Bool => LlType::Bool,
        Type::Void => LlType::Void,
        Type::Invalid => LlType::Void,
        Type::Array { .. } => LlType::Void,
    };
    if let Some(len) = ty_len(ty) {
        LlType::Array(Box::new(llty), len)
    } else {
        llty
    }
}

/// One parameter of a module.
pub struct ParamInfo {
    pub name: String,
    pub alias: Vec<String>,
    pub unit: String,
    pub description: String,
    pub group: String,
    pub ty: Type,
    pub is_instance: bool,
}

/// One operating-point variable of a module.
pub struct OpVarInfo {
    pub name: String,
    pub unit: String,
    pub description: String,
}

/// One system-function parameter, and in which of the module's
/// functions it is live.
pub struct SysFunParam {
    pub name: String,
    pub live_eval: bool,
    pub live_init: bool,
    pub live_model_setup: bool,
}

/// What the front end knows of a module.
pub struct ModuleInfo {
    pub name: String,
    /// The symbol under which the module's entry points are exported.
    pub sym: String,
    pub node_strs: Vec<String>,
    pub params: Vec<ParamInfo>,
    pub op_vars: Vec<OpVarInfo>,
    pub sys_fun_alias: Vec<Vec<String>>,
    pub sys_funs: Vec<SysFunParam>,
}

/// A function that the module's equations call back into.
#[derive(Clone, Copy, Debug, PartialEq, Eq, Structural)]
pub enum CallBackKind {
    /// A built-in limiting function, by the key of its name and the
    /// number of its arguments, the two state arguments included.
    BuiltinLimit { name: u32, num_args: u32 },
    Other,
}

/// The positions of the parameters that are instance parameters, or of
/// those that are not, in the order of declaration.
pub open spec fn positions(params: Seq<ParamInfo>, instance: bool) -> Seq<u32>
    decreases params.len(),
{
    if params.len() == 0 {
        Seq::empty()
    } else {
        let rest = positions(params.drop_last(), instance);
        if params.last().is_instance == instance {
            rest.push((params.len() - 1) as u32)
        } else {
            rest
        }
    }
}

/// The positions of the parameters that are instance parameters, or of
/// those that are not.
pub fn param_positions(params: &Vec<ParamInfo>, instance: bool) -> (r: Vec<u32>)
    requires
        params@.len() <= u32::MAX,
    ensures
        r@ == positions(params@, instance),
        r@.len() <= params@.len(),
{
    let mut r: Vec<u32> = Vec::new();
    let n = params.len();
    let mut i: usize = 0;
    while i < n
        invariant
            i <= n,
            n == params@.len(),
            n <= u32::MAX,
            r@ == positions(params@.take(i as int), instance),
            r@.len() <= i,
        decreases n - i,
    {
        proof {
            assert(params@.take(i + 1).drop_last() =~= params@.take(i as int));
            assert(params@.take(i + 1).last() == params@[i as int]);
        }
        if params[i].is_instance == instance {
            r.push(i as u32);
        }
        i = i + 1;
    }
    proof {
        assert(params@.take(n as int) =~= params@);
    }
    r
}

/// What the earlier stages hand over for one module: the module, its
/// evaluation function after optimization, the equation system assembled
/// from it, and the functions it calls back into.
pub struct ModuleInput {
    pub info: ModuleInfo,
    pub eval: Function,
    pub dae_system: DaeSystem,
    pub callbacks: Vec<CallBackKind>,
    pub node_collapse: NodeCollapse,
}

impl ModuleInput {
    /// The equation system is well formed, the parameters and variables
    /// can be numbered in 32 bits, and every limiting function has its two
    /// state arguments.
    pub open spec fn wf(&self) -> bool {
        &&& self.dae_system.wf()
        &&& self.node_collapse.wf(self.dae_system.unknowns@.len() as int)
        &&& self.info.params@.len() + self.info.op_vars@.len() <= u32::MAX
        &&& forall|k: int|
            0 <= k < self.callbacks@.len() ==> (#[trigger] self.callbacks@[k]
                matches CallBackKind::BuiltinLimit { num_args, .. } ==> num_args >= 2)
    }
}

impl ModuleInput {
    /// Checks that the module is well formed.
    pub fn validate(&self) -> (ok: bool)
        ensures
            ok == self.wf(),
    {
        if !self.dae_system.validate() {
            return false;
        }
        if !self.node_collapse.validate(self.dae_system.unknowns.len()) {
            return false;
        }
        let n_params = self.info.params.len();
        let n_vars = self.info.op_vars.len();
        if n_params > u32::MAX as usize || n_vars > u32::MAX as usize - n_params {
            return false;
        }
        let mut k: usize = 0;
        while k < self.callbacks.len()
            invariant
                k <= self.callbacks@.len(),
                forall|j: int|
                    0 <= j < k ==> (#[trigger] self.callbacks@[j]
                        matches CallBackKind::BuiltinLimit { num_args, .. } ==> num_args >= 2),
            decreases self.callbacks@.len() - k,
        {
            if let CallBackKind::BuiltinLimit { num_args, .. } = self.callbacks[k] {
                if num_args < 2 {
                    return false;
                }
            }
            k = k + 1;
        }
        true
    }
}

/// One module, compiled: its equation system in sparse form and the
/// parameters that its two setup functions initialize.
pub struct CompiledModule {
    pub info: ModuleInfo,
    pub dae_system: DaeSystem,
    pub eval: Function,
    pub callbacks: Vec<CallBackKind>,
    pub node_collapse: NodeCollapse,
    /// The parameters that the instance setup initializes: the instance
    /// parameters.
    pub inst_params: Vec<u32>,
    /// The parameters that the model setup initializes: all of them.
    pub model_params: Vec<u32>,
}

impl CompiledModule {
    pub open spec fn wf(&self) -> bool {
        &&& self.dae_system.sparse()
        &&& self.node_collapse.wf(self.dae_system.unknowns@.len() as int)
        &&& self.info.params@.len() + self.info.op_vars@.len() <= u32::MAX
        &&& self.inst_params@ == positions(self.info.params@, true)
        &&& forall|k: int|
            0 <= k < self.callbacks@.len() ==> (#[trigger] self.callbacks@[k]
                matches CallBackKind::BuiltinLimit { num_args, .. } ==> num_args >= 2)
    }

    /// Compiles a module: sparsifies its equation system against the
    /// optimized evaluation function, and lists the parameters for the
    /// instance setup and for the model setup.
    pub fn new(module: ModuleInput) -> (compiled: CompiledModule)
        requires
            module.wf(),
        ensures
            compiled.wf(),
            compiled.info == module.info,
            compiled.eval == module.eval,
            compiled.callbacks == module.callbacks,
            compiled.node_collapse == module.node_collapse,
            compiled.dae_system.jacobian@ == sparsified(module.dae_system.jacobian@, &module.eval),
            compiled.dae_system.unknowns@ == module.dae_system.unknowns@,
            compiled.dae_system.residual@ == module.dae_system.residual@,
            compiled.dae_system.noise_sources@ == module.dae_system.noise_sources@,
            compiled.inst_params@ == positions(module.info.params@, true),
            compiled.model_params@ == Seq::new(module.info.params@.len(), |i: int| i as u32),
    {
        let ModuleInput { info, eval, dae_system, callbacks, node_collapse } = module;
        let mut dae_system = dae_system;
        dae_system.sparsify(&eval);
        let inst_params = param_positions(&info.params, true);
        let mut model_params: Vec<u32> = Vec::new();
        let n = info.params.len();
        let mut i: usize = 0;
        while i < n
            invariant
                i <= n,
                n == info.params@.len(),
                n <= u32::MAX,
                model_params@ == Seq::new(i as nat, |k: int| k as u32),
            decreases n - i,
        {
            model_params.push(i as u32);
            i = i + 1;
            assert(model_params@ =~= Seq::new(i as nat, |k: int| k as u32));
        }
        CompiledModule { info, dae_system, eval, callbacks, node_collapse, inst_params, model_params }
    }
}

} // verus!
