//! The parameter access layer: the entry point that hands out the storage
//! of a parameter by its identity and records that it was given, and the
//! two entry points that answer whether a parameter was given.
//!
//! Identities are a wire contract. Instance parameters take the
//! identities from zero, the parameters that only the model stores follow,
//! and the operating-point variables take the rest.

use vstd::prelude::*;
use crate::bitfield::GivenFlags;
use crate::compilation_unit::{entry_name, ArgType, OsdiCompilationUnit, Prototype};

verus! {

/// The access flag that asks for the instance's storage.
pub const ACCESS_FLAG_INSTANCE: u32 = 1;

/// The access flag that announces a write.
pub const ACCESS_FLAG_SET: u32 = 2;

/// A place in the storage of an instance or of a model.
#[derive(Clone, Copy, Debug, PartialEq, Eq, Structural)]
pub enum Storage {
    /// An instance parameter, in the instance.
    InstanceParam(u32),
    /// An instance parameter, in the model that holds its default.
    ModelInstanceParam(u32),
    /// A parameter that only the model stores.
    ModelParam(u32),
    /// An operating-point variable.
    OpVar(u32),
}

/// The given flag that a write through a case sets.
#[derive(Clone, Copy, Debug, PartialEq, Eq, Structural)]
pub enum GivenBit {
    NoBit,
    Instance(u32),
    Model(u32),
}

/// One case of a dispatch on the parameter identity.
#[derive(Clone, Copy, Debug, PartialEq, Eq, Structural)]
pub struct AccessCase {
    pub id: u32,
    pub ptr: Storage,
    pub given: GivenBit,
}

/// The generated access entry point: a dispatch for instance scope, one
/// for model scope, and the dispatch over operating-point variables that
/// both fall through to.
pub struct AccessFunction {
    pub prototype: Prototype,
    pub inst_cases: Vec<AccessCase>,
    pub model_cases: Vec<AccessCase>,
    pub opvar_cases: Vec<AccessCase>,
}

/// One case of a dispatch that reads a given flag.
#[derive(Clone, Copy, Debug, PartialEq, Eq, Structural)]
pub struct GivenCase {
    pub id: u32,
    pub bit: u32,
}

/// A generated entry point that answers whether a parameter was given.
pub struct GivenFunction {
    pub prototype: Prototype,
    pub cases: Vec<GivenCase>,
}

/// Whether the instance-scope flag is set.
pub open spec fn instance_scope(flags: u32) -> bool {
    flags & ACCESS_FLAG_INSTANCE != 0
}

/// Whether the write flag is set.
pub open spec fn write_access(flags: u32) -> bool {
    flags & ACCESS_FLAG_SET != 0
}

/// The case that a dispatch takes for an identity: the first with that
/// identity.
pub open spec fn find_case(cases: Seq<AccessCase>, id: u32) -> Option<AccessCase>
    decreases cases.len(),
{
    if cases.len() == 0 {
        None
    } else if cases[0].id == id {
        Some(cases[0])
    } else {
        find_case(cases.drop_first(), id)
    }
}

/// The bit that a given dispatch reads for an identity: that of the first
/// case with that identity.
pub open spec fn find_given(cases: Seq<GivenCase>, id: u32) -> Option<u32>
    decreases cases.len(),
{
    if cases.len() == 0 {
        None
    } else if cases[0].id == id {
        Some(cases[0].bit)
    } else {
        find_given(cases.drop_first(), id)
    }
}

/// The case of the access contract for an identity and a scope, in a
/// module with the given numbers of instance parameters, model-only
/// parameters and operating-point variables: instance parameters first, then
/// the model's, then operating-point variables, then nothing.
pub open spec fn access_case(n_inst: int, n_model: int, n_opvar: int, id: u32, instance: bool) -> Option<
    AccessCase,
> {
    if instance && id < n_inst {
        Some(AccessCase { id, ptr: Storage::InstanceParam(id), given: GivenBit::Instance(id) })
    } else if !instance && id < n_inst {
        Some(AccessCase { id, ptr: Storage::ModelInstanceParam(id), given: GivenBit::Model(id) })
    } else if !instance && id < n_inst + n_model {
        Some(
            AccessCase {
                id,
                ptr: Storage::ModelParam((id - n_inst) as u32),
                given: GivenBit::Model(id),
            },
        )
    } else if n_inst + n_model <= id < n_inst + n_model + n_opvar {
        Some(
            AccessCase {
                id,
                ptr: Storage::OpVar((id - n_inst - n_model) as u32),
                given: GivenBit::NoBit,
            },
        )
    } else {
        None
    }
}

/// The flags after a write has set a given bit.
pub open spec fn marked(flags: Seq<bool>, pos: u32) -> Seq<bool> {
    flags.update(pos as int, true)
}

/// Whether a given bit lies inside the flags it belongs to.
pub open spec fn bit_fits(given: GivenBit, inst_len: u32, model_len: u32) -> bool {
    match given {
        GivenBit::NoBit => true,
        GivenBit::Instance(b) => b < inst_len,
        GivenBit::Model(b) => b < model_len,
    }
}

/// Whether the given bit of every case lies inside the flags it belongs to.
pub open spec fn cases_fit(cases: Seq<AccessCase>, inst_len: u32, model_len: u32) -> bool {
    forall|k: int| 0 <= k < cases.len() ==> bit_fits((#[trigger] cases[k]).given, inst_len, model_len)
}

fn check_cases(cases: &Vec<AccessCase>, inst_len: u32, model_len: u32) -> (ok: bool)
    ensures
        ok == cases_fit(cases@, inst_len, model_len),
{
    let mut k: usize = 0;
    while k < cases.len()
        invariant
            k <= cases@.len(),
            forall|j: int| 0 <= j < k ==> bit_fits((#[trigger] cases@[j]).given, inst_len, model_len),
        decreases cases@.len() - k,
    {
        let fits = match cases[k].given {
            GivenBit::NoBit => true,
            GivenBit::Instance(b) => b < inst_len,
            GivenBit::Model(b) => b < model_len,
        };
        if !fits {
            return false;
        }
        k = k + 1;
    }
    true
}

fn search_cases(cases: &Vec<AccessCase>, id: u32) -> (r: Option<AccessCase>)
    ensures
        r == find_case(cases@, id),
{
    let mut i: usize = 0;
    assert(cases@.skip(0) =~= cases@);
    while i < cases.len()
        invariant
            i <= cases@.len(),
            find_case(cases@, id) == find_case(cases@.skip(i as int), id),
        decreases cases@.len() - i,
    {
        let c = cases[i];
        proof {
            assert(cases@.skip(i as int)[0] == c);
            assert(cases@.skip(i as int).drop_first() =~= cases@.skip(i + 1));
        }
        if c.id == id {
            return Some(c);
        }
        i = i + 1;
    }
    assert(cases@.skip(i as int).len() == 0);
    None
}

impl AccessFunction {
    /// Every given bit of a case lies inside the flags it belongs to.
    pub open spec fn fits(&self, inst_len: u32, model_len: u32) -> bool {
        &&& cases_fit(self.inst_cases@, inst_len, model_len)
        &&& cases_fit(self.model_cases@, inst_len, model_len)
        &&& cases_fit(self.opvar_cases@, inst_len, model_len)
    }

    /// Checks that every given bit of a case lies inside the flags it
    /// belongs to.
    pub fn validate(&self, inst_len: u32, model_len: u32) -> (ok: bool)
        ensures
            ok == self.fits(inst_len, model_len),
    {
        check_cases(&self.inst_cases, inst_len, model_len) && check_cases(
            &self.model_cases,
            inst_len,
            model_len,
        ) && check_cases(&self.opvar_cases, inst_len, model_len)
    }

    /// The case that a call takes: that of the dispatch for its scope, or
    /// else that of the dispatch over operating-point variables.
    pub open spec fn dispatch(&self, param_id: u32, flags: u32) -> Option<AccessCase> {
        let scoped = if instance_scope(flags) {
            find_case(self.inst_cases@, param_id)
        } else {
            find_case(self.model_cases@, param_id)
        };
        match scoped {
            Some(c) => Some(c),
            None => find_case(self.opvar_cases@, param_id),
        }
    }

    /// The pointer that a call returns: the storage of the case taken, or
    /// `None` for the null pointer where no case is taken.
    pub open spec fn pointer(&self, param_id: u32, flags: u32) -> Option<Storage> {
        match self.dispatch(param_id, flags) {
            Some(c) => Some(c.ptr),
            None => None,
        }
    }

    /// The given flags of the instance and of the model after a call: a
    /// write sets the given bit of the case taken, and nothing else changes.
    pub open spec fn flags_after(
        &self,
        inst: Seq<bool>,
        model: Seq<bool>,
        param_id: u32,
        flags: u32,
    ) -> (Seq<bool>, Seq<bool>) {
        match self.dispatch(param_id, flags) {
            Some(c) if write_access(flags) => match c.given {
                GivenBit::Instance(b) => (marked(inst, b), model),
                GivenBit::Model(b) => (inst, marked(model, b)),
                GivenBit::NoBit => (inst, model),
            },
            _ => (inst, model),
        }
    }

    /// Runs the entry point on the given flags of one instance and of its
    /// model. Returns the storage of the parameter, or `None` for the null
    /// pointer. A write sets the given bit of the case taken; nothing else
    /// changes.
    pub fn call(&self, inst: &mut GivenFlags, model: &mut GivenFlags, param_id: u32, flags: u32) -> (ptr:
        Option<Storage>)
        requires
            old(inst).wf(),
            old(model).wf(),
            self.fits(old(inst).len, old(model).len),
        ensures
            final(inst).wf(),
            final(model).wf(),
            final(inst).len == old(inst).len,
            final(model).len == old(model).len,
            ptr == self.pointer(param_id, flags),
            (final(inst)@, final(model)@) == self.flags_after(
                old(inst)@,
                old(model)@,
                param_id,
                flags,
            ),
    {
        let instance_flag_set = (flags & ACCESS_FLAG_INSTANCE) != 0;
        let write_flag_set = (flags & ACCESS_FLAG_SET) != 0;
        let scoped = if instance_flag_set {
            search_cases(&self.inst_cases, param_id)
        } else {
            search_cases(&self.model_cases, param_id)
        };
        let found = match scoped {
            Some(c) => Some(c),
            None => search_cases(&self.opvar_cases, param_id),
        };
        match found {
            None => None,
            Some(c) => {
                proof {
                    lemma_found_in(self.inst_cases@, param_id);
                    lemma_found_in(self.model_cases@, param_id);
                    lemma_found_in(self.opvar_cases@, param_id);
                }
                if write_flag_set {
                    match c.given {
                        GivenBit::Instance(b) => inst.set(b),
                        GivenBit::Model(b) => model.set(b),
                        GivenBit::NoBit => {},
                    }
                }
                Some(c.ptr)
            },
        }
    }
}

impl GivenFunction {
    /// The answer of the entry point on the given flags: 1 if the
    /// identity has a case and the bit of that case is set, else 0.
    pub open spec fn answer(&self, flags: Seq<bool>, param_id: u32) -> u32 {
        match find_given(self.cases@, param_id) {
            Some(b) => if b < flags.len() && flags[b as int] {
                1
            } else {
                0
            },
            None => 0,
        }
    }

    /// Runs the entry point on the given flags of an instance or a model.
    pub fn call(&self, storage: &GivenFlags, param_id: u32) -> (r: u32)
        requires
            storage.wf(),
        ensures
            r == self.answer(storage@, param_id),
    {
        let mut i: usize = 0;
        assert(self.cases@.skip(0) =~= self.cases@);
        while i < self.cases.len()
            invariant
                i <= self.cases@.len(),
                find_given(self.cases@, param_id) == find_given(self.cases@.skip(i as int), param_id),
                storage.wf(),
            decreases self.cases@.len() - i,
        {
            let c = self.cases[i];
            proof {
                assert(self.cases@.skip(i as int)[0] == c);
                assert(self.cases@.skip(i as int).drop_first() =~= self.cases@.skip(i + 1));
            }
            if c.id == param_id {
                let is_given = storage.is_set(c.bit);
                return if is_given {
                    1
                } else {
                    0
                };
            }
            i = i + 1;
        }
        assert(self.cases@.skip(i as int).len() == 0);
        0
    }
}

/// The case with which the instance-scope dispatch answers the identity `k`.
pub open spec fn inst_case(k: int) -> AccessCase {
    AccessCase { id: k as u32, ptr: Storage::InstanceParam(k as u32), given: GivenBit::Instance(k as u32) }
}

/// The case with which the model-scope dispatch answers the identity `k`:
/// the model's copy of an instance parameter below `n_inst`, a parameter of
/// the model's own from there on.
pub open spec fn model_case(n_inst: int, k: int) -> AccessCase {
    if k < n_inst {
        AccessCase {
            id: k as u32,
            ptr: Storage::ModelInstanceParam(k as u32),
            given: GivenBit::Model(k as u32),
        }
    } else {
        AccessCase {
            id: k as u32,
            ptr: Storage::ModelParam((k - n_inst) as u32),
            given: GivenBit::Model(k as u32),
        }
    }
}

/// The case of the operating-point variable `k`, whose identity follows
/// those of all parameters.
pub open spec fn opvar_case(n_params: int, k: int) -> AccessCase {
    AccessCase { id: (n_params + k) as u32, ptr: Storage::OpVar(k as u32), given: GivenBit::NoBit }
}

/// The access entry point of a module with the given numbers of instance
/// parameters, model-only parameters and operating-point variables.
pub open spec fn is_access_function(f: &AccessFunction, n_inst: int, n_model: int, n_opvar: int) -> bool {
    &&& f.inst_cases@ == Seq::new(n_inst as nat, |k: int| inst_case(k))
    &&& f.model_cases@ == Seq::new((n_inst + n_model) as nat, |k: int| model_case(n_inst, k))
    &&& f.opvar_cases@ == Seq::new(n_opvar as nat, |k: int| opvar_case(n_inst + n_model, k))
}

/// The given entry point over the identities below `n`, each with the bit
/// of its own number.
pub open spec fn is_given_function(g: &GivenFunction, n: int) -> bool {
    g.cases@ == Seq::new(n as nat, |k: int| GivenCase { id: k as u32, bit: k as u32 })
}

/// In a dispatch whose cases carry consecutive identities from `base` on,
/// an identity takes the case at its distance from `base`, and an identity
/// outside the run takes none.
pub proof fn lemma_find_case_run(cases: Seq<AccessCase>, base: int, id: u32)
    requires
        0 <= base,
        base + cases.len() <= u32::MAX,
        forall|k: int| 0 <= k < cases.len() ==> (#[trigger] cases[k]).id == base + k,
    ensures
        find_case(cases, id) == if base <= id < base + cases.len() {
            Some(cases[id - base])
        } else {
            None
        },
    decreases cases.len(),
{
    if cases.len() > 0 {
        assert(cases[0].id == base);
        if cases[0].id != id {
            let rest = cases.drop_first();
            assert forall|k: int| 0 <= k < rest.len() implies (#[trigger] rest[k]).id == base + 1 + k by {
                assert(rest[k] == cases[k + 1]);
            }
            lemma_find_case_run(rest, base + 1, id);
            if base + 1 <= id < base + 1 + rest.len() {
                assert(rest[id - (base + 1)] == cases[id - base]);
            }
        }
    }
}

/// In a given dispatch over the identities below the number of its cases,
/// an identity below that number reads the bit of its own number, and any
/// other reads none.
pub proof fn lemma_find_given_run(cases: Seq<GivenCase>, base: int, id: u32)
    requires
        0 <= base,
        base + cases.len() <= u32::MAX,
        forall|k: int|
            0 <= k < cases.len() ==> (#[trigger] cases[k]).id == base + k && cases[k].bit == base + k,
    ensures
        find_given(cases, id) == if base <= id < base + cases.len() {
            Some(id)
        } else {
            None
        },
    decreases cases.len(),
{
    if cases.len() > 0 {
        assert(cases[0].id == base);
        if cases[0].id != id {
            let rest = cases.drop_first();
            assert forall|k: int| 0 <= k < rest.len() implies (#[trigger] rest[k]).id == base + 1 + k
                && rest[k].bit == base + 1 + k by {
                assert(rest[k] == cases[k + 1]);
            }
            lemma_find_given_run(rest, base + 1, id);
        }
    }
}

/// The generated access entry point follows the access contract: an
/// identity takes the case that the contract gives it for the scope asked
/// for, and an identity that the contract does not know takes none.
pub proof fn lemma_dispatch_follows_contract(
    f: &AccessFunction,
    n_inst: int,
    n_model: int,
    n_opvar: int,
    param_id: u32,
    flags: u32,
)
    requires
        0 <= n_inst,
        0 <= n_model,
        0 <= n_opvar,
        n_inst + n_model + n_opvar <= u32::MAX,
        is_access_function(f, n_inst, n_model, n_opvar),
    ensures
        f.dispatch(param_id, flags) == access_case(
            n_inst,
            n_model,
            n_opvar,
            param_id,
            instance_scope(flags),
        ),
{
    lemma_find_case_run(f.inst_cases@, 0, param_id);
    lemma_find_case_run(f.model_cases@, 0, param_id);
    lemma_find_case_run(f.opvar_cases@, n_inst + n_model, param_id);
}

/// A case that a dispatch takes is one of its cases, and has the identity
/// asked for.
pub proof fn lemma_found_in(cases: Seq<AccessCase>, id: u32)
    ensures
        find_case(cases, id) matches Some(c) ==> c.id == id && exists|k: int|
            0 <= k < cases.len() && cases[k] == c,
    decreases cases.len(),
{
    if cases.len() > 0 && cases[0].id != id {
        lemma_found_in(cases.drop_first(), id);
        if let Some(c) = find_case(cases.drop_first(), id) {
            let k = choose|k: int| 0 <= k < cases.drop_first().len() && cases.drop_first()[k] == c;
            assert(cases[k + 1] == c);
        }
    } else if cases.len() > 0 {
        assert(cases[0] == find_case(cases, id).unwrap());
    }
}

/// The declaration of an entry point that answers a given flag.
pub open spec fn is_given_prototype(p: &Prototype, name: Seq<char>) -> bool {
    &&& p.name@ == name
    &&& p.args@ == seq![ArgType::Ptr, ArgType::Int]
    &&& p.ret == ArgType::Int
    &&& !p.exported
}

impl OsdiCompilationUnit {
    /// Declares the access entry point: instance, model, parameter
    /// identity and flags go in, a pointer comes out.
    pub fn access_function_prototype(&self) -> (p: Prototype)
        ensures
            p.name@ == "access_"@ + self.module.sym@,
            p.args@ == seq![ArgType::Ptr, ArgType::Ptr, ArgType::Int, ArgType::Int],
            p.ret == ArgType::Ptr,
            p.exported,
    {
        let mut args: Vec<ArgType> = Vec::new();
        args.push(ArgType::Ptr);
        args.push(ArgType::Ptr);
        args.push(ArgType::Int);
        args.push(ArgType::Int);
        Prototype {
            name: entry_name("access_", &self.module.sym),
            args,
            ret: ArgType::Ptr,
            exported: true,
        }
    }

    /// Generates the access entry point. Its three dispatches hold one
    /// case for each identity, in the order of the identities, and so it
    /// follows the access contract on every identity and every flag word.
    pub fn access_function(&self) -> (f: AccessFunction)
        requires
            self.wf(),
        ensures
            f.prototype.name@ == "access_"@ + self.module.sym@,
            f.prototype.args@ == seq![ArgType::Ptr, ArgType::Ptr, ArgType::Int, ArgType::Int],
            f.prototype.ret == ArgType::Ptr,
            f.prototype.exported,
            is_access_function(&f, self.n_inst(), self.n_model(), self.n_opvar()),
            f.fits(self.n_inst() as u32, (self.n_inst() + self.n_model()) as u32),
            forall|param_id: u32, flags: u32|
                #[trigger] f.dispatch(param_id, flags) == access_case(
                    self.n_inst(),
                    self.n_model(),
                    self.n_opvar(),
                    param_id,
                    instance_scope(flags),
                ),
    {
        let prototype = self.access_function_prototype();
        let n_inst: usize = self.inst_data.params.len();
        let n_model: usize = self.model_data.params.len();
        let n_opvar: usize = self.inst_data.opvars.len();

        let mut inst_cases: Vec<AccessCase> = Vec::new();
        let mut param_idx: usize = 0;
        while param_idx < n_inst
            invariant
                param_idx <= n_inst <= u32::MAX,
                inst_cases@ == Seq::new(param_idx as nat, |k: int| inst_case(k)),
            decreases n_inst - param_idx,
        {
            let id = param_idx as u32;
            inst_cases.push(
                AccessCase { id, ptr: Storage::InstanceParam(id), given: GivenBit::Instance(id) },
            );
            param_idx = param_idx + 1;
            assert(inst_cases@ =~= Seq::new(param_idx as nat, |k: int| inst_case(k)));
        }

        let mut model_cases: Vec<AccessCase> = Vec::new();
        let mut param_idx: usize = 0;
        while param_idx < n_inst
            invariant
                param_idx <= n_inst <= u32::MAX,
                model_cases@ == Seq::new(param_idx as nat, |k: int| model_case(n_inst as int, k)),
            decreases n_inst - param_idx,
        {
            let id = param_idx as u32;
            model_cases.push(
                AccessCase { id, ptr: Storage::ModelInstanceParam(id), given: GivenBit::Model(id) },
            );
            param_idx = param_idx + 1;
            assert(model_cases@ =~= Seq::new(param_idx as nat, |k: int| model_case(n_inst as int, k)));
        }
        let mut param_idx: usize = 0;
        while param_idx < n_model
            invariant
                param_idx <= n_model,
                n_inst + n_model <= u32::MAX,
                model_cases@ == Seq::new(
                    (n_inst + param_idx) as nat,
                    |k: int| model_case(n_inst as int, k),
                ),
            decreases n_model - param_idx,
        {
            let id = (n_inst + param_idx) as u32;
            model_cases.push(
                AccessCase {
                    id,
                    ptr: Storage::ModelParam(param_idx as u32),
                    given: GivenBit::Model(id),
                },
            );
            param_idx = param_idx + 1;
            assert(model_cases@ =~= Seq::new(
                (n_inst + param_idx) as nat,
                |k: int| model_case(n_inst as int, k),
            ));
        }

        let mut opvar_cases: Vec<AccessCase> = Vec::new();
        let mut opvar_idx: usize = 0;
        while opvar_idx < n_opvar
            invariant
                opvar_idx <= n_opvar,
                n_inst + n_model + n_opvar <= u32::MAX,
                opvar_cases@ == Seq::new(
                    opvar_idx as nat,
                    |k: int| opvar_case(n_inst + n_model, k),
                ),
            decreases n_opvar - opvar_idx,
        {
            let id = (n_model + n_inst + opvar_idx) as u32;
            opvar_cases.push(
                AccessCase { id, ptr: Storage::OpVar(opvar_idx as u32), given: GivenBit::NoBit },
            );
            opvar_idx = opvar_idx + 1;
            assert(opvar_cases@ =~= Seq::new(
                opvar_idx as nat,
                |k: int| opvar_case(n_inst + n_model, k),
            ));
        }

        let f = AccessFunction { prototype, inst_cases, model_cases, opvar_cases };
        proof {
            assert forall|param_id: u32, flags: u32|
                #[trigger] f.dispatch(param_id, flags) == access_case(
                    self.n_inst(),
                    self.n_model(),
                    self.n_opvar(),
                    param_id,
                    instance_scope(flags),
                ) by {
                lemma_dispatch_follows_contract(
                    &f,
                    self.n_inst(),
                    self.n_model(),
                    self.n_opvar(),
                    param_id,
                    flags,
                );
            }
        }
        f
    }

    /// Generates the entry point that answers whether an instance
    /// parameter was given to an instance. It knows the identities of the
    /// instance parameters and no others.
    pub fn given_flag_instance(&self) -> (g: GivenFunction)
        requires
            self.wf(),
        ensures
            is_given_prototype(&g.prototype, "given_flag_instance_"@ + self.module.sym@),
            is_given_function(&g, self.n_inst()),
    {
        let prototype = given_prototype(entry_name("given_flag_instance_", &self.module.sym));
        let cases = given_cases(self.inst_data.params.len());
        GivenFunction { prototype, cases }
    }

    /// Generates the entry point that answers whether a parameter was
    /// given to a model. It knows the identities of the instance parameters,
    /// whose defaults the model holds, and of the model's own parameters.
    pub fn given_flag_model(&self) -> (g: GivenFunction)
        requires
            self.wf(),
        ensures
            is_given_prototype(&g.prototype, "given_flag_model_"@ + self.module.sym@),
            is_given_function(&g, self.n_inst() + self.n_model()),
    {
        let prototype = given_prototype(entry_name("given_flag_model_", &self.module.sym));
        let cases = given_cases(self.model_data.params.len() + self.inst_data.params.len());
        GivenFunction { prototype, cases }
    }
}

fn given_prototype(name: String) -> (p: Prototype)
    ensures
        is_given_prototype(&p, name@),
{
    let mut args: Vec<ArgType> = Vec::new();
    args.push(ArgType::Ptr);
    args.push(ArgType::Int);
    assert(args@ =~= seq![ArgType::Ptr, ArgType::Int]);
    Prototype { name, args, ret: ArgType::Int, exported: false }
}

fn given_cases(n: usize) -> (cases: Vec<GivenCase>)
    requires
        n <= u32::MAX,
    ensures
        cases@ == Seq::new(n as nat, |k: int| GivenCase { id: k as u32, bit: k as u32 }),
{
    let mut cases: Vec<GivenCase> = Vec::new();
    let mut param_idx: usize = 0;
    while param_idx < n
        invariant
            param_idx <= n <= u32::MAX,
            cases@ == Seq::new(param_idx as nat, |k: int| GivenCase { id: k as u32, bit: k as u32 }),
        decreases n - param_idx,
    {
        cases.push(GivenCase { id: param_idx as u32, bit: param_idx as u32 });
        param_idx = param_idx + 1;
        assert(cases@ =~= Seq::new(
            param_idx as nat,
            |k: int| GivenCase { id: k as u32, bit: k as u32 },
        ));
    }
    cases
}

/// Access precedence. A parameter that both the instance and the model
/// store is handed out from the instance's storage whenever instance scope
/// is asked for, and from the model's storage only when it is not.
pub proof fn lemma_access_precedence(
    f: &AccessFunction,
    n_inst: int,
    n_model: int,
    n_opvar: int,
    param_id: u32,
    flags: u32,
)
    requires
        0 <= n_inst,
        0 <= n_model,
        0 <= n_opvar,
        n_inst + n_model + n_opvar <= u32::MAX,
        is_access_function(f, n_inst, n_model, n_opvar),
        param_id < n_inst,
    ensures
        instance_scope(flags) ==> f.pointer(param_id, flags) == Some(Storage::InstanceParam(param_id)),
        !instance_scope(flags) ==> f.pointer(param_id, flags) == Some(
            Storage::ModelInstanceParam(param_id),
        ),
{
    lemma_dispatch_follows_contract(f, n_inst, n_model, n_opvar, param_id, flags);
}

/// Given round trip. After a write access to a parameter, the given entry
/// point of the storage that the access addressed answers 1 for it. The
/// answer for any other parameter is what it was before, so a parameter
/// that was never written answers 0. A write with an identity that the
/// scope does not know changes no flag at all.
pub proof fn lemma_given_round_trip(
    f: &AccessFunction,
    given_inst: &GivenFunction,
    given_model: &GivenFunction,
    n_inst: int,
    n_model: int,
    n_opvar: int,
    inst: Seq<bool>,
    model: Seq<bool>,
    param_id: u32,
    flags: u32,
    other: u32,
)
    requires
        0 <= n_inst,
        0 <= n_model,
        0 <= n_opvar,
        n_inst + n_model + n_opvar <= u32::MAX,
        is_access_function(f, n_inst, n_model, n_opvar),
        is_given_function(given_inst, n_inst),
        is_given_function(given_model, n_inst + n_model),
        inst.len() == n_inst,
        model.len() == n_inst + n_model,
        write_access(flags),
    ensures
        ({
            let after = f.flags_after(inst, model, param_id, flags);
            &&& instance_scope(flags) && param_id < n_inst ==> given_inst.answer(after.0, param_id) == 1
            &&& !instance_scope(flags) && param_id < n_inst + n_model ==> given_model.answer(
                after.1,
                param_id,
            ) == 1
            &&& instance_scope(flags) ==> after.1 == model
            &&& !instance_scope(flags) ==> after.0 == inst
            &&& instance_scope(flags) && param_id >= n_inst ==> after.0 == inst
            &&& !instance_scope(flags) && param_id >= n_inst + n_model ==> after.1 == model
            &&& other != param_id ==> given_inst.answer(after.0, other) == given_inst.answer(inst, other)
                && given_model.answer(after.1, other) == given_model.answer(model, other)
        }),
{
    lemma_dispatch_follows_contract(f, n_inst, n_model, n_opvar, param_id, flags);
    lemma_find_given_run(given_inst.cases@, 0, param_id);
    lemma_find_given_run(given_model.cases@, 0, param_id);
    lemma_find_given_run(given_inst.cases@, 0, other);
    lemma_find_given_run(given_model.cases@, 0, other);
}

/// The given entry points answer 0 for every identity outside their
/// range, whatever the flags hold, and 0 for every identity while no flag
/// is set.
pub proof fn lemma_given_out_of_range(g: &GivenFunction, n: int, flags: Seq<bool>, param_id: u32)
    requires
        0 <= n <= u32::MAX,
        is_given_function(g, n),
    ensures
        param_id >= n ==> g.answer(flags, param_id) == 0,
        (forall|k: int| 0 <= k < flags.len() ==> !flags[k]) ==> g.answer(flags, param_id) == 0,
{
    lemma_find_given_run(g.cases@, 0, param_id);
}

} // verus!
