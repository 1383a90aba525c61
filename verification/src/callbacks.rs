//! Callbacks: small functions that generated code calls, built ahead of
//! their use or inlined at the call.

use vstd::prelude::*;
use vstd::string::*;
use crate::base_n::{encode, encode_spec, ALPHANUMERIC_ONLY};
use crate::compilation_unit::ArgType;

verus! {

/// A value of generated code, with its type.
#[derive(Clone, Copy, Debug, PartialEq, Eq, Structural)]
pub struct LlValue {
    pub id: u32,
    pub ty: ArgType,
}

/// What a callback built ahead of its use does: it returns a constant,
/// returns nothing, or returns one of its arguments.
#[derive(Clone, Copy, Debug, PartialEq, Eq, Structural)]
pub enum CallbackBody {
    Return(LlValue),
    ReturnVoid,
    ReturnParam(u32),
}

/// The builder of a callback that is inlined at each call.
pub trait InlineCallbackBuilder {
    /// Builds the callback's code on the state and returns its result.
    fn build_inline(&self, state: &Vec<LlValue>) -> LlValue;

    /// The type of the callback's result.
    fn return_type(&self, state: &Vec<LlValue>) -> ArgType;
}

/// A callback built ahead of its use.
pub struct BuiltCallbackFun {
    pub name: String,
    pub args: Vec<ArgType>,
    pub ret: ArgType,
    pub fun: CallbackBody,
    /// Values that are passed to the callback before the arguments of
    /// the call.
    pub state: Vec<LlValue>,
    pub num_state: u32,
}

/// A callback: inlined by a builder, or built ahead of its use.
pub enum CallbackFun<B: InlineCallbackBuilder> {
    Inline { builder: B, state: Vec<LlValue> },
    Prebuilt(BuiltCallbackFun),
}

impl<B: InlineCallbackBuilder> CallbackFun<B> {
    /// The state that the callback is called with.
    pub fn state(&self) -> (r: &Vec<LlValue>)
        ensures
            match self {
                CallbackFun::Inline { state, .. } => r == state,
                CallbackFun::Prebuilt(fun) => r == &fun.state,
            },
    {
        match self {
            CallbackFun::Inline { state, .. } => state,
            CallbackFun::Prebuilt(fun) => &fun.state,
        }
    }
}

/// The context of one generated unit: it counts the local symbols that
/// it has named.
pub struct CodegenCx {
    pub local_gen_sym_counter: usize,
}

/// The name of the local symbol with the given number: the prefix, a
/// dot, and the number in base 62. The dot keeps local names apart from
/// every name of the device description.
pub open spec fn local_symbol_name(prefix: Seq<char>, idx: nat) -> Seq<char> {
    prefix + "."@ + encode_spec(idx, 62)
}

/// Whether the function is a local callback without state that takes the
/// given arguments, was named by the context, and has the given result type
/// and body.
pub open spec fn is_local_callback(
    f: BuiltCallbackFun,
    cx: CodegenCx,
    args: Seq<ArgType>,
    ret: ArgType,
    body: CallbackBody,
) -> bool {
    &&& f.name@ == local_symbol_name("cb"@, cx.local_gen_sym_counter as nat)
    &&& f.args@ == args
    &&& f.ret == ret
    &&& f.fun == body
    &&& f.state@.len() == 0
    &&& f.num_state == 0
}

fn copy_args(args: &[ArgType]) -> (r: Vec<ArgType>)
    ensures
        r@ == args@,
{
    let mut r: Vec<ArgType> = Vec::new();
    let mut i: usize = 0;
    while i < args.len()
        invariant
            i <= args@.len(),
            r@ == args@.take(i as int),
        decreases args@.len() - i,
    {
        r.push(args[i]);
        i = i + 1;
        assert(r@ =~= args@.take(i as int));
    }
    assert(args@.take(i as int) =~= args@);
    r
}

impl CodegenCx {
    pub fn new() -> (cx: CodegenCx)
        ensures
            cx.local_gen_sym_counter == 0,
    {
        CodegenCx { local_gen_sym_counter: 0 }
    }

    /// Names a new local symbol and counts it.
    pub fn generate_local_symbol_name(&mut self, prefix: &str) -> (name: String)
        requires
            old(self).local_gen_sym_counter < usize::MAX,
        ensures
            name@ == local_symbol_name(prefix@, old(self).local_gen_sym_counter as nat),
            final(self).local_gen_sym_counter == old(self).local_gen_sym_counter + 1,
    {
        let idx = self.local_gen_sym_counter;
        self.local_gen_sym_counter = idx + 1;
        let mut name = String::from_str(prefix);
        name.append(".");
        name.append(encode(idx as u128, ALPHANUMERIC_ONLY).as_str());
        name
    }

    /// Names a new local callback.
    pub fn local_callback_name(&mut self) -> (name: String)
        requires
            old(self).local_gen_sym_counter < usize::MAX,
        ensures
            name@ == local_symbol_name("cb"@, old(self).local_gen_sym_counter as nat),
            final(self).local_gen_sym_counter == old(self).local_gen_sym_counter + 1,
    {
        self.generate_local_symbol_name("cb")
    }

    /// Builds a callback that takes the arguments and returns the value.
    pub fn const_callback(&mut self, args: &[ArgType], val: LlValue) -> (f: BuiltCallbackFun)
        requires
            old(self).local_gen_sym_counter < usize::MAX,
        ensures
            is_local_callback(f, *old(self), args@, val.ty, CallbackBody::Return(val)),
            final(self).local_gen_sym_counter == old(self).local_gen_sym_counter + 1,
    {
        let name = self.local_callback_name();
        BuiltCallbackFun {
            name,
            args: copy_args(args),
            ret: val.ty,
            fun: CallbackBody::Return(val),
            state: Vec::new(),
            num_state: 0,
        }
    }

    /// Builds a callback that takes the arguments and does nothing.
    pub fn trivial_callbacks(&mut self, args: &[ArgType]) -> (f: BuiltCallbackFun)
        requires
            old(self).local_gen_sym_counter < usize::MAX,
        ensures
            is_local_callback(f, *old(self), args@, ArgType::Void, CallbackBody::ReturnVoid),
            final(self).local_gen_sym_counter == old(self).local_gen_sym_counter + 1,
    {
        let name = self.local_callback_name();
        BuiltCallbackFun {
            name,
            args: copy_args(args),
            ret: ArgType::Void,
            fun: CallbackBody::ReturnVoid,
            state: Vec::new(),
            num_state: 0,
        }
    }

    /// Builds a callback that takes the arguments and returns the one at
    /// `idx`.
    pub fn const_return(&mut self, args: &[ArgType], idx: usize) -> (f: BuiltCallbackFun)
        requires
            old(self).local_gen_sym_counter < usize::MAX,
            idx < args@.len(),
            idx <= u32::MAX,
        ensures
            is_local_callback(
                f,
                *old(self),
                args@,
                args@[idx as int],
                CallbackBody::ReturnParam(idx as u32),
            ),
            final(self).local_gen_sym_counter == old(self).local_gen_sym_counter + 1,
    {
        let name = self.local_callback_name();
        BuiltCallbackFun {
            name,
            args: copy_args(args),
            ret: args[idx],
            fun: CallbackBody::ReturnParam(idx as u32),
            state: Vec::new(),
            num_state: 0,
        }
    }
}

} // verus!
