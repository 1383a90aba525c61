//! A small model of the intermediate representation that the equation
//! assembly works on: values, the instructions that define them and a cursor
//! that inserts instructions.

use vstd::prelude::*;

verus! {

/// The identity of one value of a function.
#[derive(Clone, Copy, Debug, PartialEq, Eq, Structural)]
pub struct Value(pub u32);

/// The identity of one instruction of a function.
#[derive(Clone, Copy, Debug, PartialEq, Eq, Structural)]
pub struct Inst(pub u32);

/// The value that stands for the real constant zero, the additive identity.
pub open spec fn f_zero() -> Value {
    Value(0)
}

/// The operations that the equation assembly emits.
#[derive(Clone, Copy, Debug, PartialEq, Eq, Structural)]
pub enum Opcode {
    Fneg,
    Fadd,
    Fsub,
    Fmul,
    OptBarrier,
}

/// One instruction: an operation on one or two values. A unary operation
/// holds its argument in both places.
#[derive(Clone, Copy, Debug, PartialEq, Eq, Structural)]
pub struct InstructionData {
    pub opcode: Opcode,
    pub lhs: Value,
    pub rhs: Value,
}

/// Where a value comes from.
#[derive(Clone, Copy, Debug, PartialEq, Eq, Structural)]
pub enum ValueDef {
    Result(Inst),
    Param(u32),
    Const,
    Invalid,
}

/// A function body: the definition of every value, the data of every
/// instruction, and the order in which the instructions run.
pub struct Function {
    pub defs: Vec<ValueDef>,
    pub insts: Vec<InstructionData>,
    pub layout: Vec<Inst>,
}

impl Function {
    /// Every value and instruction has an identity of 32 bits, the zero
    /// constant is defined, and every reference stays inside the function.
    pub open spec fn wf(&self) -> bool {
        &&& 1 <= self.defs@.len() <= u32::MAX
        &&& self.insts@.len() <= u32::MAX
        &&& self.defs@[0] == ValueDef::Const
        &&& forall|v: int|
            0 <= v < self.defs@.len() ==> (#[trigger] self.defs@[v] matches ValueDef::Result(i)
                ==> i.0 < self.insts@.len())
        &&& forall|i: int|
            0 <= i < self.insts@.len() ==> (#[trigger] self.insts@[i]).lhs.0 < self.defs@.len()
                && self.insts@[i].rhs.0 < self.defs@.len()
        &&& forall|k: int|
            0 <= k < self.layout@.len() ==> (#[trigger] self.layout@[k]).0 < self.insts@.len()
    }

    /// Checks that the function is well formed.
    pub fn validate(&self) -> (ok: bool)
        ensures
            ok == self.wf(),
    {
        if self.defs.len() < 1 || self.defs.len() > u32::MAX as usize || self.insts.len()
            > u32::MAX as usize {
            return false;
        }
        match self.defs[0] {
            ValueDef::Const => {},
            _ => {
                return false;
            },
        }
        let mut v: usize = 0;
        while v < self.defs.len()
            invariant
                v <= self.defs@.len(),
                forall|k: int|
                    0 <= k < v ==> (#[trigger] self.defs@[k] matches ValueDef::Result(i) ==> i.0
                        < self.insts@.len()),
            decreases self.defs@.len() - v,
        {
            if let ValueDef::Result(i) = self.defs[v] {
                if i.0 as usize >= self.insts.len() {
                    return false;
                }
            }
            v = v + 1;
        }
        let mut i: usize = 0;
        while i < self.insts.len()
            invariant
                i <= self.insts@.len(),
                forall|k: int|
                    0 <= k < i ==> (#[trigger] self.insts@[k]).lhs.0 < self.defs@.len()
                        && self.insts@[k].rhs.0 < self.defs@.len(),
            decreases self.insts@.len() - i,
        {
            let data = self.insts[i];
            if data.lhs.0 as usize >= self.defs.len() || data.rhs.0 as usize >= self.defs.len() {
                return false;
            }
            i = i + 1;
        }
        let mut k: usize = 0;
        while k < self.layout.len()
            invariant
                k <= self.layout@.len(),
                forall|j: int| 0 <= j < k ==> (#[trigger] self.layout@[j]).0 < self.insts@.len(),
            decreases self.layout@.len() - k,
        {
            if self.layout[k].0 as usize >= self.insts.len() {
                return false;
            }
            k = k + 1;
        }
        true
    }

    /// A function that holds the zero constant and nothing else.
    pub fn new() -> (f: Function)
        ensures
            f.wf(),
            f.defs@ == seq![ValueDef::Const],
            f.insts@.len() == 0,
            f.layout@.len() == 0,
    {
        let mut defs: Vec<ValueDef> = Vec::new();
        defs.push(ValueDef::Const);
        Function { defs, insts: Vec::new(), layout: Vec::new() }
    }

    /// The definition of a value; a value outside the function is invalid.
    pub open spec fn spec_value_def(&self, val: Value) -> ValueDef {
        if val.0 < self.defs@.len() {
            self.defs@[val.0 as int]
        } else {
            ValueDef::Invalid
        }
    }

    pub fn value_def(&self, val: Value) -> (d: ValueDef)
        ensures
            d == self.spec_value_def(val),
    {
        if (val.0 as usize) < self.defs.len() {
            self.defs[val.0 as usize]
        } else {
            ValueDef::Invalid
        }
    }

    /// Whether another value and another instruction still fit.
    pub open spec fn has_room(&self) -> bool {
        self.defs@.len() < u32::MAX && self.insts@.len() < u32::MAX
    }
}

/// The place of the first occurrence of an instruction in a layout, or
/// the length of the layout where it does not occur.
pub open spec fn first_index(layout: Seq<Inst>, inst: Inst) -> int
    decreases layout.len(),
{
    if layout.len() == 0 {
        0
    } else if layout[0] == inst {
        0
    } else {
        1 + first_index(layout.drop_first(), inst)
    }
}

pub proof fn lemma_first_index_bound(layout: Seq<Inst>, inst: Inst)
    ensures
        0 <= first_index(layout, inst) <= layout.len(),
    decreases layout.len(),
{
    if layout.len() > 0 && layout[0] != inst {
        lemma_first_index_bound(layout.drop_first(), inst);
    }
}

/// A function together with the place in its layout where the next
/// instruction goes.
pub struct FuncCursor {
    pub func: Function,
    pub pos: usize,
}

impl FuncCursor {
    pub open spec fn wf(&self) -> bool {
        self.func.wf() && self.pos <= self.func.layout@.len()
    }

    /// Checks that the cursor is well formed.
    pub fn validate(&self) -> (ok: bool)
        ensures
            ok == self.wf(),
    {
        self.func.validate() && self.pos <= self.func.layout.len()
    }

    /// A cursor at the end of the function's layout.
    pub fn at_exit(func: Function) -> (c: FuncCursor)
        requires
            func.wf(),
        ensures
            c.wf(),
            c.func == func,
            c.pos == func.layout@.len(),
    {
        let pos = func.layout.len();
        FuncCursor { func, pos }
    }

    /// A cursor in front of an instruction, or at the end of the layout
    /// where the instruction has no place in it.
    pub fn at_inst(func: Function, inst: Inst) -> (c: FuncCursor)
        requires
            func.wf(),
        ensures
            c.wf(),
            c.func == func,
            c.pos == first_index(func.layout@, inst),
    {
        let mut pos: usize = 0;
        proof {
            assert(func.layout@.skip(0) =~= func.layout@);
        }
        while pos < func.layout.len()
            invariant
                func.wf(),
                pos <= func.layout@.len(),
                first_index(func.layout@, inst) == pos + first_index(func.layout@.skip(pos as int), inst),
            decreases func.layout@.len() - pos,
        {
            proof {
                assert(func.layout@.skip(pos as int)[0] == func.layout@[pos as int]);
                assert(func.layout@.skip(pos as int).drop_first() =~= func.layout@.skip(pos + 1));
            }
            if func.layout[pos].0 == inst.0 {
                return FuncCursor { func, pos };
            }
            pos = pos + 1;
        }
        proof {
            assert(func.layout@.skip(pos as int).len() == 0);
        }
        FuncCursor { func, pos }
    }

    /// The cursor after it has inserted one instruction: the instruction
    /// and its result are new, the instruction stands at the old position and
    /// the position has moved behind it.
    pub open spec fn inserted(self, data: InstructionData) -> (Seq<ValueDef>, Seq<InstructionData>, Seq<Inst>, int) {
        (
            self.func.defs@.push(ValueDef::Result(Inst(self.func.insts@.len() as u32))),
            self.func.insts@.push(data),
            self.func.layout@.insert(self.pos as int, Inst(self.func.insts@.len() as u32)),
            self.pos + 1,
        )
    }

    /// What a cursor holds, as plain sequences.
    pub open spec fn state(self) -> (Seq<ValueDef>, Seq<InstructionData>, Seq<Inst>, int) {
        (self.func.defs@, self.func.insts@, self.func.layout@, self.pos as int)
    }

    /// The value that the next inserted instruction defines.
    pub open spec fn next_value(self) -> Value {
        Value(self.func.defs@.len() as u32)
    }

    /// Inserts one instruction at the cursor and returns its result.
    pub fn ins(&mut self, opcode: Opcode, lhs: Value, rhs: Value) -> (v: Value)
        requires
            old(self).wf(),
            old(self).func.has_room(),
            lhs.0 < old(self).func.defs@.len(),
            rhs.0 < old(self).func.defs@.len(),
        ensures
            final(self).wf(),
            v == old(self).next_value(),
            final(self).state() == old(self).inserted(InstructionData { opcode, lhs, rhs }),
    {
        let inst = Inst(self.func.insts.len() as u32);
        let v = Value(self.func.defs.len() as u32);
        self.func.insts.push(InstructionData { opcode, lhs, rhs });
        self.func.defs.push(ValueDef::Result(inst));
        self.func.layout.insert(self.pos, inst);
        let len = self.func.layout.len();
        assert(self.pos < len);
        self.pos = self.pos + 1;
        v
    }
}

} // verus!
