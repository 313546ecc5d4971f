//! The low-level IR: a flat stack-machine instruction stream plus the
//! constants the instructions push.

use crate::builtins::BuiltinFunction;
use crate::hir;
use crate::strings::{dec_digits, push_char, u64_to_digits};
use vstd::prelude::*;

verus! {

/// The identity of one constant in the constant heap.
#[derive(Debug, PartialEq, Eq, Clone, Copy, Hash, PartialOrd, Ord, Structural)]
pub struct ConstantId(pub usize);

impl ConstantId {
    pub fn from_usize(id: usize) -> (r: Self)
        ensures
            r.0 == id,
    {
        Self(id)
    }

    pub fn to_usize(&self) -> (r: usize)
        ensures
            r == self.0,
    {
        self.0
    }

    /// The ID the way dumps write it: a percent sign and the decimal
    /// number.
    pub fn to_debug_string(&self) -> (r: String)
        ensures
            r@ == seq!['%'] + dec_digits(self.0 as nat),
    {
        let mut out = String::new();
        push_char(&mut out, '%');
        let digits = u64_to_digits(self.0 as u64);
        let tail = crate::strings::chars_to_string(digits.as_slice());
        out.append(tail.as_str());
        proof {
            assert(Seq::<char>::empty().push('%') =~= seq!['%']);
        }
        out
    }
}

/// A compile-time-known value in the shared constant heap.
#[derive(Debug, PartialEq, Eq)]
pub enum Constant {
    Int(i64),
    Text(String),
    Tag { symbol: String, value: Option<ConstantId> },
    Builtin(BuiltinFunction),
    List(Vec<ConstantId>),
    Struct(Vec<(ConstantId, ConstantId)>),
    HirId(hir::Id),
    Function { body: usize, num_args: usize },
}

/// The constant heap: constants addressed by their IDs, in creation order.
#[derive(Debug, PartialEq, Eq)]
pub struct Constants(pub Vec<Constant>);

impl Constants {
    pub fn new() -> (r: Self)
        ensures
            r.0@.len() == 0,
    {
        Constants(Vec::new())
    }

    pub fn get(&self, id: ConstantId) -> (r: &Constant)
        requires
            id.0 < self.0@.len(),
        ensures
            r == self.0@[id.0 as int],
    {
        &self.0[id.0]
    }

    /// Adds a constant and returns its fresh ID.
    pub fn push(&mut self, constant: Constant) -> (r: ConstantId)
        ensures
            r.0 == old(self).0@.len(),
            final(self).0@ == old(self).0@.push(constant),
    {
        let id = ConstantId(self.0.len());
        self.0.push(constant);
        id
    }

    pub fn len(&self) -> (r: usize)
        ensures
            r == self.0@.len(),
    {
        self.0.len()
    }
}

/// The virtual machine's instructions. `Create*` instructions pop their
/// parts off the data stack and push the created object; calls carry the
/// responsible HIR ID on the stack above the arguments.
#[derive(Debug, PartialEq, Eq)]
pub enum Instruction {
    /// Pushes the constant with the given ID.
    PushConstant(ConstantId),
    /// Pushes a copy of the value `offset` slots below the stack's top.
    PushFromStack { offset: usize },
    /// Keeps the top value and drops the `count` values below it.
    PopMultipleBelowTop { count: usize },
    CreateTag { symbol: String },
    CreateList { num_items: usize },
    CreateStruct { num_fields: usize },
    CreateFunction { captured_offsets: Vec<usize>, num_args: usize, body_start: usize },
    Call { num_args: usize },
    TailCall { num_args: usize, num_locals_to_pop: usize },
    Return,
    Panic,
    TraceCallStarts { num_args: usize },
    TraceCallEnds,
    TraceExpressionEvaluated,
    TraceFoundFuzzableFunction,
}

/// The compiled form of one module: its instructions and the constants
/// they share.
#[derive(Debug, PartialEq, Eq)]
pub struct Lir {
    pub constants: Constants,
    pub instructions: Vec<Instruction>,
    /// The instruction the module function starts at.
    pub module_function: usize,
}

/// Every constant reference in the constants and instructions points at an
/// earlier constant: the constant heap is built bottom-up and is acyclic.
pub open spec fn constants_wf(c: Constants) -> bool {
    forall|i: int|
        0 <= i < c.0@.len() ==> constant_refs_below(#[trigger] c.0@[i], i)
}

pub open spec fn constant_refs_below(c: Constant, bound: int) -> bool {
    match c {
        Constant::Tag { symbol, value } => match value {
            Some(id) => id.0 < bound,
            None => true,
        },
        Constant::List(items) => forall|j: int|
            0 <= j < items@.len() ==> (#[trigger] items@[j]).0 < bound,
        Constant::Struct(fields) => forall|j: int|
            0 <= j < fields@.len() ==> (#[trigger] fields@[j]).0.0 < bound && fields@[j].1.0
                < bound,
        _ => true,
    }
}

} // verus!
