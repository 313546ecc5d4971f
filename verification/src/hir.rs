//! The high-level IR: name-resolved expressions in evaluation order.
//!
//! Hierarchical IDs are user-visible: a module plus the path of keys
//! leading to the expression. They name the code to blame when a
//! computation panics. Within a lowered body, expressions carry flat local
//! IDs; references only point to IDs bound earlier in the same or an
//! enclosing body.

use crate::builtins::BuiltinFunction;
use crate::error::CompilerError;
use crate::module::Module;
use vstd::prelude::*;

verus! {

/// The identity of one expression within a lowered module, assigned in
/// lowering order.
#[derive(Debug, PartialEq, Eq, Clone, Copy, Hash, PartialOrd, Ord, Structural)]
pub struct LocalId(pub usize);

#[derive(Debug, PartialEq, Eq)]
pub enum Expression {
    Int(u64),
    Text(String),
    Reference(LocalId),
    Symbol(String),
    List(Vec<LocalId>),
    Struct(Vec<(LocalId, LocalId)>),
    Builtin(BuiltinFunction),
    Lambda { parameters: Vec<LocalId>, body: Body, fuzzable: bool },
    Call { function: LocalId, arguments: Vec<LocalId> },
    Needs { condition: LocalId, reason: Option<LocalId> },
    Error { errors: Vec<CompilerError> },
}

/// An ordered sequence of ID-named expressions plus the table of
/// user-visible names; the last expression's value is the body's result.
#[derive(Debug, PartialEq, Eq)]
pub struct Body {
    pub expressions: Vec<(LocalId, Expression)>,
    pub identifiers: Vec<(LocalId, String)>,
}

impl Body {
    pub fn new() -> (r: Self)
        ensures
            r.expressions@.len() == 0,
            r.identifiers@.len() == 0,
    {
        Body { expressions: Vec::new(), identifiers: Vec::new() }
    }
}

#[derive(Debug, PartialEq, Eq, Clone, Hash, PartialOrd, Ord)]
pub struct Id {
    pub module: Module,
    pub keys: Vec<String>,
}

impl Id {
    pub fn new(module: Module, keys: Vec<String>) -> (r: Self)
        ensures
            r.module == module,
            r.keys == keys,
    {
        Self { module, keys }
    }

    /// The identity of the generated `needs` function, which lives in the
    /// tooling package.
    pub fn needs() -> (r: Self)
        ensures
            r.keys@.len() == 1,
            r.keys@[0]@ == "needs"@,
    {
        let mut keys: Vec<String> = Vec::new();
        keys.push(<String as vstd::string::StringExecFns>::from_str("needs"));
        Self {
            module: Module {
                package: crate::module::Package::Anonymous(
                    <String as vstd::string::StringExecFns>::from_str("tooling"),
                ),
                path: Vec::new(),
                kind: crate::module::ModuleKind::Code,
            },
            keys,
        }
    }

    /// Whether this is the identity of the generated `needs` function.
    pub fn is_needs(&self) -> (r: bool)
        ensures
            r == (self.keys@.len() == 1 && self.keys@[0]@ == "needs"@),
    {
        if self.keys.len() != 1 {
            return false;
        }
        let k = &self.keys[0];
        string_eq_str(k, "needs")
    }
}

/// Whether the string equals the literal, character for character.
fn string_eq_str(s: &String, t: &str) -> (r: bool)
    ensures
        r == (s@ == t@),
{
    let n = s.as_str().unicode_len();
    let m = t.unicode_len();
    if n != m {
        return false;
    }
    let mut i: usize = 0;
    while i < n
        invariant
            i <= n,
            n == s@.len(),
            n == t@.len(),
            forall|j: int| 0 <= j < i ==> s@[j] == t@[j],
        decreases n - i,
    {
        if s.as_str().get_char(i) != t.get_char(i) {
            return false;
        }
        i = i + 1;
    }
    proof {
        assert(s@ =~= t@);
    }
    true
}

} // verus!
