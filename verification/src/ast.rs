//! The abstract syntax tree: the concrete tree with whitespace and
//! punctuation stripped, ready for name resolution.
//!
//! Errors found while lowering stay in the tree as `Error` nodes so that
//! later stages can keep working; `CollectErrors` gathers them in tree
//! order.

use crate::error::CompilerError;
use crate::module::Module;
use vstd::prelude::*;

verus! {

/// An AST node's identity: a module plus a counter local to it.
#[derive(Debug, PartialEq, Eq, Clone, Hash)]
pub struct Id {
    pub module: Module,
    pub local: usize,
}

impl Id {
    pub fn new(module: Module, local: usize) -> (r: Self)
        ensures
            r.module == module,
            r.local == local,
    {
        Self { module, local }
    }
}

#[derive(Debug, PartialEq, Eq)]
pub struct Ast {
    pub id: Id,
    pub kind: AstKind,
}

#[derive(Debug, PartialEq, Eq)]
pub enum AstKind {
    Int(Int),
    Text(Text),
    TextPart(TextPart),
    Identifier(Identifier),
    Symbol(Symbol),
    List(List),
    Struct(Struct),
    StructAccess(StructAccess),
    Lambda(Lambda),
    Call(Call),
    Assignment(Assignment),
    Error {
        /// The child may be set if it still makes sense to continue working
        /// with the error-containing subtree.
        child: Option<Box<Ast>>,
        errors: Vec<CompilerError>,
    },
}

#[derive(Debug, PartialEq, Eq)]
pub struct Int(pub u64);

#[derive(Debug, PartialEq, Eq)]
pub struct Text(pub Vec<Ast>);

#[derive(Debug, PartialEq, Eq)]
pub struct TextPart(pub AstString);

#[derive(Debug, PartialEq, Eq)]
pub struct Identifier(pub AstString);

#[derive(Debug, PartialEq, Eq)]
pub struct Symbol(pub AstString);

#[derive(Debug, PartialEq, Eq)]
pub struct List(pub Vec<Ast>);

/// Struct fields in source order; a later field with the same key shadows
/// an earlier one at evaluation time.
#[derive(Debug, PartialEq, Eq)]
pub struct Struct {
    pub fields: Vec<(Ast, Ast)>,
}

#[derive(Debug, PartialEq, Eq)]
pub struct StructAccess {
    pub struct_: Box<Ast>,
    pub key: AstString,
}

#[derive(Debug, PartialEq, Eq)]
pub struct Lambda {
    pub parameters: Vec<AstString>,
    pub body: Vec<Ast>,
    pub fuzzable: bool,
}

#[derive(Debug, PartialEq, Eq)]
pub struct Call {
    pub receiver: Box<Ast>,
    pub arguments: Vec<Ast>,
}

#[derive(Debug, PartialEq, Eq)]
pub struct Assignment {
    pub name: AstString,
    pub is_public: bool,
    pub body: AssignmentBody,
}

#[derive(Debug, PartialEq, Eq)]
pub enum AssignmentBody {
    Lambda(Lambda),
    Body(Vec<Ast>),
}

#[derive(Debug, PartialEq, Eq, Clone, Hash)]
pub struct AstString {
    pub id: Id,
    pub value: String,
}

/// The compiler errors recorded in a subtree, in depth-first order. The
/// receiver of a call contributes none: its errors surface where it was
/// defined.
pub open spec fn ast_errors(a: Ast) -> Seq<CompilerError>
    decreases a,
{
    match a.kind {
        AstKind::Int(_) => Seq::empty(),
        AstKind::Text(t) => asts_errors(t.0@),
        AstKind::TextPart(_) => Seq::empty(),
        AstKind::Identifier(_) => Seq::empty(),
        AstKind::Symbol(_) => Seq::empty(),
        AstKind::List(l) => asts_errors(l.0@),
        AstKind::Struct(s) => fields_errors(s.fields@),
        AstKind::StructAccess(access) => ast_errors(*access.struct_),
        AstKind::Lambda(lambda) => asts_errors(lambda.body@),
        AstKind::Call(call) => asts_errors(call.arguments@),
        AstKind::Assignment(assignment) => match assignment.body {
            AssignmentBody::Lambda(lambda) => asts_errors(lambda.body@),
            AssignmentBody::Body(body) => asts_errors(body@),
        },
        AstKind::Error { child, errors } => errors@ + match child {
            Some(c) => ast_errors(*c),
            None => Seq::empty(),
        },
    }
}

pub open spec fn asts_errors(s: Seq<Ast>) -> Seq<CompilerError>
    decreases s,
{
    if s.len() == 0 {
        Seq::empty()
    } else {
        ast_errors(s[0]) + asts_errors(s.drop_first())
    }
}

pub open spec fn fields_errors(s: Seq<(Ast, Ast)>) -> Seq<CompilerError>
    decreases s,
{
    if s.len() == 0 {
        Seq::empty()
    } else {
        ast_errors(s[0].0) + ast_errors(s[0].1) + fields_errors(s.drop_first())
    }
}

proof fn lemma_asts_errors_push(s: Seq<Ast>, x: Ast)
    ensures
        asts_errors(s.push(x)) == asts_errors(s) + ast_errors(x),
    decreases s.len(),
{
    if s.len() == 0 {
        assert(s.push(x).drop_first() =~= s);
        assert(s.push(x)[0] == x);
        assert(asts_errors(s.push(x)) =~= asts_errors(s) + ast_errors(x));
    } else {
        lemma_asts_errors_push(s.drop_first(), x);
        assert(s.push(x).drop_first() =~= s.drop_first().push(x));
        assert(s.push(x)[0] == s[0]);
        assert(asts_errors(s.push(x)) =~= asts_errors(s) + ast_errors(x));
    }
}

proof fn lemma_fields_errors_push(s: Seq<(Ast, Ast)>, x: (Ast, Ast))
    ensures
        fields_errors(s.push(x)) == fields_errors(s) + ast_errors(x.0) + ast_errors(x.1),
    decreases s.len(),
{
    if s.len() == 0 {
        assert(s.push(x).drop_first() =~= s);
        assert(s.push(x)[0] == x);
        assert(fields_errors(s.push(x)) =~= fields_errors(s) + ast_errors(x.0) + ast_errors(x.1));
    } else {
        lemma_fields_errors_push(s.drop_first(), x);
        assert(s.push(x).drop_first() =~= s.drop_first().push(x));
        assert(s.push(x)[0] == s[0]);
        assert(fields_errors(s.push(x)) =~= fields_errors(s) + ast_errors(x.0) + ast_errors(x.1));
    }
}

pub trait CollectErrors {
    fn collect_errors(self, errors: &mut Vec<CompilerError>);
}

impl CollectErrors for Ast {
    /// Appends every error recorded in the tree, in depth-first order.
    fn collect_errors(self, errors: &mut Vec<CompilerError>)
        ensures
            final(errors)@ == old(errors)@ + ast_errors(self),
    {
        collect_ast_errors(self, errors);
    }
}

impl CollectErrors for Vec<Ast> {
    /// Appends every error recorded in any of the trees, in order.
    fn collect_errors(self, errors: &mut Vec<CompilerError>)
        ensures
            final(errors)@ == old(errors)@ + asts_errors(self@),
    {
        collect_vec_ast_errors(self, errors);
    }
}

#[verifier::loop_isolation(false)]
fn collect_vec_ast_errors(asts: Vec<Ast>, errors: &mut Vec<CompilerError>)
    ensures
        final(errors)@ == old(errors)@ + asts_errors(asts@),
{
    let mut rest = asts;
    let ghost full = rest@;
    let ghost mut k: int = 0;
    while rest.len() > 0
        invariant
            0 <= k <= full.len(),
            rest@ =~= full.subrange(k, full.len() as int),
            errors@ =~= old(errors)@ + asts_errors(full.subrange(0, k)),
        decreases rest@.len(),
    {
        let first = rest.remove(0);
        proof {
            assert(first == full[k]);
        }
        collect_ast_errors(first, errors);
        proof {
            lemma_asts_errors_push(full.subrange(0, k), first);
            assert(full.subrange(0, k + 1) =~= full.subrange(0, k).push(first));
            k = k + 1;
            assert(rest@ =~= full.subrange(k, full.len() as int));
        }
    }
    proof {
        assert(full.subrange(0, full.len() as int) =~= full);
    }
}

#[verifier::loop_isolation(false)]
fn collect_ast_errors(ast: Ast, errors: &mut Vec<CompilerError>)
    ensures
        final(errors)@ == old(errors)@ + ast_errors(ast),
    decreases ast, 1int,
{
    let ghost ast0 = ast;
    let ghost start = errors@;
    match ast.kind {
        AstKind::Int(_) => {
            assert(errors@ =~= start + ast_errors(ast0));
        },
        AstKind::TextPart(_) => {
            assert(errors@ =~= start + ast_errors(ast0));
        },
        AstKind::Identifier(_) => {
            assert(errors@ =~= start + ast_errors(ast0));
        },
        AstKind::Symbol(_) => {
            assert(errors@ =~= start + ast_errors(ast0));
        },
        AstKind::Text(t) => {
            let parts = t.0;
            proof {
                assert forall|i: int| 0 <= i < parts@.len() implies decreases_to!(
                    ast0 => #[trigger] parts@[i]
                ) by {
                    assert(parts@[i] == ast0.kind->Text_0.0@[i]);
                }
            }
            collect_from_list(Ghost(ast0), parts, errors);
        },
        AstKind::List(l) => {
            let items = l.0;
            proof {
                assert forall|i: int| 0 <= i < items@.len() implies decreases_to!(
                    ast0 => #[trigger] items@[i]
                ) by {
                    assert(items@[i] == ast0.kind->List_0.0@[i]);
                }
            }
            collect_from_list(Ghost(ast0), items, errors);
        },
        AstKind::Struct(s) => {
            let mut rest = s.fields;
            let ghost full = rest@;
            let ghost mut k: int = 0;
            while rest.len() > 0
                invariant
                    0 <= k <= full.len(),
                    rest@ =~= full.subrange(k, full.len() as int),
                    errors@ =~= start + fields_errors(full.subrange(0, k)),
                    full == ast0.kind->Struct_0.fields@,
                decreases rest@.len(),
            {
                let first = rest.remove(0);
                proof {
                    assert(first == full[k]);
                    assert(decreases_to!(ast0 => first.0));
                    assert(decreases_to!(ast0 => first.1));
                }
                let (key, value) = first;
                collect_ast_errors(key, errors);
                collect_ast_errors(value, errors);
                proof {
                    lemma_fields_errors_push(full.subrange(0, k), first);
                    assert(full.subrange(0, k + 1) =~= full.subrange(0, k).push(first));
                    k = k + 1;
                    assert(rest@ =~= full.subrange(k, full.len() as int));
                }
            }
            proof {
                assert(full.subrange(0, full.len() as int) =~= full);
            }
        },
        AstKind::StructAccess(access) => {
            let inner = *access.struct_;
            proof {
                assert(decreases_to!(ast0 => inner));
            }
            collect_ast_errors(inner, errors);
        },
        AstKind::Lambda(lambda) => {
            let body = lambda.body;
            proof {
                assert forall|i: int| 0 <= i < body@.len() implies decreases_to!(
                    ast0 => #[trigger] body@[i]
                ) by {
                    assert(body@[i] == ast0.kind->Lambda_0.body@[i]);
                }
            }
            collect_from_list(Ghost(ast0), body, errors);
        },
        AstKind::Call(call) => {
            let arguments = call.arguments;
            proof {
                assert forall|i: int| 0 <= i < arguments@.len() implies decreases_to!(
                    ast0 => #[trigger] arguments@[i]
                ) by {
                    assert(arguments@[i] == ast0.kind->Call_0.arguments@[i]);
                }
            }
            collect_from_list(Ghost(ast0), arguments, errors);
        },
        AstKind::Assignment(assignment) => {
            match assignment.body {
                AssignmentBody::Lambda(lambda) => {
                    let body = lambda.body;
                    proof {
                        assert forall|i: int| 0 <= i < body@.len() implies decreases_to!(
                            ast0 => #[trigger] body@[i]
                        ) by {
                            assert(body@[i]
                                == ast0.kind->Assignment_0.body->Lambda_0.body@[i]);
                        }
                    }
                    collect_from_list(Ghost(ast0), body, errors);
                },
                AssignmentBody::Body(body) => {
                    proof {
                        assert forall|i: int| 0 <= i < body@.len() implies decreases_to!(
                            ast0 => #[trigger] body@[i]
                        ) by {
                            assert(body@[i] == ast0.kind->Assignment_0.body->Body_0@[i]);
                        }
                    }
                    collect_from_list(Ghost(ast0), body, errors);
                },
            }
        },
        AstKind::Error { child, errors: mut recovered_errors } => {
            errors.append(&mut recovered_errors);
            match child {
                Some(c) => {
                    let inner = *c;
                    proof {
                        assert(decreases_to!(ast0 => inner));
                    }
                    collect_ast_errors(inner, errors);
                    proof {
                        assert(errors@ =~= start + ast_errors(ast0));
                    }
                },
                None => {
                    assert(errors@ =~= start + ast_errors(ast0));
                },
            }
        },
    }
}

/// Collects the errors of each tree in the list, in order. The ghost
/// parent is the node the trees were taken from; it justifies that the
/// recursion descends.
#[verifier::loop_isolation(false)]
fn collect_from_list(parent: Ghost<Ast>, asts: Vec<Ast>, errors: &mut Vec<CompilerError>)
    requires
        forall|i: int| 0 <= i < asts@.len() ==> decreases_to!(parent@ => #[trigger] asts@[i]),
    ensures
        final(errors)@ == old(errors)@ + asts_errors(asts@),
    decreases parent@, 0int,
{
    let mut rest = asts;
    let ghost full = rest@;
    let ghost mut k: int = 0;
    while rest.len() > 0
        invariant
            0 <= k <= full.len(),
            rest@ =~= full.subrange(k, full.len() as int),
            errors@ =~= old(errors)@ + asts_errors(full.subrange(0, k)),
        decreases rest@.len(),
    {
        let first = rest.remove(0);
        proof {
            assert(first == full[k]);
            assert(decreases_to!(parent@ => first));
        }
        collect_ast_errors(first, errors);
        proof {
            lemma_asts_errors_push(full.subrange(0, k), first);
            assert(full.subrange(0, k + 1) =~= full.subrange(0, k).push(first));
            k = k + 1;
            assert(rest@ =~= full.subrange(k, full.len() as int));
        }
    }
    proof {
        assert(full.subrange(0, full.len() as int) =~= full);
    }
}

} // verus!
