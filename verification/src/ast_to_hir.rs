//! Lowering the AST to the HIR: name resolution and desugaring.
//!
//! The lowering is total: unresolved names and malformed constructs become
//! error expressions and compiler errors on the side, and every node's
//! origin is recorded so diagnostics can be traced back. Text
//! interpolation, struct access and `needs` lose their sugar here.

use crate::ast::{self, Ast, AstKind};
use crate::builtins::BuiltinFunction;
use crate::error::{CompilerError, CompilerErrorPayload, HirError};
use crate::hir::{Body, Expression, LocalId};
use crate::module::Module;
use crate::strings::str_eq;
use vstd::prelude::*;

verus! {

/// One sequence extends another: the old entries stay in place.
pub open spec fn seq_extends<T>(new: Seq<T>, old: Seq<T>) -> bool {
    new.len() >= old.len() && (forall|i: int| 0 <= i < old.len() ==> new[i] == old[i])
}

/// The state threaded through one module's lowering.
pub struct LoweringContext {
    pub module: Module,
    /// The next free local ID.
    pub id_generator: usize,
    /// The errors found so far, in discovery order.
    pub errors: Vec<CompilerError>,
    /// Where each lowered expression came from.
    pub hir_to_ast: Vec<(LocalId, ast::Id)>,
    /// The module's public assignments, in definition order.
    pub public_identifiers: Vec<(String, LocalId)>,
}

/// Lowering only ever adds: nothing already recorded changes.
pub open spec fn context_extends(new: LoweringContext, old: LoweringContext) -> bool {
    &&& new.module == old.module
    &&& new.id_generator >= old.id_generator
    &&& seq_extends(new.errors@, old.errors@)
    &&& seq_extends(new.hir_to_ast@, old.hir_to_ast@)
    &&& seq_extends(new.public_identifiers@, old.public_identifiers@)
}

pub open spec fn body_extends(new: Body, old: Body) -> bool {
    seq_extends(new.expressions@, old.expressions@) && seq_extends(
        new.identifiers@,
        old.identifiers@,
    )
}

/// The innermost binding of a name.
pub open spec fn scope_lookup(scope: Seq<(String, LocalId)>, name: Seq<char>) -> Option<LocalId>
    decreases scope.len(),
{
    if scope.len() == 0 {
        None
    } else if scope.last().0@ == name {
        Some(scope.last().1)
    } else {
        scope_lookup(scope.drop_last(), name)
    }
}

#[verifier::loop_isolation(false)]
fn lookup(scope: &Vec<(String, LocalId)>, name: &str) -> (r: Option<LocalId>)
    ensures
        r == scope_lookup(scope@, name@),
{
    let mut i = scope.len();
    proof {
        assert(scope@.subrange(0, scope@.len() as int) =~= scope@);
    }
    while i > 0
        invariant
            i <= scope@.len(),
            scope_lookup(scope@, name@) == scope_lookup(scope@.subrange(0, i as int), name@),
        decreases i,
    {
        i = i - 1;
        proof {
            assert(scope@.subrange(0, i + 1).last() == scope@[i as int]);
            assert(scope@.subrange(0, i + 1).drop_last() =~= scope@.subrange(0, i as int));
        }
        if str_eq(scope[i].0.as_str(), name) {
            return Some(scope[i].1);
        }
    }
    proof {
        assert(scope@.subrange(0, 0) =~= Seq::<(String, LocalId)>::empty());
    }
    None
}

impl LoweringContext {
    pub fn new(module: Module) -> (r: Self)
        ensures
            r.module == module,
            r.id_generator == 0,
            r.errors@.len() == 0,
            r.hir_to_ast@.len() == 0,
            r.public_identifiers@.len() == 0,
    {
        LoweringContext {
            module,
            id_generator: 0,
            errors: Vec::new(),
            hir_to_ast: Vec::new(),
            public_identifiers: Vec::new(),
        }
    }

    /// A local ID no expression uses yet; at the machine's last
    /// representable ID the counter stays put, so freshness ends there.
    fn create_next_id(&mut self) -> (r: LocalId)
        ensures
            context_extends(*final(self), *old(self)),
            r.0 == old(self).id_generator,
            old(self).id_generator < usize::MAX ==> final(self).id_generator == old(self).id_generator + 1,
            final(self).errors == old(self).errors,
            final(self).hir_to_ast == old(self).hir_to_ast,
            final(self).public_identifiers == old(self).public_identifiers,
    {
        let id = LocalId(self.id_generator);
        if self.id_generator < usize::MAX {
            self.id_generator = self.id_generator + 1;
        }
        id
    }

    /// Appends an expression to the body under a fresh ID, recording which
    /// AST node it came from.
    fn push(&mut self, body: &mut Body, expression: Expression, ast_id: Option<ast::Id>) -> (r:
        LocalId)
        ensures
            context_extends(*final(self), *old(self)),
            r.0 == old(self).id_generator,
            final(self).errors == old(self).errors,
            final(self).public_identifiers == old(self).public_identifiers,
            final(body).expressions@ == old(body).expressions@.push((r, expression)),
            final(body).identifiers == old(body).identifiers,
    {
        let id = self.create_next_id();
        match ast_id {
            Some(source) => self.hir_to_ast.push((id, source)),
            None => {},
        }
        body.expressions.push((id, expression));
        id
    }

    /// Records an error for the module.
    fn push_error(&mut self, payload: CompilerErrorPayload)
        ensures
            context_extends(*final(self), *old(self)),
            final(self).errors@.len() == old(self).errors@.len() + 1,
            final(self).errors@.last().payload == payload,
            final(self).hir_to_ast == old(self).hir_to_ast,
            final(self).public_identifiers == old(self).public_identifiers,
            final(self).id_generator == old(self).id_generator,
    {
        let module = self.module.clone();
        self.errors.push(CompilerError::for_whole_module(module, payload));
    }
}

/// Lowers a module's expressions. Returns the body, whose last expression
/// is the module's exports struct, along with the errors found and the map
/// from lowered IDs back to the AST.
#[verifier::loop_isolation(false)]
pub fn ast_to_hir(module: Module, asts: Vec<Ast>) -> (r: (
    Body,
    Vec<CompilerError>,
    Vec<(LocalId, ast::Id)>,
))
    ensures
        r.0.expressions@.len() > 0,
        r.0.expressions@.last().1 is Struct,
        // A module of bare identifiers has nothing in scope: every one of
        // them is reported as an unknown reference, in order.
        (forall|k: int| 0 <= k < asts@.len() ==> (#[trigger] asts@[k]).kind is Identifier) ==> (
        r.1@.len() == asts@.len() && (forall|k: int|
            0 <= k < asts@.len() ==> ((#[trigger] r.1@[k]).payload matches
                CompilerErrorPayload::Hir(HirError::UnknownReference { name }) && name@
                == asts@[k].kind->Identifier_0.0.value@))),
{
    let mut ctx = LoweringContext::new(module);
    let mut body = Body::new();
    let mut scope: Vec<(String, LocalId)> = Vec::new();
    let mut rest = asts;
    let ghost full = rest@;
    let ghost mut k: int = 0;
    while rest.len() > 0
        invariant
            0 <= k <= full.len(),
            rest@ =~= full.subrange(k, full.len() as int),
            (forall|j: int| 0 <= j < full.len() ==> (#[trigger] full[j]).kind is Identifier) ==> (
            scope@.len() == 0 && ctx.errors@.len() == k && (forall|j: int|
                0 <= j < k ==> ((#[trigger] ctx.errors@[j]).payload matches
                    CompilerErrorPayload::Hir(HirError::UnknownReference { name }) && name@
                    == full[j].kind->Identifier_0.0.value@))),
        decreases rest@.len(),
    {
        let first = rest.remove(0);
        proof {
            assert(first == full[k]);
        }
        let _ = compile_single(&mut ctx, &mut body, &mut scope, true, first);
        proof {
            k = k + 1;
            assert(rest@ =~= full.subrange(k, full.len() as int));
        }
    }
    // The module's return value: its exports, as a struct from symbol keys
    // to the assigned values.
    let ghost errors_after_lowering = ctx.errors@;
    let mut export_fields: Vec<(LocalId, LocalId)> = Vec::new();
    let mut i: usize = 0;
    let n = ctx.public_identifiers.len();
    while i < n
        invariant
            n == ctx.public_identifiers@.len(),
            i <= n,
            ctx.errors@ == errors_after_lowering,
        decreases n - i,
    {
        let name = ctx.public_identifiers[i].0.clone();
        let value = ctx.public_identifiers[i].1;
        let key = ctx.push(&mut body, Expression::Symbol(name), None);
        export_fields.push((key, value));
        i = i + 1;
    }
    let _ = ctx.push(&mut body, Expression::Struct(export_fields), None);
    (body, ctx.errors, ctx.hir_to_ast)
}

/// Lowers one expression into the body and returns its ID. Identifiers
/// resolve against the scope, innermost binding first; an unresolved name
/// becomes an error expression and an `UnknownReference` error.
#[verifier::loop_isolation(false)]
fn compile_single(
    ctx: &mut LoweringContext,
    body: &mut Body,
    scope: &mut Vec<(String, LocalId)>,
    is_top_level: bool,
    ast: Ast,
) -> (r: LocalId)
    ensures
        context_extends(*final(ctx), *old(ctx)),
        body_extends(*final(body), *old(body)),
        seq_extends(final(scope)@, old(scope)@),
        ast.kind matches AstKind::Identifier(n) ==> *final(scope) == *old(scope) && final(ctx).public_identifiers == old(ctx).public_identifiers && match scope_lookup(
            old(scope)@,
            n.0.value@,
        ) {
            Some(id) => final(body).expressions@ == old(body).expressions@.push(
                (r, Expression::Reference(id)),
            ) && final(ctx).errors == old(ctx).errors,
            None => final(ctx).errors@.len() == old(ctx).errors@.len() + 1
                && final(ctx).errors@.last().payload == CompilerErrorPayload::Hir(
                HirError::UnknownReference { name: n.0.value },
            ) && final(body).expressions@.len() == old(body).expressions@.len() + 1
                && final(body).expressions@.last().1 is Error,
        },
        ast.kind matches AstKind::Int(v) ==> final(body).expressions@ == old(body).expressions@.push((r, Expression::Int(v.0))) && final(ctx).errors == old(ctx).errors
            && *final(scope) == *old(scope),
        ast.kind matches AstKind::TextPart(part) ==> final(body).expressions@ == old(body).expressions@.push((r, Expression::Text(part.0.value))) && final(ctx).errors == old(ctx).errors && *final(scope) == *old(scope),
        ast.kind matches AstKind::Symbol(sym) ==> final(body).expressions@ == old(body).expressions@.push((r, Expression::Symbol(sym.0.value))) && final(ctx).errors == old(ctx).errors && *final(scope) == *old(scope),
        ast.kind is Text ==> final(body).expressions@.len() > old(body).expressions@.len()
            && final(body).expressions@.last().0 == r && (final(body).expressions@.last().1
            is Text || final(body).expressions@.last().1 is Call),
        ast.kind is List ==> final(body).expressions@.len() > old(body).expressions@.len()
            && final(body).expressions@.last().0 == r && final(body).expressions@.last().1
            is List,
        ast.kind is Struct ==> final(body).expressions@.len() > old(body).expressions@.len()
            && final(body).expressions@.last().0 == r && final(body).expressions@.last().1
            is Struct,
        ast.kind is StructAccess ==> final(body).expressions@.len() > old(body).expressions@.len() && final(body).expressions@.last().0 == r && final(body).expressions@.last().1 is Call,
        ast.kind is Lambda ==> final(body).expressions@.len() > old(body).expressions@.len()
            && final(body).expressions@.last().0 == r && final(body).expressions@.last().1
            is Lambda && final(scope)@ == old(scope)@,
        ast.kind matches AstKind::Call(c) ==> ({
            let is_needs_call = c.receiver.kind matches AstKind::Identifier(n) && n.0.value@
                == "needs"@;
            &&& (is_needs_call && 1 <= c.arguments@.len() <= 2 ==> final(body).expressions@.len() > old(body).expressions@.len() && final(body).expressions@.last().0 == r && final(body).expressions@.last().1 is Needs)
            &&& (is_needs_call && !(1 <= c.arguments@.len() <= 2) ==> final(ctx).errors@.len()
                == old(ctx).errors@.len() + 1 && (final(ctx).errors@.last().payload matches
                CompilerErrorPayload::Hir(HirError::NeedsWithWrongNumberOfArguments { num_args })
                && num_args == c.arguments@.len()) && final(body).expressions@.last().1 is Error)
            &&& (!is_needs_call ==> final(body).expressions@.len() > old(body).expressions@.len() && final(body).expressions@.last().0 == r && final(body).expressions@.last().1 is Call)
        }),
        ast.kind matches AstKind::Assignment(a) ==> final(scope)@.len() > old(scope)@.len()
            && final(scope)@.last().1 == r && final(scope)@.last().0@ == a.name.value@ && (
        a.is_public && !is_top_level ==> final(ctx).errors@.len() > old(ctx).errors@.len()
            && final(ctx).errors@[old(ctx).errors@.len() as int].payload
            == CompilerErrorPayload::Hir(HirError::PublicAssignmentInNotTopLevel)),
        ast.kind matches AstKind::Error { child, errors: recovered } ==> (child is None ==> final(ctx).errors@ == old(ctx).errors@ + recovered@ && final(body).expressions@.last().1 is Error
            && *final(scope) == *old(scope)),
    decreases ast, 2int,
{
    let ghost ast0 = ast;
    match ast.kind {
        AstKind::Int(int_value) => ctx.push(body, Expression::Int(int_value.0), Some(ast.id)),
        AstKind::TextPart(part) => ctx.push(body, Expression::Text(part.0.value), Some(ast.id)),
        AstKind::Identifier(identifier) => {
            let name = identifier.0.value;
            match lookup(scope, name.as_str()) {
                Some(id) => ctx.push(body, Expression::Reference(id), Some(ast.id)),
                None => {
                    ctx.push_error(
                        CompilerErrorPayload::Hir(HirError::UnknownReference { name }),
                    );
                    ctx.push(body, Expression::Error { errors: Vec::new() }, Some(ast.id))
                },
            }
        },
        AstKind::Symbol(symbol) => ctx.push(body, Expression::Symbol(symbol.0.value), Some(ast.id)),
        AstKind::Text(text) => {
            // Literal parts stay texts; interpolated expressions are turned
            // into their debug text. More than one part is concatenated
            // pairwise.
            let mut parts = text.0;
            let ghost full = parts@;
            let mut part_ids: Vec<LocalId> = Vec::new();
            let ghost mut k: int = 0;
            while parts.len() > 0
                invariant
                    0 <= k <= full.len(),
                    parts@ =~= full.subrange(k, full.len() as int),
                    full == ast0.kind->Text_0.0@,
                    context_extends(*ctx, *old(ctx)),
                    body_extends(*body, *old(body)),
                    seq_extends(scope@, old(scope)@),
                    part_ids@.len() > 0 ==> body.expressions@.len() > old(body).expressions@.len()
                        && body.expressions@.last().0 == part_ids@.last() && (
                    body.expressions@.last().1 is Text || body.expressions@.last().1 is Call),
                decreases parts@.len(),
            {
                let part = parts.remove(0);
                proof {
                    assert(part == full[k]);
                    assert(decreases_to!(ast0 => part));
                }
                let is_literal = match &part.kind {
                    AstKind::TextPart(_) => true,
                    _ => false,
                };
                if is_literal {
                    match part.kind {
                        AstKind::TextPart(literal) => {
                            let id = ctx.push(
                                body,
                                Expression::Text(literal.0.value),
                                Some(part.id),
                            );
                            part_ids.push(id);
                        },
                        _ => {},
                    }
                } else {
                    let value = compile_single(ctx, body, scope, false, part);
                    let to_debug = ctx.push(
                        body,
                        Expression::Builtin(BuiltinFunction::ToDebugText),
                        None,
                    );
                    let mut call_args: Vec<LocalId> = Vec::new();
                    call_args.push(value);
                    let id = ctx.push(
                        body,
                        Expression::Call { function: to_debug, arguments: call_args },
                        None,
                    );
                    part_ids.push(id);
                }
                proof {
                    k = k + 1;
                    assert(parts@ =~= full.subrange(k, full.len() as int));
                }
            }
            if part_ids.len() == 0 {
                ctx.push(body, Expression::Text(string_from_str("")), Some(ast.id))
            } else {
                let mut accumulated = part_ids[0];
                let mut i: usize = 1;
                while i < part_ids.len()
                    invariant
                        1 <= i <= part_ids@.len(),
                        context_extends(*ctx, *old(ctx)),
                        body_extends(*body, *old(body)),
                        seq_extends(scope@, old(scope)@),
                        body.expressions@.len() > old(body).expressions@.len(),
                        body.expressions@.last().1 is Text || body.expressions@.last().1 is Call,
                        i == 1 ==> accumulated == part_ids@[0] && body.expressions@.last().0
                            == part_ids@.last(),
                        i > 1 ==> body.expressions@.last().0 == accumulated,
                    decreases part_ids@.len() - i,
                {
                    let concatenate = ctx.push(
                        body,
                        Expression::Builtin(BuiltinFunction::TextConcatenate),
                        None,
                    );
                    let mut call_args: Vec<LocalId> = Vec::new();
                    call_args.push(accumulated);
                    call_args.push(part_ids[i]);
                    accumulated = ctx.push(
                        body,
                        Expression::Call { function: concatenate, arguments: call_args },
                        None,
                    );
                    i = i + 1;
                }
                accumulated
            }
        },
        AstKind::List(list) => {
            proof {
                assert forall|i: int| 0 <= i < list.0@.len() implies decreases_to!(
                    ast0 => #[trigger] list.0@[i]
                ) by {
                    assert(list.0@[i] == ast0.kind->List_0.0@[i]);
                }
            }
            let ids = compile_list(ctx, body, scope, Ghost(ast0), list.0);
            ctx.push(body, Expression::List(ids), Some(ast.id))
        },
        AstKind::Struct(struct_value) => {
            let mut fields = struct_value.fields;
            let ghost full = fields@;
            let mut lowered: Vec<(LocalId, LocalId)> = Vec::new();
            let ghost mut k: int = 0;
            while fields.len() > 0
                invariant
                    0 <= k <= full.len(),
                    fields@ =~= full.subrange(k, full.len() as int),
                    full == ast0.kind->Struct_0.fields@,
                    context_extends(*ctx, *old(ctx)),
                    body_extends(*body, *old(body)),
                    seq_extends(scope@, old(scope)@),
                decreases fields@.len(),
            {
                let pair = fields.remove(0);
                proof {
                    assert(pair == full[k]);
                    assert(decreases_to!(ast0 => pair.0));
                    assert(decreases_to!(ast0 => pair.1));
                }
                let (key_ast, value_ast) = pair;
                let key = compile_single(ctx, body, scope, false, key_ast);
                let value = compile_single(ctx, body, scope, false, value_ast);
                lowered.push((key, value));
                proof {
                    k = k + 1;
                    assert(fields@ =~= full.subrange(k, full.len() as int));
                }
            }
            ctx.push(body, Expression::Struct(lowered), Some(ast.id))
        },
        AstKind::StructAccess(access) => {
            let receiver = *access.struct_;
            proof {
                assert(decreases_to!(ast0 => receiver));
            }
            let struct_id = compile_single(ctx, body, scope, false, receiver);
            let key = ctx.push(body, Expression::Symbol(access.key.value), None);
            let getter = ctx.push(body, Expression::Builtin(BuiltinFunction::StructGet), None);
            let mut call_args: Vec<LocalId> = Vec::new();
            call_args.push(struct_id);
            call_args.push(key);
            ctx.push(
                body,
                Expression::Call { function: getter, arguments: call_args },
                Some(ast.id),
            )
        },
        AstKind::Lambda(lambda) => {
            proof {
                assert forall|i: int| 0 <= i < lambda.body@.len() implies decreases_to!(
                    ast0 => #[trigger] lambda.body@[i]
                ) by {
                    assert(lambda.body@[i] == ast0.kind->Lambda_0.body@[i]);
                }
            }
            compile_lambda(ctx, body, scope, Ghost(ast0), lambda, Some(ast.id))
        },
        AstKind::Call(call) => {
            let receiver = *call.receiver;
            let needs_name = match &receiver.kind {
                AstKind::Identifier(identifier) => str_eq(
                    identifier.0.value.as_str(),
                    "needs",
                ),
                _ => false,
            };
            if needs_name {
                // `needs` takes a condition and an optional reason.
                let num_args = call.arguments.len();
                if num_args == 0 || num_args > 2 {
                    ctx.push_error(
                        CompilerErrorPayload::Hir(
                            HirError::NeedsWithWrongNumberOfArguments { num_args },
                        ),
                    );
                    return ctx.push(body, Expression::Error { errors: Vec::new() }, Some(ast.id));
                }
                proof {
                    assert forall|i: int| 0 <= i < call.arguments@.len() implies decreases_to!(
                        ast0 => #[trigger] call.arguments@[i]
                    ) by {
                        assert(call.arguments@[i] == ast0.kind->Call_0.arguments@[i]);
                    }
                }
                let mut ids = compile_list(ctx, body, scope, Ghost(ast0), call.arguments);
                let condition = ids.remove(0);
                let reason = if ids.len() > 0 {
                    Some(ids.remove(0))
                } else {
                    None
                };
                ctx.push(body, Expression::Needs { condition, reason }, Some(ast.id))
            } else {
                proof {
                    assert(decreases_to!(ast0 => receiver));
                    assert forall|i: int| 0 <= i < call.arguments@.len() implies decreases_to!(
                        ast0 => #[trigger] call.arguments@[i]
                    ) by {
                        assert(call.arguments@[i] == ast0.kind->Call_0.arguments@[i]);
                    }
                }
                let function = compile_single(ctx, body, scope, false, receiver);
                let arguments = compile_list(ctx, body, scope, Ghost(ast0), call.arguments);
                ctx.push(body, Expression::Call { function, arguments }, Some(ast.id))
            }
        },
        AstKind::Assignment(assignment) => {
            if assignment.is_public && !is_top_level {
                ctx.push_error(
                    CompilerErrorPayload::Hir(HirError::PublicAssignmentInNotTopLevel),
                );
            }
            let name = assignment.name.value;
            let value_id = match assignment.body {
                ast::AssignmentBody::Lambda(lambda) => {
                    proof {
                        assert forall|i: int| 0 <= i < lambda.body@.len() implies decreases_to!(
                            ast0 => #[trigger] lambda.body@[i]
                        ) by {
                            assert(lambda.body@[i]
                                == ast0.kind->Assignment_0.body->Lambda_0.body@[i]);
                        }
                    }
                    compile_lambda(ctx, body, scope, Ghost(ast0), lambda, Some(ast.id))
                },
                ast::AssignmentBody::Body(asts) => {
                    proof {
                        assert forall|i: int| 0 <= i < asts@.len() implies decreases_to!(
                            ast0 => #[trigger] asts@[i]
                        ) by {
                            assert(asts@[i] == ast0.kind->Assignment_0.body->Body_0@[i]);
                        }
                    }
                    let ids = compile_list(ctx, body, scope, Ghost(ast0), asts);
                    if ids.len() > 0 {
                        ids[ids.len() - 1]
                    } else {
                        ctx.push(body, Expression::Symbol(string_from_str("Nothing")), None)
                    }
                },
            };
            body.identifiers.push((value_id, name.clone()));
            scope.push((name.clone(), value_id));
            if assignment.is_public && is_top_level {
                let mut already_public = false;
                let mut i: usize = 0;
                let n = ctx.public_identifiers.len();
                while i < n
                    invariant
                        n == ctx.public_identifiers@.len(),
                        i <= n,
                    decreases n - i,
                {
                    if str_eq(ctx.public_identifiers[i].0.as_str(), name.as_str()) {
                        already_public = true;
                    }
                    i = i + 1;
                }
                if already_public {
                    ctx.push_error(
                        CompilerErrorPayload::Hir(HirError::PublicAssignmentWithSameName { name }),
                    );
                } else {
                    ctx.public_identifiers.push((name, value_id));
                }
            }
            value_id
        },
        AstKind::Error { child, errors } => {
            let mut recovered = errors;
            ctx.errors.append(&mut recovered);
            match child {
                Some(inner) => {
                    let inner_ast = *inner;
                    proof {
                        assert(decreases_to!(ast0 => inner_ast));
                    }
                    compile_single(ctx, body, scope, is_top_level, inner_ast)
                },
                None => ctx.push(body, Expression::Error { errors: Vec::new() }, Some(ast.id)),
            }
        },
    }
}

/// Lowers a list of expressions in order and returns their IDs.
#[verifier::loop_isolation(false)]
fn compile_list(
    ctx: &mut LoweringContext,
    body: &mut Body,
    scope: &mut Vec<(String, LocalId)>,
    parent: Ghost<Ast>,
    asts: Vec<Ast>,
) -> (r: Vec<LocalId>)
    requires
        forall|i: int| 0 <= i < asts@.len() ==> decreases_to!(parent@ => #[trigger] asts@[i]),
    ensures
        context_extends(*final(ctx), *old(ctx)),
        body_extends(*final(body), *old(body)),
        seq_extends(final(scope)@, old(scope)@),
        r@.len() == asts@.len(),
    decreases parent@, 0int,
{
    let mut rest = asts;
    let ghost full = rest@;
    let mut ids: Vec<LocalId> = Vec::new();
    let ghost mut k: int = 0;
    while rest.len() > 0
        invariant
            0 <= k <= full.len(),
            rest@ =~= full.subrange(k, full.len() as int),
            ids@.len() == k,
            context_extends(*ctx, *old(ctx)),
            body_extends(*body, *old(body)),
            seq_extends(scope@, old(scope)@),
        decreases rest@.len(),
    {
        let first = rest.remove(0);
        proof {
            assert(first == full[k]);
            assert(decreases_to!(parent@ => first));
        }
        let id = compile_single(ctx, body, scope, false, first);
        ids.push(id);
        proof {
            k = k + 1;
            assert(rest@ =~= full.subrange(k, full.len() as int));
        }
    }
    ids
}

/// Lowers a lambda: fresh IDs for the parameters, the body in a scope
/// extended with them, and the lambda expression in the outer body. The
/// scope is as before afterwards.
#[verifier::loop_isolation(false)]
fn compile_lambda(
    ctx: &mut LoweringContext,
    outer_body: &mut Body,
    scope: &mut Vec<(String, LocalId)>,
    parent: Ghost<Ast>,
    lambda: ast::Lambda,
    ast_id: Option<ast::Id>,
) -> (r: LocalId)
    requires
        forall|i: int|
            0 <= i < lambda.body@.len() ==> decreases_to!(parent@ => #[trigger] lambda.body@[i]),
    ensures
        context_extends(*final(ctx), *old(ctx)),
        body_extends(*final(outer_body), *old(outer_body)),
        final(scope)@ == old(scope)@,
        final(outer_body).expressions@.len() == old(outer_body).expressions@.len() + 1,
        final(outer_body).expressions@.last().0 == r,
        final(outer_body).expressions@.last().1 is Lambda,
    decreases parent@, 1int,
{
    let scope_len = scope.len();
    let mut inner = Body::new();
    let mut parameters: Vec<LocalId> = Vec::new();
    let mut names = lambda.parameters;
    while names.len() > 0
        invariant
            context_extends(*ctx, *old(ctx)),
            seq_extends(scope@, old(scope)@),
        decreases names@.len(),
    {
        let name = names.remove(0);
        let id = ctx.create_next_id();
        parameters.push(id);
        inner.identifiers.push((id, name.value.clone()));
        scope.push((name.value, id));
    }
    let body_asts = lambda.body;
    let _ = compile_list(ctx, &mut inner, scope, parent, body_asts);
    if inner.expressions.len() == 0 {
        // A lambda without expressions evaluates to `Nothing`.
        let _ = ctx.push(&mut inner, Expression::Symbol(string_from_str("Nothing")), None);
    }
    scope.truncate(scope_len);
    proof {
        assert(final_scope_restored(old(scope)@, scope@));
    }
    ctx.push(
        outer_body,
        Expression::Lambda { parameters, body: inner, fuzzable: lambda.fuzzable },
        ast_id,
    )
}

/// Truncating back to the entry length restores the scope exactly.
pub open spec fn final_scope_restored(
    old_scope: Seq<(String, LocalId)>,
    new_scope: Seq<(String, LocalId)>,
) -> bool {
    new_scope =~= old_scope
}

/// The first recorded AST origin of a lowered expression.
pub open spec fn spec_hir_to_ast_id(map: Seq<(LocalId, ast::Id)>, id: LocalId) -> Option<ast::Id>
    decreases map.len(),
{
    if map.len() == 0 {
        None
    } else if map[0].0 == id {
        Some(map[0].1)
    } else {
        spec_hir_to_ast_id(map.drop_first(), id)
    }
}

/// The AST node a lowered expression came from, if it has a source origin;
/// generated helpers have none.
#[verifier::loop_isolation(false)]
pub fn hir_to_ast_id<'a>(map: &'a Vec<(LocalId, ast::Id)>, id: LocalId) -> (r: Option<&'a ast::Id>)
    ensures
        match r {
            Some(ast_id) => spec_hir_to_ast_id(map@, id) == Some(*ast_id),
            None => spec_hir_to_ast_id(map@, id) is None,
        },
{
    let mut i: usize = 0;
    proof {
        assert(map@.subrange(0, map@.len() as int) =~= map@);
    }
    while i < map.len()
        invariant
            i <= map@.len(),
            spec_hir_to_ast_id(map@, id) == spec_hir_to_ast_id(
                map@.subrange(i as int, map@.len() as int),
                id,
            ),
        decreases map@.len() - i,
    {
        proof {
            let tail = map@.subrange(i as int, map@.len() as int);
            assert(tail[0] == map@[i as int]);
            assert(tail.drop_first() =~= map@.subrange(i + 1, map@.len() as int));
        }
        if map[i].0 == id {
            return Some(&map[i].1);
        }
        i = i + 1;
    }
    proof {
        assert(map@.subrange(map@.len() as int, map@.len() as int) =~= Seq::<(
            LocalId,
            ast::Id,
        )>::empty());
    }
    None
}

fn string_from_str(s: &str) -> (r: String)
    ensures
        r@ == s@,
{
    <String as vstd::string::StringExecFns>::from_str(s)
}

} // verus!
