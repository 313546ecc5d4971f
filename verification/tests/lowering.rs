use candy::ast::{
    Assignment, AssignmentBody, Ast, AstKind, AstString, Call, Id as AstId, Identifier, Int,
    Lambda, Text, TextPart,
};
use candy::ast_to_hir::{ast_to_hir, hir_to_ast_id};
use candy::builtins::BuiltinFunction;
use candy::hir::Expression;
use candy::{CompilerErrorPayload, HirError, Module};

fn module() -> Module {
    Module::from_package_name("Test".to_string())
}

fn ast_id(local: usize) -> AstId {
    AstId::new(module(), local)
}

fn ast_string(local: usize, value: &str) -> AstString {
    AstString { id: ast_id(local), value: value.to_string() }
}

fn identifier(local: usize, name: &str) -> Ast {
    Ast { id: ast_id(local), kind: AstKind::Identifier(Identifier(ast_string(local, name))) }
}

fn int_node(local: usize, value: u64) -> Ast {
    Ast { id: ast_id(local), kind: AstKind::Int(Int(value)) }
}

fn assignment(local: usize, name: &str, is_public: bool, body: Vec<Ast>) -> Ast {
    Ast {
        id: ast_id(local),
        kind: AstKind::Assignment(Assignment {
            name: ast_string(local, name),
            is_public,
            body: AssignmentBody::Body(body),
        }),
    }
}

#[test]
fn unknown_references_become_errors() {
    // `main = { environment -> foo }` with no `foo` in scope: the HIR keeps
    // an error expression and the error names the reference.
    let (body, errors, _) = ast_to_hir(module(), vec![identifier(0, "foo")]);
    assert_eq!(errors.len(), 1);
    assert_eq!(
        errors[0].payload,
        CompilerErrorPayload::Hir(HirError::UnknownReference { name: "foo".to_string() })
    );
    assert!(body.expressions.iter().any(|(_, e)| matches!(e, Expression::Error { .. })));
}

#[test]
fn assignments_bind_names_for_later_references() {
    let asts = vec![assignment(0, "a", false, vec![int_node(1, 1)]), identifier(2, "a")];
    let (body, errors, _) = ast_to_hir(module(), asts);
    assert!(errors.is_empty());
    let int_id = body
        .expressions
        .iter()
        .find(|(_, e)| matches!(e, Expression::Int(1)))
        .map(|(id, _)| *id)
        .unwrap();
    assert!(body
        .expressions
        .iter()
        .any(|(_, e)| matches!(e, Expression::Reference(id) if *id == int_id)));
    assert!(body.identifiers.iter().any(|(id, name)| *id == int_id && name == "a"));
}

#[test]
fn the_module_returns_its_exports() {
    let asts = vec![
        assignment(0, "visible", true, vec![int_node(1, 1)]),
        assignment(2, "hidden", false, vec![int_node(3, 2)]),
    ];
    let (body, errors, _) = ast_to_hir(module(), asts);
    assert!(errors.is_empty());
    match &body.expressions.last().unwrap().1 {
        Expression::Struct(fields) => assert_eq!(fields.len(), 1),
        other => panic!("expected the exports struct, got {other:?}"),
    }
}

#[test]
fn duplicate_public_names_are_rejected() {
    let asts = vec![
        assignment(0, "name", true, vec![int_node(1, 1)]),
        assignment(2, "name", true, vec![int_node(3, 2)]),
    ];
    let (_, errors, _) = ast_to_hir(module(), asts);
    assert_eq!(
        errors,
        vec![candy::CompilerError::for_whole_module(
            module(),
            CompilerErrorPayload::Hir(HirError::PublicAssignmentWithSameName {
                name: "name".to_string(),
            }),
        )]
    );
}

#[test]
fn public_assignments_below_top_level_are_rejected() {
    let inner = assignment(2, "inner", true, vec![int_node(3, 1)]);
    let lambda = Ast {
        id: ast_id(1),
        kind: AstKind::Lambda(Lambda { parameters: vec![], body: vec![inner], fuzzable: true }),
    };
    let asts = vec![assignment(0, "outer", false, vec![lambda])];
    let (_, errors, _) = ast_to_hir(module(), asts);
    assert_eq!(errors.len(), 1);
    assert_eq!(
        errors[0].payload,
        CompilerErrorPayload::Hir(HirError::PublicAssignmentInNotTopLevel)
    );
}

#[test]
fn needs_desugars_by_arity() {
    let needs_call = |local: usize, arguments: Vec<Ast>| Ast {
        id: ast_id(local),
        kind: AstKind::Call(Call {
            receiver: Box::new(identifier(local + 1, "needs")),
            arguments,
        }),
    };
    let condition = |local: usize| Ast {
        id: ast_id(local),
        kind: AstKind::Symbol(candy::ast::Symbol(ast_string(local, "False"))),
    };

    let (body, errors, _) = ast_to_hir(module(), vec![needs_call(0, vec![condition(2)])]);
    assert!(errors.is_empty());
    assert!(body
        .expressions
        .iter()
        .any(|(_, e)| matches!(e, Expression::Needs { reason: None, .. })));

    let too_many = needs_call(10, vec![condition(12), condition(13), condition(14)]);
    let (_, errors, _) = ast_to_hir(module(), vec![too_many]);
    assert_eq!(errors.len(), 1);
    assert_eq!(
        errors[0].payload,
        CompilerErrorPayload::Hir(HirError::NeedsWithWrongNumberOfArguments { num_args: 3 })
    );
}

#[test]
fn text_interpolation_desugars_into_calls() {
    // `"x = {2}"`: the literal part stays a text, the interpolated int goes
    // through its debug text, and the parts are concatenated.
    let parts = vec![
        Ast {
            id: ast_id(1),
            kind: AstKind::TextPart(TextPart(ast_string(1, "x = "))),
        },
        int_node(2, 2),
    ];
    let text = Ast { id: ast_id(0), kind: AstKind::Text(Text(parts)) };
    let (body, errors, _) = ast_to_hir(module(), vec![text]);
    assert!(errors.is_empty());
    assert!(body
        .expressions
        .iter()
        .any(|(_, e)| matches!(e, Expression::Builtin(BuiltinFunction::ToDebugText))));
    assert!(body
        .expressions
        .iter()
        .any(|(_, e)| matches!(e, Expression::Builtin(BuiltinFunction::TextConcatenate))));
    assert!(body
        .expressions
        .iter()
        .any(|(_, e)| matches!(e, Expression::Text(t) if t == "x = ")));
}

#[test]
fn lowered_expressions_remember_their_origin() {
    let (body, _, map) = ast_to_hir(module(), vec![int_node(7, 42)]);
    let int_id = body
        .expressions
        .iter()
        .find(|(_, e)| matches!(e, Expression::Int(42)))
        .map(|(id, _)| *id)
        .unwrap();
    assert_eq!(hir_to_ast_id(&map, int_id), Some(&ast_id(7)));
    let missing = candy::hir::LocalId(1000);
    assert_eq!(hir_to_ast_id(&map, missing), None);
}
