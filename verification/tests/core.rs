use candy::builtins::BuiltinFunction;
use candy::heap::{
    Heap, HeapData, HeapObject, HeapText, InlineBuiltin, InlineHandle, InlineInt, InlineObject,
    ReceivePort, SendPort, KIND_BUILTIN, KIND_HANDLE, KIND_INT, KIND_POINTER,
};
use candy::hir;
use candy::lir::ConstantId;
use candy::mir::{Body, Expression, Id, Mir, Optimization};
use candy::utils::JoinWithCommasAndAnd;
use candy::ast::{Ast, AstKind, CollectErrors, Id as AstId, List};
use candy::vm::{run_builtin_function, BuiltinResult, DestructureTuple, Value};
use candy::CompilerError;
use candy::{
    CallTracingMode, CompilerErrorPayload, HirError, Module, ModuleKind, Package, TracingConfig,
    TracingMode,
};

#[test]
fn tracing_config_for_child_module_downgrades_only_current() {
    let config = TracingConfig {
        register_fuzzables: TracingMode::OnlyCurrent,
        calls: CallTracingMode::OnlyForPanicTraces,
        evaluated_expressions: TracingMode::All,
    };
    let child = config.for_child_module();
    assert_eq!(child.register_fuzzables, TracingMode::Off);
    assert_eq!(child.calls, CallTracingMode::OnlyForPanicTraces);
    assert_eq!(child.evaluated_expressions, TracingMode::All);
    assert!(!TracingConfig::off().calls.is_enabled());
    assert!(TracingMode::all_or_off(true).is_enabled());
    assert_eq!(TracingMode::only_current_or_off(false), TracingMode::Off);
}

#[test]
fn builtins_declare_their_arity() {
    assert_eq!(BuiltinFunction::Add.num_parameters(), 2);
    assert_eq!(BuiltinFunction::IfElse.num_parameters(), 3);
    assert_eq!(BuiltinFunction::TypeOf.num_parameters(), 1);
    assert_eq!(BuiltinFunction::StructGet.num_parameters(), 2);
}

#[test]
fn mir_ids_format_with_their_sigils() {
    assert_eq!(Id::from_usize(5).to_short_debug_string(), "$5");
    assert_eq!(Id(120).to_short_debug_string(), "$120");
    assert_eq!(ConstantId::from_usize(7).to_debug_string(), "%7");
    assert_eq!(Id(3).to_usize(), 3);
}

#[test]
fn tree_shaking_removes_unused_pure_expressions() {
    // $0 = 4        | $0 = 4
    // $1 = Foo      |
    // $2 = $0       |
    // $3 = call ... | $3 = call ... with $0
    let mut body = Body::new();
    body.push(Id(0), Expression::Int(4));
    body.push(Id(1), Expression::Tag { symbol: "Foo".to_string(), value: None });
    body.push(Id(2), Expression::Reference(Id(0)));
    body.push(
        Id(3),
        Expression::Call { function: Id(0), arguments: vec![Id(0)], responsible: Id(0) },
    );
    let mut mir = Mir { id_generator: 4, body };
    mir.tree_shake();
    let ids: Vec<usize> = mir.body.expressions.iter().map(|(id, _)| id.0).collect();
    assert_eq!(ids, vec![0, 3]);
}

#[test]
fn optimizing_keeps_the_return_value() {
    let mut body = Body::new();
    body.push(Id(0), Expression::Int(1));
    body.push(Id(1), Expression::Int(2));
    body.push(Id(2), Expression::Reference(Id(1)));
    let mut mir = Mir { id_generator: 3, body };
    mir.checked_optimization(Optimization::TreeShaking);
    mir.optimize_obvious_self_contained();
    let ids: Vec<usize> = mir.body.expressions.iter().map(|(id, _)| id.0).collect();
    assert_eq!(ids, vec![1, 2]);
}

#[test]
fn module_cycles_become_a_panic_mir() {
    let module = Module::from_package_name("Cyclic".to_string());
    let mir = Mir::build_panic(module, "The module part of an import cycle.".to_string());
    assert_eq!(mir.body.expressions.len(), 3);
    match &mir.body.expressions[2].1 {
        Expression::Panic { reason, responsible } => {
            assert_eq!(*reason, Id(0));
            assert_eq!(*responsible, Id(1));
        }
        other => panic!("expected a panic, got {other:?}"),
    }
}

#[test]
fn modules_know_their_possible_paths() {
    let packages_path = vec!["packages".to_string()];
    let module = Module {
        package: Package::Managed("Example".to_string()),
        path: vec!["foo".to_string()],
        kind: ModuleKind::Code,
    };
    assert_eq!(
        module.to_possible_paths(&packages_path),
        Some(vec![
            vec![
                "packages".to_string(),
                "Example".to_string(),
                "foo".to_string(),
                "_.candy".to_string(),
            ],
            vec!["packages".to_string(), "Example".to_string(), "foo.candy".to_string()],
        ])
    );
    let asset = Module {
        package: Package::User(vec!["home".to_string()]),
        path: vec!["data.json".to_string()],
        kind: ModuleKind::Asset,
    };
    assert_eq!(
        asset.to_possible_paths(&packages_path),
        Some(vec![vec!["home".to_string(), "data.json".to_string()]])
    );
    let anonymous = Module {
        package: Package::Anonymous("untitled".to_string()),
        path: vec![],
        kind: ModuleKind::Code,
    };
    assert_eq!(anonymous.to_possible_paths(&packages_path), None);
    let root = Module::from_package_name("Core".to_string());
    assert_eq!(root.path.len(), 0);
    assert_eq!(root.kind, ModuleKind::Code);
}

#[test]
fn modules_are_found_from_their_files() {
    let packages_path = vec!["packages".to_string()];
    let file = vec![
        "packages".to_string(),
        "Example".to_string(),
        "foo".to_string(),
        "bar.candy".to_string(),
    ];
    let module = Module::from_path(
        &packages_path,
        &file,
        ModuleKind::Code,
        Some(Package::Managed("Example".to_string())),
    )
    .unwrap();
    assert_eq!(module.path, vec!["foo".to_string(), "bar".to_string()]);

    // A `_` file stands for its directory.
    let directory_file = vec![
        "packages".to_string(),
        "Example".to_string(),
        "foo".to_string(),
        "_.candy".to_string(),
    ];
    let module = Module::from_path(
        &packages_path,
        &directory_file,
        ModuleKind::Code,
        Some(Package::Managed("Example".to_string())),
    )
    .unwrap();
    assert_eq!(module.path, vec!["foo".to_string()]);

    // A file outside the package is rejected.
    let elsewhere = vec!["elsewhere".to_string(), "foo.candy".to_string()];
    let result = Module::from_path(
        &packages_path,
        &elsewhere,
        ModuleKind::Code,
        Some(Package::Managed("Example".to_string())),
    );
    assert_eq!(
        result,
        Err(candy::ModuleFromPathError::NotInPackage(elsewhere))
    );

    // Without a surrounding package, the file belongs to its own user
    // package.
    let standalone = vec!["home".to_string(), "scratch.candy".to_string()];
    let module =
        Module::from_path(&packages_path, &standalone, ModuleKind::Code, None).unwrap();
    assert_eq!(module.package, Package::User(standalone));
    assert_eq!(module.path, Vec::<String>::new());
}

#[test]
fn error_messages_name_the_problem() {
    let unknown = CompilerErrorPayload::Hir(HirError::UnknownReference {
        name: "foo".to_string(),
    });
    assert_eq!(
        unknown.to_message(),
        "Here, you reference `foo`, but that name is not in scope."
    );
    let needs = CompilerErrorPayload::Hir(HirError::NeedsWithWrongNumberOfArguments {
        num_args: 3,
    });
    assert_eq!(
        needs.to_message(),
        "This `needs` is given 3 arguments, but it needs one or two – a condition and an optional reason."
    );
}

#[test]
fn inline_objects_pack_their_payloads_next_to_the_kind() {
    let int = InlineInt::create(-42);
    assert_eq!(int.0.kind(), KIND_INT);
    assert_eq!(int.get(), -42);
    let builtin = InlineBuiltin::create(7);
    assert_eq!(builtin.0.kind(), KIND_BUILTIN);
    assert_eq!(builtin.index(), 7);
    let handle = InlineHandle::create(3, 2);
    assert_eq!(handle.0.kind(), KIND_HANDLE);
    assert_eq!(handle.handle_id(), 3);
    assert_eq!(handle.argument_count(), 2);
    assert_eq!(InlineHandle::new_unchecked(handle.0).handle_id(), 3);
    let send = SendPort::create(9);
    let receive = ReceivePort::create(9);
    assert_eq!(send.channel_id(), 9);
    assert_eq!(receive.channel_id(), 9);
    assert_ne!(send.0.kind(), receive.0.kind());
    let pointer = HeapObject { index: 5 }.to_inline();
    assert_eq!(pointer.kind(), KIND_POINTER);
    assert_eq!(pointer.to_heap_object().index, 5);
    assert_eq!(InlineBuiltin::new_unchecked(InlineObject(2)).index(), 0);
}

#[test]
fn texts_know_their_length_in_bytes_and_characters() {
    let mut heap = Heap::new();
    let text = HeapText::create(&mut heap, true, "x = 2");
    assert_eq!(text.byte_len(&heap), 5);
    assert!(!text.is_empty(&heap));
    assert_eq!(text.get(&heap), "x = 2");
    assert_eq!(text.length(&heap), 5);
    let family = HeapText::create(&mut heap, true, "a\u{310}e\u{301}o\u{308}\u{332}");
    assert_eq!(family.length(&heap), 3);
    assert_eq!(
        family.characters(&heap),
        vec!["a\u{310}".to_string(), "e\u{301}".to_string(), "o\u{308}\u{332}".to_string()]
    );
    assert_eq!(family.get_range(&heap, 1, 3), "e\u{301}o\u{308}\u{332}");
    assert_eq!(family.get_range(&heap, 1, 99), "e\u{301}o\u{308}\u{332}");
    let empty = HeapText::create(&mut heap, true, "");
    assert!(empty.is_empty(&heap));
}

#[test]
fn closures_pack_their_counts_into_the_header() {
    let mut heap = Heap::new();
    let captured = vec![InlineInt::create(1).0, InlineInt::create(2).0];
    let closure = candy::heap::HeapClosure::create(&mut heap, captured, 3, 17);
    assert_eq!(closure.captured_len(&heap), 2);
    assert_eq!(closure.argument_count(&heap), 3);
    assert_eq!(closure.body_pointer(&heap), 17);
}

#[test]
fn dropping_the_last_reference_frees_an_object_and_its_children() {
    let mut heap = Heap::new();
    let text = HeapText::create(&mut heap, true, "payload");
    let list = heap.allocate(
        HeapData::List(vec![text.0.to_inline()]),
        true,
    );
    heap.dup(list);
    heap.drop(list);
    // One reference is left: everything stays.
    assert!(heap.slots[list.index].is_some());
    assert!(heap.slots[text.0.index].is_some());
    heap.drop(list);
    // The last reference went away: the list and its child are gone.
    assert!(heap.slots[list.index].is_none());
    assert!(heap.slots[text.0.index].is_none());
}

#[test]
fn reference_counts_track_dups_and_drops() {
    let mut heap = Heap::new();
    let text = HeapText::create(&mut heap, true, "counted");
    let count = |heap: &Heap| heap.slots[text.0.index].as_ref().unwrap().reference_count;
    assert_eq!(count(&heap), 1);
    heap.dup(text.0);
    heap.dup(text.0);
    assert_eq!(count(&heap), 3);
    heap.drop(text.0);
    assert_eq!(count(&heap), 2);
    heap.drop(text.0);
    assert_eq!(count(&heap), 1);
    heap.drop(text.0);
    assert!(heap.slots[text.0.index].is_none());
}

#[test]
fn constant_objects_are_never_freed() {
    let mut heap = Heap::new();
    let constant = HeapText::create(&mut heap, false, "shared");
    heap.drop(constant.0);
    assert!(heap.slots[constant.0.index].is_some());
}

#[test]
fn add() {
    assert_eq!(
        run_builtin_function(BuiltinFunction::Add, vec![Value::Int(1), Value::Int(2)]),
        BuiltinResult::Value(Value::Int(3))
    );
    match run_builtin_function(BuiltinFunction::Add, vec![Value::Int(i64::MAX), Value::Int(1)]) {
        BuiltinResult::Panic(_) => {}
        other => panic!("expected a panic, got {other:?}"),
    }
}

#[test]
fn equals() {
    assert_eq!(
        run_builtin_function(
            BuiltinFunction::Equals,
            vec![Value::Text("a".to_string()), Value::Text("a".to_string())],
        ),
        BuiltinResult::Value(Value::Symbol("True".to_string()))
    );
    assert_eq!(
        run_builtin_function(
            BuiltinFunction::Equals,
            vec![Value::Int(1), Value::Text("a".to_string())],
        ),
        BuiltinResult::Value(Value::Symbol("False".to_string()))
    );
}

#[test]
fn if_else() {
    let then_lambda = Value::Lambda(candy::vm::Lambda {
        id: hir::Id::new(Module::from_package_name("Test".to_string()), vec![]),
        parameter_count: 0,
    });
    match run_builtin_function(
        BuiltinFunction::IfElse,
        vec![Value::Symbol("True".to_string()), then_lambda, Value::Int(0)],
    ) {
        BuiltinResult::CallRequest { callee, arguments } => {
            assert!(matches!(callee, Value::Lambda(_)));
            assert!(arguments.is_empty());
        }
        other => panic!("expected a call request, got {other:?}"),
    }
    match run_builtin_function(
        BuiltinFunction::IfElse,
        vec![Value::Int(1), Value::Int(2), Value::Int(3)],
    ) {
        BuiltinResult::Panic(_) => {}
        other => panic!("expected a panic, got {other:?}"),
    }
}

#[test]
fn panic() {
    // A `needs False "bad"` boils down to the panic builtin with the
    // reason value.
    assert_eq!(
        run_builtin_function(BuiltinFunction::Panic, vec![Value::Text("bad".to_string())]),
        BuiltinResult::Panic(Value::Text("bad".to_string()))
    );
}

#[test]
fn type_of() {
    assert_eq!(
        run_builtin_function(BuiltinFunction::TypeOf, vec![Value::Int(2)]),
        BuiltinResult::Value(Value::Symbol("Int".to_string()))
    );
    assert_eq!(
        run_builtin_function(BuiltinFunction::TypeOf, vec![Value::Text("hi".to_string())]),
        BuiltinResult::Value(Value::Symbol("Text".to_string()))
    );
}

#[test]
fn get_argument_count() {
    let lambda = Value::Lambda(candy::vm::Lambda {
        id: hir::Id::new(Module::from_package_name("Test".to_string()), vec![]),
        parameter_count: 2,
    });
    assert_eq!(
        run_builtin_function(BuiltinFunction::GetArgumentCount, vec![lambda]),
        BuiltinResult::Value(Value::Int(2))
    );
}

#[test]
fn print_hands_the_message_to_the_embedder() {
    assert_eq!(
        run_builtin_function(BuiltinFunction::Print, vec![Value::Int(7)]),
        BuiltinResult::Print { message: Value::Int(7) }
    );
}

#[test]
fn wrong_argument_counts_blame_the_function() {
    match run_builtin_function(BuiltinFunction::Add, vec![Value::Int(1)]) {
        BuiltinResult::Panic(Value::Text(text)) => {
            assert_eq!(text, "add expected 2 arguments, but it got 1.");
        }
        other => panic!("expected a panic, got {other:?}"),
    }
    let values: Vec<Value> = vec![Value::Int(1), Value::Int(2)];
    assert_eq!(values.tuple2("pair"), Ok((Value::Int(1), Value::Int(2))));
    let too_many: Vec<Value> = vec![Value::Int(1), Value::Int(2), Value::Int(3)];
    assert_eq!(
        too_many.tuple2("pair"),
        Err(Value::Text("pair expected 2 arguments, but it got 3.".to_string()))
    );
}

#[test]
fn join_with_commas_and_and() {
    assert_eq!(vec!["a".to_string()].join_with_commas_and_and(), "a");
    assert_eq!(vec!["a".to_string(), "b".to_string()].join_with_commas_and_and(), "a and b");
    assert_eq!(
        vec!["a".to_string(), "b".to_string(), "c".to_string()].join_with_commas_and_and(),
        "a, b, and c"
    );
}

#[test]
fn ast_errors_are_collected_in_tree_order() {
    let module = Module::from_package_name("Test".to_string());
    let error = CompilerError::for_whole_module(
        module.clone(),
        CompilerErrorPayload::Hir(HirError::PublicAssignmentInNotTopLevel),
    );
    let tree = Ast {
        id: AstId::new(module.clone(), 0),
        kind: AstKind::List(List(vec![Ast {
            id: AstId::new(module.clone(), 1),
            kind: AstKind::Error { child: None, errors: vec![error.clone()] },
        }])),
    };
    let mut collected = Vec::new();
    tree.collect_errors(&mut collected);
    assert_eq!(collected, vec![error]);
}

#[test]
fn needs_ids_are_recognized() {
    let needs = hir::Id::needs();
    assert!(needs.is_needs());
    let other = hir::Id::new(Module::from_package_name("Test".to_string()), vec![
        "main".to_string(),
    ]);
    assert!(!other.is_needs());
}

/// Tree shaking reaches a fixed point in one pass: shaking a shaken body
/// changes nothing.
#[test]
fn tree_shake_is_idempotent() {
    let mut body = Body::new();
    body.push(Id(0), Expression::Int(1));
    body.push(Id(1), Expression::Int(2));
    body.push(Id(2), Expression::Reference(Id(0)));
    let mut mir = Mir { id_generator: 3, body };
    mir.tree_shake();
    let after_one = format!("{:?}", mir.body.expressions);
    mir.tree_shake();
    let after_two = format!("{:?}", mir.body.expressions);
    assert_eq!(after_one, after_two);
    assert_eq!(
        mir.body.expressions,
        vec![(Id(0), Expression::Int(1)), (Id(2), Expression::Reference(Id(0)))]
    );
}

/// A cycle among module imports compiles to a panicking MIR and records
/// the cycle as an error.
#[test]
fn recover_from_cycle_panics_and_records_the_error() {
    let module = candy::Module::from_package_name("Test".to_string());
    let cycle = vec!["A".to_string(), "B".to_string(), "A".to_string()];
    let (mir, errors) = Mir::recover_from_cycle(module.clone(), cycle.clone());
    assert_eq!(mir.body.expressions.len(), 3);
    match &mir.body.expressions[0].1 {
        Expression::Text(reason) => {
            assert_eq!(reason, "The module is part of an import cycle: A, B, A.")
        },
        other => panic!("expected a text reason, got {other:?}"),
    }
    assert!(matches!(mir.body.expressions[2].1, Expression::Panic { .. }));
    assert_eq!(errors.len(), 1);
    assert_eq!(
        errors[0].payload,
        candy::CompilerErrorPayload::Mir(candy::MirError::ModuleHasCycle { cycle })
    );
}

/// Structurally equal expressions hash alike; different ones differ.
#[test]
fn expression_hashes_follow_structure() {
    let a = Expression::Int(42);
    let b = Expression::Int(42);
    let c = Expression::Int(43);
    assert_eq!(candy::mir::expression_hash(&a), candy::mir::expression_hash(&b));
    assert_ne!(candy::mir::expression_hash(&a), candy::mir::expression_hash(&c));
    let t1 = Expression::Text("hello".to_string());
    let t2 = Expression::Text("hello".to_string());
    let t3 = Expression::Text("hellp".to_string());
    assert_eq!(candy::mir::expression_hash(&t1), candy::mir::expression_hash(&t2));
    assert_ne!(candy::mir::expression_hash(&t1), candy::mir::expression_hash(&t3));
    let call1 = Expression::Call { function: Id(1), arguments: vec![Id(2)], responsible: Id(3) };
    let call2 = Expression::Call { function: Id(1), arguments: vec![Id(2)], responsible: Id(4) };
    assert_ne!(candy::mir::expression_hash(&call1), candy::mir::expression_hash(&call2));
}
