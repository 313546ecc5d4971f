use candy::fiber::{Status, Vm};
use candy::heap::{HeapData, HeapSlot, InlineInt, KIND_INT, KIND_POINTER};
use candy::hir;
use candy::lir::{Constant, Constants, Instruction, Lir};
use candy::Module;

fn responsible_constant() -> Constant {
    Constant::HirId(hir::Id::new(Module::from_package_name("Test".to_string()), vec![
        "main".to_string(),
    ]))
}

/// `main = { environment -> 2 }`, compiled by hand: the module function
/// calls the exported function with an empty environment struct and
/// returns what it returns.
#[test]
fn calling_main_with_an_environment_returns_its_value() {
    let mut constants = Constants::new();
    let two = constants.push(Constant::Int(2));
    let main_function = constants.push(Constant::Function { body: 0, num_args: 1 });
    let responsible = constants.push(responsible_constant());
    let lir = Lir {
        constants,
        instructions: vec![
            // The body of `main`: its value, ignoring the environment.
            Instruction::PushConstant(two),
            Instruction::Return,
            // The module function: call `main` with an empty environment.
            Instruction::PushConstant(main_function),
            Instruction::CreateStruct { num_fields: 0 },
            Instruction::PushConstant(responsible),
            Instruction::Call { num_args: 1 },
            Instruction::Return,
        ],
        module_function: 2,
    };
    let mut vm = Vm::for_module(lir);
    vm.run_until_completion();
    match vm.status {
        Status::Finished(value) => {
            assert_eq!(value.kind(), KIND_INT);
            assert_eq!(InlineInt::new_unchecked(value).get(), 2);
        }
        other => panic!("expected the fiber to finish, got {other:?}"),
    }
}

/// `main = { environment -> needs False "bad" }` boils down to a panic
/// with the reason text.
#[test]
fn a_failing_needs_panics_the_fiber() {
    let mut constants = Constants::new();
    let reason = constants.push(Constant::Text("bad".to_string()));
    let responsible = constants.push(responsible_constant());
    let lir = Lir {
        constants,
        instructions: vec![
            Instruction::PushConstant(reason),
            Instruction::PushConstant(responsible),
            Instruction::Panic,
        ],
        module_function: 0,
    };
    let mut vm = Vm::for_module(lir);
    vm.run_until_completion();
    match vm.status {
        Status::Panicked { reason, .. } => {
            assert_eq!(reason.kind(), KIND_POINTER);
            let object = reason.to_heap_object();
            match &vm.heap.slots[object.index] {
                Some(HeapSlot { data: HeapData::Text(text), .. }) => assert_eq!(text, "bad"),
                other => panic!("expected the reason text, got {other:?}"),
            }
        }
        other => panic!("expected the fiber to panic, got {other:?}"),
    }
}

/// Calling something that is not a function panics with the callee as the
/// reason, blaming the call's responsible ID.
#[test]
fn calling_a_non_function_panics() {
    let mut constants = Constants::new();
    let two = constants.push(Constant::Int(2));
    let responsible = constants.push(responsible_constant());
    let lir = Lir {
        constants,
        instructions: vec![
            Instruction::PushConstant(two),
            Instruction::PushConstant(responsible),
            Instruction::Call { num_args: 0 },
            Instruction::Return,
        ],
        module_function: 0,
    };
    let mut vm = Vm::for_module(lir);
    vm.run_until_completion();
    match vm.status {
        Status::Panicked { reason, .. } => {
            assert_eq!(InlineInt::new_unchecked(reason).get(), 2);
        }
        other => panic!("expected the fiber to panic, got {other:?}"),
    }
}

/// A tail call replaces the current frame: the callee returns directly to
/// the caller's caller.
#[test]
fn tail_calls_replace_the_frame() {
    let mut constants = Constants::new();
    let seven = constants.push(Constant::Int(7));
    let inner = constants.push(Constant::Function { body: 0, num_args: 0 });
    let outer = constants.push(Constant::Function { body: 2, num_args: 0 });
    let responsible = constants.push(responsible_constant());
    let lir = Lir {
        constants,
        instructions: vec![
            // The inner function: just a value.
            Instruction::PushConstant(seven),
            Instruction::Return,
            // The outer function: tail-calls the inner one.
            Instruction::PushConstant(inner),
            Instruction::PushConstant(responsible),
            Instruction::TailCall { num_args: 0, num_locals_to_pop: 0 },
            // The module function: calls the outer function.
            Instruction::PushConstant(outer),
            Instruction::PushConstant(responsible),
            Instruction::Call { num_args: 0 },
            Instruction::Return,
        ],
        module_function: 5,
    };
    let mut vm = Vm::for_module(lir);
    vm.run_until_completion();
    match vm.status {
        Status::Finished(value) => {
            assert_eq!(InlineInt::new_unchecked(value).get(), 7);
        }
        other => panic!("expected the fiber to finish, got {other:?}"),
    }
    assert!(vm.call_stack.is_empty());
}

/// The embedder finds the exported entry function by its symbol in the
/// module's return value.
#[test]
fn the_main_export_is_found_by_its_symbol() {
    let mut constants = Constants::new();
    let main_key = constants.push(Constant::Tag { symbol: "Main".to_string(), value: None });
    let main_function = constants.push(Constant::Function { body: 0, num_args: 1 });
    let exports = constants.push(Constant::Struct(vec![(main_key, main_function)]));
    let lir = Lir {
        constants,
        instructions: vec![
            // The body of `main`, never run here.
            Instruction::Return,
            // The module function returns the exports struct.
            Instruction::PushConstant(exports),
            Instruction::Return,
        ],
        module_function: 1,
    };
    let mut vm = Vm::for_module(lir);
    vm.run_until_completion();
    let exported = match vm.status {
        Status::Finished(value) => value,
        other => panic!("expected the fiber to finish, got {other:?}"),
    };
    assert_eq!(exported.kind(), KIND_POINTER);
    let object = exported.to_heap_object();
    let main = vm.heap.struct_get_by_symbol(object, "Main").unwrap();
    assert_eq!(main.kind(), KIND_POINTER);
    let main_object = main.to_heap_object();
    assert!(matches!(
        &vm.heap.slots[main_object.index],
        Some(HeapSlot { data: HeapData::Closure { .. }, .. })
    ));
    assert_eq!(vm.heap.struct_get_by_symbol(object, "Other"), None);
}

/// The interpreter is a function of the program and its state alone:
/// running the same module twice gives the same status.
#[test]
fn runs_are_deterministic() {
    let build = || {
        let mut constants = Constants::new();
        let value = constants.push(Constant::Int(11));
        Lir {
            constants,
            instructions: vec![
                Instruction::PushConstant(value),
                Instruction::Return,
            ],
            module_function: 0,
        }
    };
    let mut first = Vm::for_module(build());
    first.run_until_completion();
    let mut second = Vm::for_module(build());
    second.run_until_completion();
    assert_eq!(first.status, second.status);
    assert_eq!(first.data_stack, second.data_stack);
}

/// A budget of zero runs nothing; the fiber stays runnable.
#[test]
fn running_with_a_budget_stops_between_instructions() {
    let mut constants = Constants::new();
    let value = constants.push(Constant::Int(3));
    let lir = Lir {
        constants,
        instructions: vec![
            Instruction::PushConstant(value),
            Instruction::Return,
        ],
        module_function: 0,
    };
    let mut vm = Vm::for_module(lir);
    vm.run(0);
    assert_eq!(vm.status, Status::Running);
    vm.run(1);
    assert_eq!(vm.status, Status::Running);
    vm.run(1);
    assert!(matches!(vm.status, Status::Finished(_)));
}

/// A module of one int compiles to a constant push and a return, and
/// running it finishes with that int.
#[test]
fn a_compiled_int_module_finishes_with_the_int() {
    let mut body = candy::mir::Body::new();
    body.push(candy::mir::Id(0), candy::mir::Expression::Int(42));
    let mir = candy::mir::Mir { id_generator: 1, body };
    let lir = candy::mir_to_lir::compile_lir(&mir);
    assert!(matches!(lir.instructions.last(), Some(Instruction::Return)));
    let mut vm = Vm::for_module(lir);
    vm.run_until_completion();
    match vm.status {
        Status::Finished(value) => {
            assert_eq!(value.kind(), KIND_INT);
            assert_eq!(InlineInt::new_unchecked(value).get(), 42);
        },
        _ => panic!("the module did not finish"),
    }
}

/// A module ending in a list expression builds the list on the stack and
/// returns it.
#[test]
fn a_compiled_list_module_finishes_with_the_list() {
    let mut body = candy::mir::Body::new();
    body.push(candy::mir::Id(0), candy::mir::Expression::Int(1));
    body.push(candy::mir::Id(1), candy::mir::Expression::Int(2));
    body.push(
        candy::mir::Id(2),
        candy::mir::Expression::List(vec![candy::mir::Id(0), candy::mir::Id(1)]),
    );
    let mir = candy::mir::Mir { id_generator: 3, body };
    let lir = candy::mir_to_lir::compile_lir(&mir);
    let mut vm = Vm::for_module(lir);
    vm.run_until_completion();
    match vm.status {
        Status::Finished(value) => {
            assert_eq!(value.kind(), KIND_POINTER);
            let object = value.to_heap_object();
            match &vm.heap.slots[object.index] {
                Some(HeapSlot { data: HeapData::List(items), .. }) => {
                    assert_eq!(items.len(), 2);
                    assert_eq!(InlineInt::new_unchecked(items[0]).get(), 1);
                    assert_eq!(InlineInt::new_unchecked(items[1]).get(), 2);
                },
                _ => panic!("the result is not a list"),
            }
        },
        _ => panic!("the module did not finish"),
    }
}

/// A module ending in a panic expression compiles to a panic instruction
/// and running it panics with the stated reason.
#[test]
fn a_compiled_panic_module_panics_with_its_reason() {
    let mut body = candy::mir::Body::new();
    body.push(candy::mir::Id(0), candy::mir::Expression::Text("oops".to_string()));
    body.push(
        candy::mir::Id(1),
        candy::mir::Expression::HirId(hir::Id::new(
            Module::from_package_name("Test".to_string()),
            vec!["main".to_string()],
        )),
    );
    body.push(
        candy::mir::Id(2),
        candy::mir::Expression::Panic {
            reason: candy::mir::Id(0),
            responsible: candy::mir::Id(1),
        },
    );
    let mir = candy::mir::Mir { id_generator: 3, body };
    let lir = candy::mir_to_lir::compile_lir(&mir);
    assert!(matches!(lir.instructions.last(), Some(Instruction::Panic)));
    let mut vm = Vm::for_module(lir);
    vm.run_until_completion();
    match vm.status {
        Status::Panicked { reason, .. } => {
            assert_eq!(reason.kind(), KIND_POINTER);
            let object = reason.to_heap_object();
            match &vm.heap.slots[object.index] {
                Some(HeapSlot { data: HeapData::Text(text), .. }) => assert_eq!(text, "oops"),
                _ => panic!("the reason is not a text"),
            }
        },
        _ => panic!("the module did not panic"),
    }
}

/// The embedder's entry lookup: a finished module whose return value is a
/// struct with a `Main` function yields that function; a module that did
/// not finish, or exports no `Main`, yields an error.
#[test]
fn into_main_function_finds_the_exported_function() {
    let mut constants = Constants::new();
    let main_key = constants.push(Constant::Tag { symbol: "Main".to_string(), value: None });
    let main_function = constants.push(Constant::Function { body: 0, num_args: 1 });
    let exports = constants.push(Constant::Struct(vec![(main_key, main_function)]));
    let lir = Lir {
        constants,
        instructions: vec![
            Instruction::Return,
            Instruction::PushConstant(exports),
            Instruction::Return,
        ],
        module_function: 1,
    };
    let mut vm = Vm::for_module(lir);
    assert!(vm.into_main_function().is_err());
    vm.run_until_completion();
    let main = vm.into_main_function().unwrap();
    assert_eq!(main.kind(), KIND_POINTER);
    let main_object = main.to_heap_object();
    assert!(matches!(
        &vm.heap.slots[main_object.index],
        Some(HeapSlot { data: HeapData::Closure { .. }, .. })
    ));
}

/// A module that returns a struct without a `Main` key has no entry.
#[test]
fn into_main_function_misses_an_absent_export() {
    let mut constants = Constants::new();
    let key = constants.push(Constant::Tag { symbol: "Other".to_string(), value: None });
    let function = constants.push(Constant::Function { body: 0, num_args: 1 });
    let exports = constants.push(Constant::Struct(vec![(key, function)]));
    let lir = Lir {
        constants,
        instructions: vec![
            Instruction::Return,
            Instruction::PushConstant(exports),
            Instruction::Return,
        ],
        module_function: 1,
    };
    let mut vm = Vm::for_module(lir);
    vm.run_until_completion();
    assert!(vm.into_main_function().is_err());
}

/// A module whose optimization failed still compiles: to a module function
/// that panics with the failure's message.
#[test]
fn a_failed_module_compiles_to_a_panicking_program() {
    let module = Module::from_package_name("Test".to_string());
    let lir = candy::mir_to_lir::compile_module(
        module,
        Err("The module is part of an import cycle: A, B, A.".to_string()),
    );
    assert!(matches!(lir.instructions.last(), Some(Instruction::Panic)));
    let mut vm = Vm::for_module(lir);
    vm.run_until_completion();
    match vm.status {
        Status::Panicked { reason, .. } => {
            assert_eq!(reason.kind(), KIND_POINTER);
            let object = reason.to_heap_object();
            match &vm.heap.slots[object.index] {
                Some(HeapSlot { data: HeapData::Text(text), .. }) => {
                    assert_eq!(text, "The module is part of an import cycle: A, B, A.")
                },
                _ => panic!("the reason is not a text"),
            }
        },
        other => panic!("expected a panic, got {other:?}"),
    }
}

/// Struct lookup finds a value under any equal key, not only the identical
/// object: two distinct heap texts with the same characters are the same
/// key.
#[test]
fn struct_lookup_finds_values_under_equal_keys() {
    let mut heap = candy::heap::Heap::new();
    let key1 = candy::heap::HeapText::create(&mut heap, true, "name");
    let value = InlineInt::create(7).0;
    let fields = vec![(key1.0.to_inline(), value)];
    let struct_object = heap.allocate(HeapData::Struct(fields), true);
    let key2 = candy::heap::HeapText::create(&mut heap, true, "name");
    let other = candy::heap::HeapText::create(&mut heap, true, "other");
    assert_eq!(
        heap.struct_get(struct_object, key2.0.to_inline()),
        Some(value)
    );
    assert_eq!(heap.struct_get(struct_object, other.0.to_inline()), None);
}
