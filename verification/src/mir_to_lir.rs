//! Compiling optimized MIR to the flat instruction stream.
//!
//! Each expression either becomes a constant in the shared constant heap —
//! ints, texts, builtins, HIR IDs, valueless tags and tags over constants —
//! or instructions that build its value on the operand stack; a call in
//! tail position becomes a tail call. This compiler takes the flat bodies
//! the optimizer aims for: nested functions, transient multiples and
//! module imports must already be folded away, which `requires` states.

use crate::lir::{
    constant_refs_below, constants_wf, Constant, ConstantId, Constants, Instruction, Lir,
};
use crate::mir::{exprs_ssa, ids_defined_before, Expression, Mir};
use vstd::prelude::*;

verus! {

/// A body this compiler takes: no nested functions, transient multiples
/// or unresolved imports.
pub open spec fn body_is_flat(s: Seq<(crate::mir::Id, Expression)>) -> bool {
    forall|k: int|
        0 <= k < s.len() ==> !((#[trigger] s[k]).1 is Function) && !(s[k].1 is Multiple) && !(
        s[k].1 is UseModule)
}

/// Where a compiled expression's value lives.
#[derive(Debug, PartialEq, Eq, Clone, Copy, Structural)]
enum Place {
    /// In the shared constant heap.
    Constant(ConstantId),
    /// On the operand stack, at this height above the stack's bottom.
    Stack(usize),
}

/// Adds a constant whose references stay below it: the heap stays acyclic.
fn push_new_constant(constants: &mut Constants, constant: Constant) -> (r: ConstantId)
    requires
        constants_wf(*old(constants)),
        constant_refs_below(constant, old(constants).0@.len() as int),
    ensures
        constants_wf(*final(constants)),
        r.0 == old(constants).0@.len(),
        r.0 < final(constants).0@.len(),
        final(constants).0@ == old(constants).0@.push(constant),
        final(constants).0@.len() == old(constants).0@.len() + 1,
{
    let id = constants.push(constant);
    proof {
        assert forall|i: int| 0 <= i < constants.0@.len() implies constant_refs_below(
            #[trigger] constants.0@[i],
            i,
        ) by {
            if i < constants.0@.len() - 1 {
                assert(constants.0@[i] == old(constants).0@[i]);
            }
        }
    }
    id
}

/// The place recorded for an ID, if any.
#[verifier::loop_isolation(false)]
fn find_place(places: &Vec<(crate::mir::Id, Place)>, id: crate::mir::Id) -> (r: Option<Place>)
    ensures
        r is None ==> forall|m: int| 0 <= m < places@.len() ==> (#[trigger] places@[m]).0 != id,
        r matches Some(p) ==> exists|m: int|
            0 <= m < places@.len() && #[trigger] places@[m] == (id, p),
{
    let mut m: usize = 0;
    while m < places.len()
        invariant
            m <= places@.len(),
            forall|j: int| 0 <= j < m ==> (#[trigger] places@[j]).0 != id,
        decreases places@.len() - m,
    {
        if places[m].0 == id {
            return Some(places[m].1);
        }
        m = m + 1;
    }
    None
}

/// Emits the instruction that copies the operand onto the stack's top and
/// counts the push.
fn emit_operand(instructions: &mut Vec<Instruction>, stack_depth: &mut usize, operand: Place)
    ensures
        final(instructions)@.len() == old(instructions)@.len() + 1,
        operand matches Place::Constant(cid) ==> final(instructions)@ == old(
            instructions,
        )@.push(Instruction::PushConstant(cid)),
{
    match operand {
        Place::Constant(cid) => instructions.push(Instruction::PushConstant(cid)),
        Place::Stack(p) => {
            let offset = if p < *stack_depth {
                *stack_depth - 1 - p
            } else {
                0
            };
            instructions.push(Instruction::PushFromStack { offset });
        },
    }
    if *stack_depth < usize::MAX {
        *stack_depth = *stack_depth + 1;
    }
}

/// The place of an already compiled expression; single static assignment
/// guarantees every used ID was compiled before its use.
fn resolve(
    places: &Vec<(crate::mir::Id, Place)>,
    id: crate::mir::Id,
    ghost_defined: Ghost<Set<crate::mir::Id>>,
) -> (r: Place)
    requires
        ghost_defined@.contains(id),
        forall|x: crate::mir::Id| #[trigger]
            ghost_defined@.contains(x) ==> exists|m: int|
                0 <= m < places@.len() && (#[trigger] places@[m]).0 == x,
    ensures
        exists|m: int| 0 <= m < places@.len() && #[trigger] places@[m] == (id, r),
{
    match find_place(places, id) {
        Some(p) => p,
        None => vstd::pervasive::unreached(),
    }
}

/// The constant a leaf expression becomes, if it is one.
pub open spec fn leaf_constant_of(e: Expression) -> Option<Constant> {
    match e {
        Expression::Int(v) => Some(Constant::Int(v)),
        Expression::Text(t) => Some(Constant::Text(t)),
        Expression::Builtin(b) => Some(Constant::Builtin(b)),
        _ => None,
    }
}

/// A body of leaf expressions alone: ints, texts and builtins.
pub open spec fn all_leaves(s: Seq<(crate::mir::Id, Expression)>) -> bool {
    forall|k: int| 0 <= k < s.len() ==> leaf_constant_of((#[trigger] s[k]).1) is Some
}

/// Compiles one optimized module body into instructions and constants. The
/// constant heap comes out acyclic and the instruction stream is nonempty:
/// the module function ends in a return, a tail call where the body ends
/// in a call, or a panic where it ends in one.
#[verifier::loop_isolation(false)]
pub fn compile_lir(mir: &Mir) -> (r: Lir)
    requires
        mir.body.expressions@.len() > 0,
        exprs_ssa(mir.body.expressions@, Set::empty()),
        body_is_flat(mir.body.expressions@),
    ensures
        constants_wf(r.constants),
        r.instructions@.len() > 0,
        r.module_function < r.instructions@.len(),
        r.instructions@.last() is Return || r.instructions@.last() is TailCall
            || r.instructions@.last() is Panic,
        mir.body.expressions@.last().1 is Call ==> r.instructions@.last() is TailCall,
        mir.body.expressions@.last().1 is Panic ==> r.instructions@.last() is Panic,
        // A body of leaf expressions compiles exactly: one constant per
        // expression, in order, and a stream that pushes the last and
        // returns it.
        all_leaves(mir.body.expressions@) ==> {
            let s = mir.body.expressions@;
            &&& r.constants.0@.len() == s.len()
            &&& (forall|k: int|
                0 <= k < s.len() ==> #[trigger] r.constants.0@[k] == leaf_constant_of(s[k].1)->0)
            &&& r.instructions@ == seq![
                Instruction::PushConstant(ConstantId((s.len() - 1) as usize)),
                Instruction::Return,
            ]
        },
{
    let ghost s = mir.body.expressions@;
    let mut constants = Constants::new();
    let mut instructions: Vec<Instruction> = Vec::new();
    let mut places: Vec<(crate::mir::Id, Place)> = Vec::new();
    let mut stack_depth: usize = 0;
    let body_len = mir.body.expressions.len();
    let mut k: usize = 0;
    let mut finished = false;
    while k < body_len && !finished
        invariant
            k <= body_len,
            body_len == s.len(),
            s == mir.body.expressions@,
            constants_wf(constants),
            forall|x: crate::mir::Id| #[trigger]
                ids_defined_before(s, k as int).contains(x) ==> exists|m: int|
                    0 <= m < places@.len() && (#[trigger] places@[m]).0 == x,
            finished ==> instructions@.len() > 0 && (instructions@.last() is TailCall
                || instructions@.last() is Panic),
            finished ==> k == body_len && (s.last().1 is Call ==> instructions@.last()
                is TailCall) && (s.last().1 is Panic ==> instructions@.last() is Panic),
            !finished && k == body_len ==> !(s.last().1 is Call) && !(s.last().1 is Panic),
            all_leaves(s) ==> !finished && instructions@.len() == 0 && constants.0@.len() == k
                && places@.len() == k && (forall|k2: int|
                0 <= k2 < k ==> #[trigger] constants.0@[k2] == leaf_constant_of(s[k2].1)->0) && (
            forall|k2: int|
                0 <= k2 < k ==> #[trigger] places@[k2] == (
                    s[k2].0,
                    Place::Constant(ConstantId(k2 as usize)),
                )),
        decreases body_len - k,
    {
        let is_last = k == body_len - 1;
        let id = mir.body.expressions[k].0;
        let ghost defined = ids_defined_before(s, k as int);
        proof {
            assert(crate::mir::expr_is_ssa(s[k as int].1, Set::empty().union(defined)));
            assert forall|x: crate::mir::Id|
                Set::empty().union(defined).contains(x) implies #[trigger] defined.contains(
                x,
            ) by {}
        }
        let place: Place = match &mir.body.expressions[k].1 {
            Expression::Int(v) => Place::Constant(
                push_new_constant(&mut constants, Constant::Int(*v)),
            ),
            Expression::Text(text) => Place::Constant(
                push_new_constant(&mut constants, Constant::Text(text.clone())),
            ),
            Expression::Builtin(builtin) => Place::Constant(
                push_new_constant(&mut constants, Constant::Builtin(*builtin)),
            ),
            Expression::HirId(hir_id) => Place::Constant(
                push_new_constant(&mut constants, Constant::HirId(hir_id.clone())),
            ),
            Expression::Parameter => Place::Constant(nothing_constant(&mut constants)),
            Expression::Tag { symbol, value } => {
                match value {
                    None => Place::Constant(
                        push_new_constant(
                            &mut constants,
                            Constant::Tag { symbol: symbol.clone(), value: None },
                        ),
                    ),
                    Some(inner) => {
                        proof {
                            assert(defined.contains(*inner));
                        }
                        match resolve(&places, *inner, Ghost(defined)) {
                            Place::Constant(cid) => {
                                if cid.0 < constants.len() {
                                    Place::Constant(
                                        push_new_constant(
                                            &mut constants,
                                            Constant::Tag {
                                                symbol: symbol.clone(),
                                                value: Some(cid),
                                            },
                                        ),
                                    )
                                } else {
                                    // A stale constant reference never
                                    // happens; the valueless tag stands in.
                                    Place::Constant(
                                        push_new_constant(
                                            &mut constants,
                                            Constant::Tag { symbol: symbol.clone(), value: None },
                                        ),
                                    )
                                }
                            },
                            Place::Stack(p) => {
                                emit_operand(
                                    &mut instructions,
                                    &mut stack_depth,
                                    Place::Stack(p),
                                );
                                instructions.push(
                                    Instruction::CreateTag { symbol: symbol.clone() },
                                );
                                Place::Stack(if stack_depth > 0 {
                                    stack_depth - 1
                                } else {
                                    0
                                })
                            },
                        }
                    },
                }
            },
            Expression::Reference(x) => {
                proof {
                    assert(defined.contains(*x));
                }
                resolve(&places, *x, Ghost(defined))
            },
            Expression::List(items) => {
                let mut i: usize = 0;
                while i < items.len()
                    invariant
                        i <= items@.len(),
                        constants_wf(constants),
                        forall|x: crate::mir::Id| #[trigger]
                            defined.contains(x) ==> exists|m: int|
                                0 <= m < places@.len() && (#[trigger] places@[m]).0 == x,
                    decreases items@.len() - i,
                {
                    proof {
                        assert(Set::empty().union(defined).contains(items@[i as int]));
                        assert(defined.contains(items@[i as int]));
                    }
                    let operand = resolve(&places, items[i], Ghost(defined));
                    emit_operand(&mut instructions, &mut stack_depth, operand);
                    i = i + 1;
                }
                instructions.push(Instruction::CreateList { num_items: items.len() });
                stack_depth = depth_after_build(stack_depth, items.len());
                Place::Stack(if stack_depth > 0 {
                    stack_depth - 1
                } else {
                    0
                })
            },
            Expression::Struct(fields) => {
                let mut i: usize = 0;
                while i < fields.len()
                    invariant
                        i <= fields@.len(),
                        constants_wf(constants),
                        forall|x: crate::mir::Id| #[trigger]
                            defined.contains(x) ==> exists|m: int|
                                0 <= m < places@.len() && (#[trigger] places@[m]).0 == x,
                    decreases fields@.len() - i,
                {
                    proof {
                        assert(Set::empty().union(defined).contains(fields@[i as int].0));
                        assert(Set::empty().union(defined).contains(fields@[i as int].1));
                        assert(defined.contains(fields@[i as int].0));
                        assert(defined.contains(fields@[i as int].1));
                    }
                    let key = resolve(&places, fields[i].0, Ghost(defined));
                    emit_operand(&mut instructions, &mut stack_depth, key);
                    let value = resolve(&places, fields[i].1, Ghost(defined));
                    emit_operand(&mut instructions, &mut stack_depth, value);
                    i = i + 1;
                }
                instructions.push(Instruction::CreateStruct { num_fields: fields.len() });
                let popped = if fields.len() < usize::MAX / 2 {
                    2 * fields.len()
                } else {
                    stack_depth
                };
                stack_depth = depth_after_build(stack_depth, popped);
                Place::Stack(if stack_depth > 0 {
                    stack_depth - 1
                } else {
                    0
                })
            },
            Expression::Call { function, arguments, responsible } => {
                let locals = stack_depth;
                proof {
                    assert(defined.contains(*function));
                    assert(defined.contains(*responsible));
                }
                let callee = resolve(&places, *function, Ghost(defined));
                emit_operand(&mut instructions, &mut stack_depth, callee);
                let mut i: usize = 0;
                while i < arguments.len()
                    invariant
                        i <= arguments@.len(),
                        constants_wf(constants),
                        forall|x: crate::mir::Id| #[trigger]
                            defined.contains(x) ==> exists|m: int|
                                0 <= m < places@.len() && (#[trigger] places@[m]).0 == x,
                    decreases arguments@.len() - i,
                {
                    proof {
                        assert(Set::empty().union(defined).contains(arguments@[i as int]));
                        assert(defined.contains(arguments@[i as int]));
                    }
                    let operand = resolve(&places, arguments[i], Ghost(defined));
                    emit_operand(&mut instructions, &mut stack_depth, operand);
                    i = i + 1;
                }
                let responsible_place = resolve(&places, *responsible, Ghost(defined));
                emit_operand(&mut instructions, &mut stack_depth, responsible_place);
                if is_last {
                    instructions.push(
                        Instruction::TailCall {
                            num_args: arguments.len(),
                            num_locals_to_pop: locals,
                        },
                    );
                    finished = true;
                    Place::Stack(0)
                } else {
                    instructions.push(Instruction::Call { num_args: arguments.len() });
                    stack_depth = if locals < usize::MAX {
                        locals + 1
                    } else {
                        locals
                    };
                    Place::Stack(locals)
                }
            },
            Expression::Panic { reason, responsible } => {
                proof {
                    assert(defined.contains(*reason));
                    assert(defined.contains(*responsible));
                }
                let reason_place = resolve(&places, *reason, Ghost(defined));
                emit_operand(&mut instructions, &mut stack_depth, reason_place);
                let responsible_place = resolve(&places, *responsible, Ghost(defined));
                emit_operand(&mut instructions, &mut stack_depth, responsible_place);
                instructions.push(Instruction::Panic);
                if is_last {
                    finished = true;
                }
                // Nothing after a panic runs; the stand-in keeps later
                // expressions compilable.
                Place::Constant(nothing_constant(&mut constants))
            },
            Expression::TraceCallStarts { hir_call, function, arguments, responsible } => {
                proof {
                    assert(defined.contains(*hir_call));
                    assert(defined.contains(*function));
                    assert(defined.contains(*responsible));
                }
                let site = resolve(&places, *hir_call, Ghost(defined));
                emit_operand(&mut instructions, &mut stack_depth, site);
                let callee = resolve(&places, *function, Ghost(defined));
                emit_operand(&mut instructions, &mut stack_depth, callee);
                let responsible_place = resolve(&places, *responsible, Ghost(defined));
                emit_operand(&mut instructions, &mut stack_depth, responsible_place);
                let mut i: usize = 0;
                while i < arguments.len()
                    invariant
                        i <= arguments@.len(),
                        constants_wf(constants),
                        forall|x: crate::mir::Id| #[trigger]
                            defined.contains(x) ==> exists|m: int|
                                0 <= m < places@.len() && (#[trigger] places@[m]).0 == x,
                    decreases arguments@.len() - i,
                {
                    proof {
                        assert(Set::empty().union(defined).contains(arguments@[i as int]));
                        assert(defined.contains(arguments@[i as int]));
                    }
                    let operand = resolve(&places, arguments[i], Ghost(defined));
                    emit_operand(&mut instructions, &mut stack_depth, operand);
                    i = i + 1;
                }
                instructions.push(Instruction::TraceCallStarts { num_args: arguments.len() });
                let popped = if arguments.len() < usize::MAX - 3 {
                    arguments.len() + 3
                } else {
                    stack_depth
                };
                stack_depth = depth_after_pop(stack_depth, popped);
                Place::Constant(nothing_constant(&mut constants))
            },
            Expression::TraceCallEnds { return_value } => {
                proof {
                    assert(defined.contains(*return_value));
                }
                let value = resolve(&places, *return_value, Ghost(defined));
                emit_operand(&mut instructions, &mut stack_depth, value);
                instructions.push(Instruction::TraceCallEnds);
                stack_depth = depth_after_pop(stack_depth, 1);
                Place::Constant(nothing_constant(&mut constants))
            },
            Expression::TraceExpressionEvaluated { hir_expression, value } => {
                proof {
                    assert(defined.contains(*hir_expression));
                    assert(defined.contains(*value));
                }
                let site = resolve(&places, *hir_expression, Ghost(defined));
                emit_operand(&mut instructions, &mut stack_depth, site);
                let traced = resolve(&places, *value, Ghost(defined));
                emit_operand(&mut instructions, &mut stack_depth, traced);
                instructions.push(Instruction::TraceExpressionEvaluated);
                stack_depth = depth_after_pop(stack_depth, 2);
                Place::Constant(nothing_constant(&mut constants))
            },
            Expression::TraceFoundFuzzableFunction { hir_definition, function } => {
                proof {
                    assert(defined.contains(*hir_definition));
                    assert(defined.contains(*function));
                }
                let site = resolve(&places, *hir_definition, Ghost(defined));
                emit_operand(&mut instructions, &mut stack_depth, site);
                let fuzzable = resolve(&places, *function, Ghost(defined));
                emit_operand(&mut instructions, &mut stack_depth, fuzzable);
                instructions.push(Instruction::TraceFoundFuzzableFunction);
                stack_depth = depth_after_pop(stack_depth, 2);
                Place::Constant(nothing_constant(&mut constants))
            },
            Expression::Function { .. } => vstd::pervasive::unreached(),
            Expression::Multiple(_) => vstd::pervasive::unreached(),
            Expression::UseModule { .. } => vstd::pervasive::unreached(),
        };
        let ghost places_head = places@;
        places.push((id, place));
        proof {
            assert forall|x: crate::mir::Id| #[trigger]
                ids_defined_before(s, k + 1).contains(x) implies exists|m: int|
                0 <= m < places@.len() && (#[trigger] places@[m]).0 == x by {
                if x == s[k as int].0 {
                    assert(places@[places@.len() - 1].0 == x);
                } else {
                    let j = choose|j: int| 0 <= j < k + 1 && (#[trigger] s[j]).0 == x;
                    assert(j < k);
                    assert(ids_defined_before(s, k as int).contains(x));
                    let m = choose|m: int|
                        0 <= m < places_head.len() && (#[trigger] places_head[m]).0 == x;
                    assert(places@[m] == places_head[m]);
                }
            }
        }
        k = k + 1;
    }
    if !finished {
        // Put the module's return value on top and return it.
        proof {
            assert(ids_defined_before(s, s.len() as int).contains(s.last().0));
        }
        let last_id = mir.body.expressions[body_len - 1].0;
        let place = resolve(&places, last_id, Ghost(ids_defined_before(s, s.len() as int)));
        let needs_push = match place {
            Place::Constant(_) => true,
            Place::Stack(p) => !(p < stack_depth && stack_depth - 1 == p),
        };
        if needs_push {
            emit_operand(&mut instructions, &mut stack_depth, place);
        }
        instructions.push(Instruction::Return);
    }
    Lir { constants, instructions, module_function: 0 }
}

/// The stack's height after an instruction popped its parts and pushed one
/// value.
fn depth_after_build(depth: usize, popped: usize) -> (r: usize) {
    if depth >= popped {
        let remaining = depth - popped;
        if remaining < usize::MAX {
            remaining + 1
        } else {
            remaining
        }
    } else {
        1
    }
}

/// The stack's height after an instruction consumed values without a
/// result.
fn depth_after_pop(depth: usize, popped: usize) -> (r: usize) {
    if depth >= popped {
        depth - popped
    } else {
        0
    }
}

/// A constant `Nothing` tag: what traces and parameters evaluate to.
fn nothing_constant(constants: &mut Constants) -> (r: ConstantId)
    requires
        constants_wf(*old(constants)),
    ensures
        constants_wf(*final(constants)),
{
    push_new_constant(
        constants,
        Constant::Tag {
            symbol: <String as vstd::string::StringExecFns>::from_str("Nothing"),
            value: None,
        },
    )
}

/// Compiles a module's optimized MIR, or, where optimization ended in an
/// error, a module function that panics with the error's message:
/// compilation is total and never aborts.
pub fn compile_module(module: crate::module::Module, optimized: Result<Mir, String>) -> (r: Lir)
    requires
        optimized matches Ok(mir) ==> mir.body.expressions@.len() > 0 && exprs_ssa(
            mir.body.expressions@,
            Set::empty(),
        ) && body_is_flat(mir.body.expressions@),
    ensures
        constants_wf(r.constants),
        r.instructions@.len() > 0,
        r.module_function < r.instructions@.len(),
        r.instructions@.last() is Return || r.instructions@.last() is TailCall
            || r.instructions@.last() is Panic,
        optimized is Err ==> r.instructions@.last() is Panic,
{
    match optimized {
        Ok(mir) => compile_lir(&mir),
        Err(message) => {
            let mir = Mir::build_panic(module, message);
            proof {
                let s = mir.body.expressions@;
                assert forall|k: int|
                    0 <= k < s.len() implies !((#[trigger] s[k]).1 is Function) && !(s[k].1
                    is Multiple) && !(s[k].1 is UseModule) by {
                    if k == 0 {
                    } else if k == 1 {
                    } else {
                        assert(k == 2);
                    }
                }
            }
            compile_lir(&mir)
        },
    }
}

} // verus!
