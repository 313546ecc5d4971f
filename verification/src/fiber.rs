//! A fiber: a single-threaded execution context running compiled
//! instructions over its own heap.
//!
//! The interpreter is deterministic by construction: the next state is a
//! function of the instructions, the constants and the current state, and
//! nothing else. It never unwinds; a panic is a value in the fiber's
//! status. Malformed instruction streams panic the fiber instead of
//! corrupting it. Builtin calls, channels and embedder handles need the
//! scheduler around the fiber and panic it here.

use crate::heap::{
    inline_kind, Heap, HeapData, HeapSlot, InlineInt, InlineObject, KIND_POINTER, heap_wf,
    INLINE_INT_MAX, INLINE_INT_MIN,
};
use crate::hir;
use crate::lir::{constants_wf, Constant, ConstantId, Constants, Instruction, Lir};
use vstd::prelude::*;

verus! {

/// What a fiber is doing.
#[derive(Debug, PartialEq, Eq, Clone, Copy, Structural)]
pub enum Status {
    Running,
    Finished(InlineObject),
    Panicked { reason: InlineObject, responsible: InlineObject },
}

/// One entry of the call stack: where to continue after the call and how
/// deep the data stack was when the call began.
#[derive(Debug, PartialEq, Eq, Clone, Copy, Structural)]
pub struct Frame {
    pub return_instruction: usize,
    pub stack_base: usize,
}

/// A running module: the compiled code, the fiber's heap and stacks.
pub struct Vm {
    pub lir: Lir,
    pub heap: Heap,
    pub data_stack: Vec<InlineObject>,
    pub call_stack: Vec<Frame>,
    pub next_instruction: usize,
    pub status: Status,
}

pub open spec fn vm_wf(vm: Vm) -> bool {
    heap_wf(vm.heap) && constants_wf(vm.lir.constants)
}

/// An instruction's payload, taken out of the stream so the machine can
/// change while acting on it.
enum Decoded {
    PushConstant(ConstantId),
    PushFromStack(usize),
    PopMultipleBelowTop(usize),
    CreateTag(String),
    CreateList(usize),
    CreateStruct(usize),
    CreateFunction { captured_offsets: Vec<usize>, num_args: usize, body_start: usize },
    Call(usize),
    TailCall { num_args: usize, num_locals_to_pop: usize },
    Return,
    Panic,
    TraceCallStarts(usize),
    TraceCallEnds,
    TraceExpressionEvaluated,
    TraceFoundFuzzableFunction,
}

fn decode(instruction: &Instruction) -> (r: Decoded)
    ensures
        match *instruction {
            Instruction::PushConstant(id) => r == Decoded::PushConstant(id),
            Instruction::PushFromStack { offset } => r == Decoded::PushFromStack(offset),
            Instruction::PopMultipleBelowTop { count } => r == Decoded::PopMultipleBelowTop(count),
            Instruction::CreateTag { symbol } => r matches Decoded::CreateTag(s2) && s2@ == symbol@,
            Instruction::CreateList { num_items } => r == Decoded::CreateList(num_items),
            Instruction::CreateStruct { num_fields } => r == Decoded::CreateStruct(num_fields),
            Instruction::CreateFunction { captured_offsets, num_args, body_start } => r matches
                Decoded::CreateFunction { captured_offsets: o2, num_args: n2, body_start: b2 }
                && o2@ == captured_offsets@ && n2 == num_args && b2 == body_start,
            Instruction::Call { num_args } => r == Decoded::Call(num_args),
            Instruction::TailCall { num_args, num_locals_to_pop } => r == (Decoded::TailCall {
                num_args,
                num_locals_to_pop,
            }),
            Instruction::Return => r is Return,
            Instruction::Panic => r is Panic,
            Instruction::TraceCallStarts { num_args } => r == Decoded::TraceCallStarts(num_args),
            Instruction::TraceCallEnds => r is TraceCallEnds,
            Instruction::TraceExpressionEvaluated => r is TraceExpressionEvaluated,
            Instruction::TraceFoundFuzzableFunction => r is TraceFoundFuzzableFunction,
        },
{
    match instruction {
        Instruction::PushConstant(id) => Decoded::PushConstant(*id),
        Instruction::PushFromStack { offset } => Decoded::PushFromStack(*offset),
        Instruction::PopMultipleBelowTop { count } => Decoded::PopMultipleBelowTop(*count),
        Instruction::CreateTag { symbol } => Decoded::CreateTag(symbol.clone()),
        Instruction::CreateList { num_items } => Decoded::CreateList(*num_items),
        Instruction::CreateStruct { num_fields } => Decoded::CreateStruct(*num_fields),
        Instruction::CreateFunction { captured_offsets, num_args, body_start } => {
            Decoded::CreateFunction {
                captured_offsets: captured_offsets.clone(),
                num_args: *num_args,
                body_start: *body_start,
            }
        },
        Instruction::Call { num_args } => Decoded::Call(*num_args),
        Instruction::TailCall { num_args, num_locals_to_pop } => Decoded::TailCall {
            num_args: *num_args,
            num_locals_to_pop: *num_locals_to_pop,
        },
        Instruction::Return => Decoded::Return,
        Instruction::Panic => Decoded::Panic,
        Instruction::TraceCallStarts { num_args } => Decoded::TraceCallStarts(*num_args),
        Instruction::TraceCallEnds => Decoded::TraceCallEnds,
        Instruction::TraceExpressionEvaluated => Decoded::TraceExpressionEvaluated,
        Instruction::TraceFoundFuzzableFunction => Decoded::TraceFoundFuzzableFunction,
    }
}

/// The built value matches its constant: small ints stay inline, and a
/// heap value's slot holds the constant's kind and immediate content.
pub open spec fn materialized_shape(
    constants: Constants,
    id: ConstantId,
    heap: Heap,
    v: InlineObject,
) -> bool {
    match constants.0@[id.0 as int] {
        Constant::Int(x) => if INLINE_INT_MIN <= x <= INLINE_INT_MAX {
            inline_kind(v) == crate::heap::KIND_INT && crate::heap::inline_int_value(v) == x
        } else {
            points_to_data(heap, v) matches Some(HeapData::Int(y)) && y == x
        },
        Constant::Text(t) => points_to_data(heap, v) matches Some(HeapData::Text(t2)) && t2@ == t@,
        Constant::Tag { symbol, value } => (points_to_data(heap, v) matches Some(
            HeapData::Tag { symbol: s2, value: v2 },
        ) && s2@ == symbol@ && (v2 is Some <==> value is Some)),
        Constant::Builtin(_) => inline_kind(v) == crate::heap::KIND_BUILTIN,
        Constant::List(item_ids) => (points_to_data(heap, v) matches Some(HeapData::List(items))
            && items@.len() == item_ids@.len()),
        Constant::Struct(field_ids) => (points_to_data(heap, v) matches Some(
            HeapData::Struct(fields),
        ) && fields@.len() == field_ids@.len()),
        Constant::HirId(_) => points_to_data(heap, v) is Some && (points_to_data(heap, v)->Some_0
            is HirId),
        Constant::Function { body, num_args } => (points_to_data(heap, v) matches Some(
            HeapData::Closure { body: b2, argument_count: a2, captured },
        ) && b2 == body && a2 == num_args && captured@.len() == 0),
    }
}

/// The payload an inline pointer addresses, when it is one and live.
pub open spec fn points_to_data(heap: Heap, v: InlineObject) -> Option<HeapData> {
    if inline_kind(v) == KIND_POINTER && crate::heap::pointer_index(v) < heap.slots@.len()
        && heap.slots@[crate::heap::pointer_index(v) as int] is Some {
        Some(heap.slots@[crate::heap::pointer_index(v) as int]->Some_0.data)
    } else {
        None
    }
}

/// Builds the run-time value of a constant in the given heap. Constants
/// are reference-counted copies here: the shared read-only constant heap
/// needs the full scheduler's lifetime management. `None` when a value
/// cannot be represented, which only unrepresentably large texts reach.
#[verifier::loop_isolation(false)]
fn materialize(heap: &mut Heap, constants: &Constants, id: ConstantId) -> (r: Option<InlineObject>)
    requires
        heap_wf(*old(heap)),
        constants_wf(*constants),
        id.0 < constants.0@.len(),
    ensures
        heap_wf(*final(heap)),
        final(heap).slots@.len() >= old(heap).slots@.len(),
        r matches Some(v) ==> materialized_shape(*constants, id, *final(heap), v),
        r is None ==> constant_unrepresentable(*constants, id.0 as int) || final(heap).slots@.len()
            > 0x1FFF_FFFF_FFFF_FFFF,
    decreases id.0,
{
    match constants.get(id) {
        Constant::Int(value) => {
            let v = *value;
            if INLINE_INT_MIN <= v && v <= INLINE_INT_MAX {
                Some(InlineInt::create(v).0)
            } else {
                let object = heap.allocate(HeapData::Int(v), true);
                object_to_inline(object.index)
            }
        },
        Constant::Text(text) => {
            let copy = text.clone();
            let n = copy.as_str().len();
            if (n as u64) < 0x1000_0000_0000_0000 {
                let object = heap.allocate(HeapData::Text(copy), true);
                object_to_inline(object.index)
            } else {
                None
            }
        },
        Constant::Tag { symbol, value } => {
            let inner = match value {
                Some(inner_id) => {
                    proof {
                        assert(crate::lir::constant_refs_below(
                            constants.0@[id.0 as int],
                            id.0 as int,
                        ));
                    }
                    match materialize(heap, constants, *inner_id) {
                        Some(o) => Some(o),
                        None => { return None },
                    }
                },
                None => None,
            };
            let object = heap.allocate(HeapData::Tag { symbol: symbol.clone(), value: inner }, true);
            object_to_inline(object.index)
        },
        Constant::Builtin(builtin) => {
            Some(crate::heap::InlineBuiltin::create(builtin.table_index()).0)
        },
        Constant::List(item_ids) => {
            let mut items: Vec<InlineObject> = Vec::new();
            let mut i: usize = 0;
            while i < item_ids.len()
                invariant
                    heap_wf(*heap),
                    heap.slots@.len() >= old(heap).slots@.len(),
                    i <= item_ids@.len(),
                    items@.len() == i,
                    item_ids@ == constants.0@[id.0 as int]->List_0@,
                decreases item_ids@.len() - i,
            {
                proof {
                    assert(crate::lir::constant_refs_below(
                        constants.0@[id.0 as int],
                        id.0 as int,
                    ));
                }
                match materialize(heap, constants, item_ids[i]) {
                    Some(o) => items.push(o),
                    None => {
                        proof {
                            if constant_unrepresentable(*constants, item_ids@[i as int].0 as int) {
                                assert(0 <= i < item_ids@.len() && 0 <= (item_ids@[i as int]).0
                                    < id.0 && constant_unrepresentable(
                                    *constants,
                                    item_ids@[i as int].0 as int,
                                ));
                            }
                        }
                        return None;
                    },
                }
                i = i + 1;
            }
            if (items.len() as u64) < 0x1000_0000_0000_0000 {
                let object = heap.allocate(HeapData::List(items), true);
                object_to_inline(object.index)
            } else {
                None
            }
        },
        Constant::Struct(field_ids) => {
            let mut fields: Vec<(InlineObject, InlineObject)> = Vec::new();
            let mut i: usize = 0;
            while i < field_ids.len()
                invariant
                    heap_wf(*heap),
                    heap.slots@.len() >= old(heap).slots@.len(),
                    i <= field_ids@.len(),
                    fields@.len() == i,
                    field_ids@ == constants.0@[id.0 as int]->Struct_0@,
                decreases field_ids@.len() - i,
            {
                proof {
                    assert(crate::lir::constant_refs_below(
                        constants.0@[id.0 as int],
                        id.0 as int,
                    ));
                }
                let (key_id, value_id) = field_ids[i];
                let key = match materialize(heap, constants, key_id) {
                    Some(o) => o,
                    None => {
                        proof {
                            if constant_unrepresentable(*constants, key_id.0 as int) {
                                assert(0 <= i < field_ids@.len() && 0 <= (field_ids@[i as int]).0.0
                                    < id.0 && constant_unrepresentable(
                                    *constants,
                                    field_ids@[i as int].0.0 as int,
                                ));
                            }
                        }
                        return None;
                    },
                };
                let value = match materialize(heap, constants, value_id) {
                    Some(o) => o,
                    None => {
                        proof {
                            if constant_unrepresentable(*constants, value_id.0 as int) {
                                assert(0 <= i < field_ids@.len() && 0 <= (field_ids@[i as int]).1.0
                                    < id.0 && constant_unrepresentable(
                                    *constants,
                                    field_ids@[i as int].1.0 as int,
                                ));
                            }
                        }
                        return None;
                    },
                };
                fields.push((key, value));
                i = i + 1;
            }
            if (fields.len() as u64) < 0x1000_0000_0000_0000 {
                let object = heap.allocate(HeapData::Struct(fields), true);
                object_to_inline(object.index)
            } else {
                None
            }
        },
        Constant::HirId(hir_id) => {
            let object = heap.allocate(HeapData::HirId(hir_id.clone()), true);
            object_to_inline(object.index)
        },
        Constant::Function { body, num_args } => {
            if *num_args < 0x1000_0000 {
                let object = heap.allocate(
                    HeapData::Closure {
                        body: *body,
                        argument_count: *num_args,
                        captured: Vec::new(),
                    },
                    true,
                );
                object_to_inline(object.index)
            } else {
                None
            }
        },
    }
}

/// The pointer word for a slot index, when the index fits next to the tag.
fn object_to_inline(index: usize) -> (r: Option<InlineObject>)
    ensures
        r matches Some(o) ==> inline_kind(o) == KIND_POINTER && crate::heap::pointer_index(o)
            == index,
        r is None ==> (index as u64) > 0x1FFF_FFFF_FFFF_FFFF,
{
    if (index as u64) <= 0x1FFF_FFFF_FFFF_FFFF {
        Some((crate::heap::HeapObject { index }).to_inline())
    } else {
        None
    }
}


/// What a plain data instruction leaves alone: it computes on the stack
/// and moves to the next instruction.
pub open spec fn same_frame(pre: Vm, post: Vm) -> bool {
    post.status == pre.status && post.call_stack@ == pre.call_stack@ && post.next_instruction
        == pre.next_instruction + 1
}

/// A trace instruction consumes its operands, as far as the stack holds
/// them, and carries on; the events go to the embedder's tracer.
pub open spec fn trace_step(pre: Vm, post: Vm, operands: int) -> bool {
    let len = pre.data_stack@.len() as int;
    let cut = if len >= operands {
        len - operands
    } else {
        0
    };
    post.data_stack@ == pre.data_stack@.subrange(0, cut) && same_frame(pre, post)
}

/// A heap grown past what an inline pointer can address; allocation on
/// such a heap may fail, which panics the fiber.
pub open spec fn heap_exhausted(vm: Vm) -> bool {
    vm.heap.slots@.len() > 0x1FFF_FFFF_FFFF_FFFF
}

/// A constant no run-time value can represent: a text, list or struct
/// beyond the header's size field, a function beyond its arity field, or a
/// tag over such a constant.
pub open spec fn constant_unrepresentable(constants: Constants, i: int) -> bool
    decreases i,
{
    0 <= i < constants.0@.len() && match constants.0@[i] {
        Constant::Text(t) => (crate::heap::text_byte_len(t@) as u64) >= 0x1000_0000_0000_0000,
        Constant::Tag { symbol, value } => (value matches Some(inner) && 0 <= inner.0 < i
            && constant_unrepresentable(constants, inner.0 as int)),
        Constant::List(ids) => ids@.len() >= 0x1000_0000_0000_0000 || (exists|j: int|
            0 <= j < ids@.len() && 0 <= (#[trigger] ids@[j]).0 < i && constant_unrepresentable(
                constants,
                ids@[j].0 as int,
            )),
        Constant::Struct(fids) => fids@.len() >= 0x1000_0000_0000_0000 || (exists|j: int|
            0 <= j < fids@.len() && ((0 <= (#[trigger] fids@[j]).0.0 < i
                && constant_unrepresentable(constants, fids@[j].0.0 as int)) || (0 <= fids@[j].1.0
                < i && constant_unrepresentable(constants, fids@[j].1.0 as int)))),
        Constant::Function { body, num_args } => num_args >= 0x1000_0000,
        _ => false,
    }
}

/// Whether a call instruction's requirements hold: enough operands, and
/// the callee is a closure of matching arity. A call on which they fail
/// panics; one on which they hold goes through.
pub open spec fn call_ok(stack: Seq<InlineObject>, heap: Heap, n: int) -> bool {
    let len = stack.len() as int;
    len >= n + 2 && (points_to_data(heap, stack[len - 2 - n]) matches Some(
        HeapData::Closure { body, argument_count, captured },
    ) && argument_count as int == n)
}

/// A successful call: the callee below the arguments and the responsible
/// ID is a closure of matching arity; its captured values and the
/// arguments replace them on the stack and execution continues at its
/// body. A plain call pushes a return frame; a tail call instead drops the
/// caller's locals and keeps the frame.
pub open spec fn call_transition(
    stack: Seq<InlineObject>,
    heap: Heap,
    calls: Seq<Frame>,
    status: Status,
    post: Vm,
    n: int,
    tail: bool,
    locals: int,
    return_ip: usize,
) -> bool {
    let len = stack.len() as int;
    &&& len >= n + 2
    &&& ({
        let callee = stack[len - 2 - n];
        let args = stack.subrange(len - 1 - n, len - 1);
        &&& (points_to_data(heap, callee) matches Some(
            HeapData::Closure { body, argument_count, captured },
        ) && argument_count as int == n && post.next_instruction == body && post.status == status
            && (if tail {
            let base = if len - 2 - n >= locals {
                len - 2 - n - locals
            } else {
                0
            };
            post.data_stack@ == stack.subrange(0, base) + captured@ + args && post.call_stack@
                == calls
        } else {
            post.data_stack@ == stack.subrange(0, len - 2 - n) + captured@ + args
                && post.call_stack@ == calls.push(
                Frame { return_instruction: return_ip, stack_base: (len - 2 - n) as usize },
            )
        }))
    })
}

/// One step of the machine: the per-instruction transition. Where an
/// instruction finds the stack, the heap or its own payload malformed, the
/// fiber panics instead.
pub open spec fn step_rel(pre: Vm, post: Vm) -> bool {
    &&& post.lir == pre.lir
    &&& if pre.next_instruction >= pre.lir.instructions@.len() {
        post.status is Panicked && post.data_stack@ == pre.data_stack@ && post.call_stack@
            == pre.call_stack@
    } else {
        let stack = pre.data_stack@;
        let len = stack.len() as int;
        match pre.lir.instructions@[pre.next_instruction as int] {
            Instruction::PushConstant(id) => if id.0 >= pre.lir.constants.0@.len() {
                post.status is Panicked
            } else {
                ((exists|v: InlineObject|
                    #![trigger materialized_shape(pre.lir.constants, id, post.heap, v)]
                    post.data_stack@ == stack.push(v) && materialized_shape(
                        pre.lir.constants,
                        id,
                        post.heap,
                        v,
                    )) && same_frame(pre, post)) || (post.status is Panicked && (heap_exhausted(
                    post,
                ) || constant_unrepresentable(pre.lir.constants, id.0 as int)))
            },
            Instruction::PushFromStack { offset } => if (offset as int) < len {
                post.data_stack@ == stack.push(stack[len - 1 - offset]) && same_frame(pre, post)
            } else {
                post.status is Panicked
            },
            Instruction::PopMultipleBelowTop { count } => if (count as int) < len {
                post.data_stack@ == stack.subrange(0, len - 1 - count).push(stack.last())
                    && same_frame(pre, post)
            } else {
                post.status is Panicked
            },
            Instruction::CreateTag { symbol } => if len < 1 {
                post.status is Panicked
            } else {
                ((exists|p: InlineObject|
                    #![trigger points_to_data(post.heap, p)]
                    post.data_stack@ == stack.drop_last().push(p) && (points_to_data(post.heap, p)
                        matches Some(HeapData::Tag { symbol: s2, value }) && s2@ == symbol@ && value
                        == Some(stack.last()))) && same_frame(pre, post)) || (post.status
                    is Panicked && heap_exhausted(post))
            },
            Instruction::CreateList { num_items } => if num_items >= 0x1000_0000 || num_items as int
                > len {
                post.status is Panicked
            } else {
                ((exists|p: InlineObject|
                    #![trigger points_to_data(post.heap, p)]
                    post.data_stack@ == stack.subrange(0, len - num_items).push(p) && (
                    points_to_data(post.heap, p) matches Some(HeapData::List(items)) && items@
                        == stack.subrange(len - num_items, len))) && same_frame(pre, post)) || (
                post.status is Panicked && heap_exhausted(post))
            },
            Instruction::CreateStruct { num_fields } => if num_fields >= 0x1000_0000 || 2
                * num_fields > len {
                post.status is Panicked
            } else {
                ((exists|p: InlineObject|
                    #![trigger points_to_data(post.heap, p)]
                    post.data_stack@ == stack.subrange(0, len - 2 * num_fields).push(p) && (
                    points_to_data(post.heap, p) matches Some(HeapData::Struct(fields))
                        && fields@.len() == num_fields && (forall|i: int|
                        0 <= i < num_fields ==> #[trigger] fields@[i] == (
                            stack[len - 2 * num_fields + 2 * i],
                            stack[len - 2 * num_fields + 2 * i + 1],
                        )))) && same_frame(pre, post)) || (post.status is Panicked
                    && heap_exhausted(post))
            },
            Instruction::CreateFunction { captured_offsets, num_args, body_start } => if num_args
                >= 0x1000_0000 || captured_offsets@.len() >= 0x1000_0000 || (exists|i: int|
                0 <= i < captured_offsets@.len() && (#[trigger] captured_offsets@[i] as int)
                    >= len) {
                post.status is Panicked
            } else {
                ((exists|p: InlineObject|
                    #![trigger points_to_data(post.heap, p)]
                    post.data_stack@ == stack.push(p) && (points_to_data(post.heap, p) matches Some(
                        HeapData::Closure { body, argument_count, captured },
                    ) && body == body_start && argument_count == num_args && captured@.len()
                        == captured_offsets@.len() && (forall|i: int|
                        0 <= i < captured_offsets@.len() ==> #[trigger] captured@[i] == stack[len
                            - 1 - captured_offsets@[i]]))) && same_frame(pre, post)) || (post.status
                    is Panicked && heap_exhausted(post))
            },
            Instruction::Call { num_args } => if call_ok(stack, pre.heap, num_args as int) {
                call_transition(
                    stack,
                    pre.heap,
                    pre.call_stack@,
                    pre.status,
                    post,
                    num_args as int,
                    false,
                    0,
                    (pre.next_instruction + 1) as usize,
                )
            } else {
                post.status is Panicked
            },
            Instruction::TailCall { num_args, num_locals_to_pop } => if call_ok(
                stack,
                pre.heap,
                num_args as int,
            ) {
                call_transition(
                    stack,
                    pre.heap,
                    pre.call_stack@,
                    pre.status,
                    post,
                    num_args as int,
                    true,
                    num_locals_to_pop as int,
                    (pre.next_instruction + 1) as usize,
                )
            } else {
                post.status is Panicked
            },
            Instruction::Return => if len >= 1 {
                if pre.call_stack@.len() > 0 {
                    let frame = pre.call_stack@.last();
                    let base = if frame.stack_base as int <= len - 1 {
                        frame.stack_base as int
                    } else {
                        len - 1
                    };
                    post.data_stack@ == stack.subrange(0, base).push(stack.last())
                        && post.call_stack@ == pre.call_stack@.drop_last()
                        && post.next_instruction == frame.return_instruction && post.status
                        == pre.status
                } else {
                    post.status == Status::Finished(stack.last()) && post.data_stack@
                        == stack.drop_last() && post.call_stack@ == pre.call_stack@
                }
            } else {
                post.status is Panicked
            },
            Instruction::Panic => if len >= 2 {
                post.status == (Status::Panicked {
                    reason: stack[len - 2],
                    responsible: stack[len - 1],
                }) && post.data_stack@ == stack.subrange(0, len - 2) && post.call_stack@
                    == pre.call_stack@
            } else {
                post.status is Panicked
            },
            Instruction::TraceCallStarts { num_args } => trace_step(pre, post, num_args + 3),
            Instruction::TraceCallEnds => trace_step(pre, post, 1),
            Instruction::TraceExpressionEvaluated => trace_step(pre, post, 2),
            Instruction::TraceFoundFuzzableFunction => trace_step(pre, post, 2),
        }
    }
}

/// The machine goes from `pre` to `post` in at most `fuel` steps, each a
/// `step_rel` transition of a running fiber.
pub open spec fn reaches(pre: Vm, post: Vm, fuel: nat) -> bool
    decreases fuel,
{
    pre == post || (fuel > 0 && pre.status is Running && exists|mid: Vm|
        #[trigger] step_rel(pre, mid) && reaches(mid, post, (fuel - 1) as nat))
}

/// More fuel reaches no less.
pub proof fn lemma_reaches_weaken(pre: Vm, post: Vm, fuel: nat, more: nat)
    requires
        reaches(pre, post, fuel),
        fuel <= more,
    ensures
        reaches(pre, post, more),
    decreases fuel,
{
    if pre == post {
    } else {
        let mid = choose|mid: Vm| #[trigger] step_rel(pre, mid) && reaches(
            mid,
            post,
            (fuel - 1) as nat,
        );
        lemma_reaches_weaken(mid, post, (fuel - 1) as nat, (more - 1) as nat);
    }
}

/// A reachable running state followed by one more step is still reachable.
pub proof fn lemma_reaches_step(pre: Vm, mid: Vm, post: Vm, fuel: nat)
    requires
        reaches(pre, mid, fuel),
        mid.status is Running,
        step_rel(mid, post),
    ensures
        reaches(pre, post, fuel + 1),
    decreases fuel,
{
    if pre == mid {
        assert(reaches(post, post, fuel));
    } else {
        let next = choose|next: Vm| #[trigger] step_rel(pre, next) && reaches(
            next,
            mid,
            (fuel - 1) as nat,
        );
        lemma_reaches_step(next, mid, post, (fuel - 1) as nat);
    }
}

/// Exactly `n` transitions, each taken while the fiber runs.
pub open spec fn steps_exactly(pre: Vm, post: Vm, n: nat) -> bool
    decreases n,
{
    if n == 0 {
        post == pre
    } else {
        pre.status is Running && exists|mid: Vm|
            #[trigger] step_rel(pre, mid) && steps_exactly(mid, post, (n - 1) as nat)
    }
}

/// A chain of exact steps grows by one step at its end.
pub proof fn lemma_steps_exactly_snoc(pre: Vm, mid: Vm, post: Vm, n: nat)
    requires
        steps_exactly(pre, mid, n),
        mid.status is Running,
        step_rel(mid, post),
    ensures
        steps_exactly(pre, post, n + 1),
    decreases n,
{
    if n == 0 {
        assert(step_rel(pre, post) && steps_exactly(post, post, 0));
    } else {
        let m = choose|m: Vm| #[trigger] step_rel(pre, m) && steps_exactly(m, mid, (n - 1) as nat);
        lemma_steps_exactly_snoc(m, mid, post, (n - 1) as nat);
        assert(step_rel(pre, m) && steps_exactly(m, post, n));
    }
}

impl Vm {
    /// A fiber about to run the module function of the compiled module.
    pub fn for_module(lir: Lir) -> (r: Vm)
        requires
            constants_wf(lir.constants),
        ensures
            vm_wf(r),
            r.status is Running,
            r.next_instruction == lir.module_function,
            r.data_stack@.len() == 0,
            r.call_stack@.len() == 0,
    {
        let module_function = lir.module_function;
        Vm {
            lir,
            heap: Heap::new(),
            data_stack: Vec::new(),
            call_stack: Vec::new(),
            next_instruction: module_function,
            status: Status::Running,
        }
    }

    /// Releases one reference to the value if it lives on the heap; inline
    /// values need no bookkeeping. Dangling pointers are ignored rather
    /// than trusted.
    fn drop_value(&mut self, value: InlineObject)
        requires
            vm_wf(*old(self)),
        ensures
            vm_wf(*final(self)),
            final(self).lir == old(self).lir,
            final(self).data_stack == old(self).data_stack,
            final(self).call_stack == old(self).call_stack,
            final(self).next_instruction == old(self).next_instruction,
            final(self).status == old(self).status,
    {
        if value.kind() == KIND_POINTER {
            let object = value.to_heap_object();
            if object.index < self.heap.slots.len() {
                let live = match &self.heap.slots[object.index] {
                    Some(_) => true,
                    None => false,
                };
                if live {
                    self.heap.drop(object);
                }
            }
        }
    }

    /// Takes one more reference to the value if it lives on the heap;
    /// nothing is moved or freed.
    fn dup_value(&mut self, value: InlineObject)
        requires
            vm_wf(*old(self)),
        ensures
            vm_wf(*final(self)),
            final(self).lir == old(self).lir,
            final(self).data_stack == old(self).data_stack,
            final(self).call_stack == old(self).call_stack,
            final(self).next_instruction == old(self).next_instruction,
            final(self).status == old(self).status,
            final(self).heap.slots@.len() == old(self).heap.slots@.len(),
            forall|j: int|
                0 <= j < old(self).heap.slots@.len() ==> match (
                    old(self).heap.slots@[j],
                    #[trigger] final(self).heap.slots@[j],
                ) {
                    (Some(s1), Some(s2)) => s2.data == s1.data && s2.header == s1.header,
                    (None, None) => true,
                    _ => false,
                },
    {
        if value.kind() == KIND_POINTER {
            let object = value.to_heap_object();
            if object.index < self.heap.slots.len() {
                let can_count = match &self.heap.slots[object.index] {
                    Some(slot) => slot.reference_count < u64::MAX,
                    None => false,
                };
                if can_count {
                    self.heap.dup(object);
                }
            }
        }
    }

    /// Stops the fiber with a panic the virtual machine itself is
    /// responsible for: a malformed instruction stream or an unsupported
    /// operation.
    fn bail(&mut self, message: &str)
        requires
            vm_wf(*old(self)),
        ensures
            vm_wf(*final(self)),
            final(self).status is Panicked,
            final(self).lir == old(self).lir,
            final(self).data_stack == old(self).data_stack,
            final(self).call_stack == old(self).call_stack,
            final(self).next_instruction == old(self).next_instruction,
            final(self).heap.slots@.len() >= old(self).heap.slots@.len(),
    {
        let n = message.len();
        let reason = if (n as u64) < 0x1000_0000_0000_0000 {
            let text = <String as vstd::string::StringExecFns>::from_str(message);
            let object = self.heap.allocate(HeapData::Text(text), true);
            match object_to_inline(object.index) {
                Some(o) => o,
                None => InlineInt::create(0).0,
            }
        } else {
            InlineInt::create(0).0
        };
        let responsible_object = self.heap.allocate(HeapData::HirId(hir::Id::needs()), true);
        let responsible = match object_to_inline(responsible_object.index) {
            Some(o) => o,
            None => InlineInt::create(0).0,
        };
        self.status = Status::Panicked { reason, responsible };
    }

    fn pop_value(&mut self) -> (r: Option<InlineObject>)
        ensures
            final(self).heap == old(self).heap,
            final(self).lir == old(self).lir,
            final(self).status == old(self).status,
            final(self).next_instruction == old(self).next_instruction,
            final(self).call_stack == old(self).call_stack,
            old(self).data_stack@.len() > 0 ==> (r matches Some(v) && v == old(self).data_stack@.last() && final(self).data_stack@ == old(self).data_stack@.drop_last()),
            old(self).data_stack@.len() == 0 ==> r is None && final(self).data_stack@ == old(self).data_stack@,
    {
        self.data_stack.pop()
    }

    /// Performs one instruction.
    #[verifier::loop_isolation(false)]
    #[verifier::rlimit(100)]
    #[verifier::spinoff_prover]
    fn step(&mut self)
        requires
            vm_wf(*old(self)),
        ensures
            vm_wf(*final(self)),
            final(self).lir == old(self).lir,
            step_rel(*old(self), *final(self)),
    {
        let ip = self.next_instruction;
        if ip >= self.lir.instructions.len() {
            self.bail("The instruction pointer left the instruction stream.");
            return ;
        }
        let decoded = decode(&self.lir.instructions[ip]);
        self.next_instruction = ip + 1;
        match decoded {
            Decoded::PushConstant(id) => {
                if id.0 >= self.lir.constants.0.len() {
                    self.bail("An instruction pushes a constant that does not exist.");
                    return ;
                }
                match materialize(&mut self.heap, &self.lir.constants, id) {
                    Some(value) => {
                        self.data_stack.push(value);
                        proof {
                            assert(materialized_shape(
                                old(self).lir.constants,
                                id,
                                self.heap,
                                value,
                            ));
                            assert(self.data_stack@ == old(self).data_stack@.push(value));
                        }
                    },
                    None => self.bail("A constant cannot be represented."),
                }
            },
            Decoded::PushFromStack(offset) => {
                let len = self.data_stack.len();
                if offset >= len {
                    self.bail("An instruction reads below the bottom of the stack.");
                    return ;
                }
                let value = self.data_stack[len - 1 - offset];
                self.dup_value(value);
                self.data_stack.push(value);
            },
            Decoded::PopMultipleBelowTop(count) => {
                let len = self.data_stack.len();
                if count >= len {
                    self.bail("An instruction pops below the bottom of the stack.");
                    return ;
                }
                let ghost len0 = old(self).data_stack@.len() as int;
                let top = match self.pop_value() {
                    Some(v) => v,
                    None => vstd::pervasive::unreached(),
                };
                let mut remaining = count;
                while remaining > 0
                    invariant
                        vm_wf(*self),
                        self.lir == old(self).lir,
                        remaining <= count,
                        self.status == old(self).status,
                        self.call_stack == old(self).call_stack,
                        self.next_instruction == old(self).next_instruction + 1,
                        self.data_stack@ =~= old(self).data_stack@.subrange(
                            0,
                            len0 - 1 - (count - remaining),
                        ),
                    decreases remaining,
                {
                    match self.pop_value() {
                        Some(v) => self.drop_value(v),
                        None => {},
                    }
                    proof {
                        assert(old(self).data_stack@.subrange(
                            0,
                            len0 - 1 - (count - remaining),
                        ).drop_last() =~= old(self).data_stack@.subrange(
                            0,
                            len0 - 1 - (count - remaining) - 1,
                        ));
                    }
                    remaining = remaining - 1;
                }
                self.data_stack.push(top);
                proof {
                    assert(self.data_stack@ =~= old(self).data_stack@.subrange(
                        0,
                        len0 - 1 - count,
                    ).push(old(self).data_stack@.last()));
                }
            },
            Decoded::CreateTag(symbol) => {
                let value = match self.pop_value() {
                    Some(v) => v,
                    None => {
                        self.bail("An instruction creates a tag from an empty stack.");
                        return ;
                    },
                };
                let object = self.heap.allocate(
                    HeapData::Tag { symbol, value: Some(value) },
                    true,
                );
                match object_to_inline(object.index) {
                    Some(o) => {
                        self.data_stack.push(o);
                        proof {
                            assert(self.data_stack@ =~= old(self).data_stack@.drop_last().push(o));
                            assert(points_to_data(self.heap, o) matches Some(HeapData::Tag { .. }));
                        }
                    },
                    None => self.bail("The heap's address space is exhausted."),
                }
            },
            Decoded::CreateList(num_items) => {
                if num_items >= 0x1000_0000 {
                    self.bail("An instruction creates an unrepresentably large list.");
                    return ;
                }
                let ghost stack0 = old(self).data_stack@;
                let ghost len0 = stack0.len() as int;
                let mut items: Vec<InlineObject> = Vec::new();
                let mut remaining = num_items;
                while remaining > 0
                    invariant
                        vm_wf(*self),
                        self.lir == old(self).lir,
                        remaining <= num_items,
                        items@.len() == num_items - remaining,
                        num_items - remaining <= len0,
                        num_items < 0x1000_0000,
                        self.status == old(self).status,
                        self.call_stack == old(self).call_stack,
                        self.next_instruction == old(self).next_instruction + 1,
                        self.data_stack@ =~= stack0.subrange(0, len0 - (num_items - remaining)),
                        forall|j: int|
                            0 <= j < items@.len() ==> #[trigger] items@[j] == stack0[len0 - 1 - j],
                    decreases remaining,
                {
                    let ghost popped = num_items - remaining;
                    match self.pop_value() {
                        Some(v) => items.push(v),
                        None => {
                            self.bail("An instruction creates a list from an empty stack.");
                            return ;
                        },
                    }
                    proof {
                        assert(stack0.subrange(0, len0 - popped).drop_last() =~= stack0.subrange(
                            0,
                            len0 - popped - 1,
                        ));
                        assert(stack0.subrange(0, len0 - popped).last() == stack0[len0 - 1
                            - popped]);
                    }
                    remaining = remaining - 1;
                }
                let ghost items_before = items@;
                reverse_in_place(&mut items);
                proof {
                    assert forall|i: int| 0 <= i < num_items implies #[trigger] items@[i]
                        == stack0[len0 - (num_items as int) + i] by {
                        assert(items@[i] == items_before[num_items - 1 - i]);
                    }
                    assert(items@ =~= stack0.subrange(len0 - num_items, len0));
                }
                let object = self.heap.allocate(HeapData::List(items), true);
                match object_to_inline(object.index) {
                    Some(o) => {
                        self.data_stack.push(o);
                        proof {
                            assert(self.data_stack@ =~= stack0.subrange(
                                0,
                                len0 - num_items,
                            ).push(o));
                            assert(points_to_data(self.heap, o) matches Some(
                                HeapData::List { .. },
                            ));
                        }
                    },
                    None => self.bail("The heap's address space is exhausted."),
                }
            },
            Decoded::CreateStruct(num_fields) => {
                if num_fields >= 0x1000_0000 {
                    self.bail("An instruction creates an unrepresentably large struct.");
                    return ;
                }
                let ghost stack0 = old(self).data_stack@;
                let ghost len0 = stack0.len() as int;
                let mut fields: Vec<(InlineObject, InlineObject)> = Vec::new();
                let mut remaining = num_fields;
                while remaining > 0
                    invariant
                        vm_wf(*self),
                        self.lir == old(self).lir,
                        remaining <= num_fields,
                        fields@.len() == num_fields - remaining,
                        2 * (num_fields - remaining) <= len0,
                        num_fields < 0x1000_0000,
                        self.status == old(self).status,
                        self.call_stack == old(self).call_stack,
                        self.next_instruction == old(self).next_instruction + 1,
                        self.data_stack@ =~= stack0.subrange(
                            0,
                            len0 - 2 * (num_fields - remaining),
                        ),
                        forall|j: int|
                            0 <= j < fields@.len() ==> #[trigger] fields@[j] == (
                                stack0[len0 - 2 - 2 * j],
                                stack0[len0 - 1 - 2 * j],
                            ),
                    decreases remaining,
                {
                    let ghost pairs = num_fields - remaining;
                    let value = match self.pop_value() {
                        Some(v) => v,
                        None => {
                            self.bail("An instruction creates a struct from an empty stack.");
                            return ;
                        },
                    };
                    proof {
                        assert(stack0.subrange(0, len0 - 2 * pairs).drop_last() =~= stack0.subrange(
                            0,
                            len0 - 2 * pairs - 1,
                        ));
                        assert(stack0.subrange(0, len0 - 2 * pairs).last() == stack0[len0 - 1 - 2
                            * pairs]);
                    }
                    let key = match self.pop_value() {
                        Some(v) => v,
                        None => {
                            self.bail("An instruction creates a struct from an empty stack.");
                            return ;
                        },
                    };
                    proof {
                        assert(stack0.subrange(0, len0 - 2 * pairs - 1).drop_last()
                            =~= stack0.subrange(0, len0 - 2 * pairs - 2));
                        assert(stack0.subrange(0, len0 - 2 * pairs - 1).last() == stack0[len0 - 2
                            - 2 * pairs]);
                    }
                    fields.push((key, value));
                    remaining = remaining - 1;
                }
                let ghost fields_before = fields@;
                reverse_pairs_in_place(&mut fields);
                proof {
                    let n = num_fields as int;
                    assert forall|i: int| 0 <= i < n implies #[trigger] fields@[i] == (
                        stack0[len0 - 2 * n + 2 * i],
                        stack0[len0 - 2 * n + 2 * i + 1],
                    ) by {
                        assert(fields@[i] == fields_before[n - 1 - i]);
                        assert(fields_before[n - 1 - i] == (
                            stack0[len0 - 2 - 2 * (n - 1 - i)],
                            stack0[len0 - 1 - 2 * (n - 1 - i)],
                        ));
                    }
                }
                let object = self.heap.allocate(HeapData::Struct(fields), true);
                match object_to_inline(object.index) {
                    Some(o) => {
                        self.data_stack.push(o);
                        proof {
                            assert(self.data_stack@ =~= stack0.subrange(
                                0,
                                len0 - 2 * (num_fields as int),
                            ).push(o));
                            assert(points_to_data(self.heap, o) matches Some(
                                HeapData::Struct { .. },
                            ));
                        }
                    },
                    None => self.bail("The heap's address space is exhausted."),
                }
            },
            Decoded::CreateFunction { captured_offsets, num_args, body_start } => {
                if num_args >= 0x1000_0000 || captured_offsets.len() >= 0x1000_0000 {
                    self.bail("An instruction creates an unrepresentable function.");
                    return ;
                }
                let ghost stack0 = old(self).data_stack@;
                let ghost len0 = stack0.len() as int;
                let mut captured: Vec<InlineObject> = Vec::new();
                let mut i: usize = 0;
                while i < captured_offsets.len()
                    invariant
                        vm_wf(*self),
                        self.lir == old(self).lir,
                        captured@.len() == i,
                        i <= captured_offsets@.len(),
                        captured_offsets@.len() < 0x1000_0000,
                        self.status == old(self).status,
                        self.call_stack == old(self).call_stack,
                        self.next_instruction == old(self).next_instruction + 1,
                        self.data_stack@ == stack0,
                        forall|j: int|
                            0 <= j < i ==> (#[trigger] captured_offsets@[j] as int) < len0
                                && captured@[j] == stack0[len0 - 1 - captured_offsets@[j]],
                    decreases captured_offsets@.len() - i,
                {
                    let offset = captured_offsets[i];
                    let len = self.data_stack.len();
                    if offset >= len {
                        self.bail("An instruction captures below the bottom of the stack.");
                        return ;
                    }
                    let value = self.data_stack[len - 1 - offset];
                    self.dup_value(value);
                    captured.push(value);
                    i = i + 1;
                }
                let object = self.heap.allocate(
                    HeapData::Closure { body: body_start, argument_count: num_args, captured },
                    true,
                );
                match object_to_inline(object.index) {
                    Some(o) => {
                        self.data_stack.push(o);
                        proof {
                            assert(self.data_stack@ =~= stack0.push(o));
                            assert(points_to_data(self.heap, o) matches Some(
                                HeapData::Closure { .. },
                            ));
                        }
                    },
                    None => self.bail("The heap's address space is exhausted."),
                }
            },
            Decoded::Call(num_args) => {
                self.call(num_args, None);
                proof {
                    assert((self.status is Panicked) || call_transition(
                        old(self).data_stack@,
                        old(self).heap,
                        old(self).call_stack@,
                        old(self).status,
                        *self,
                        num_args as int,
                        false,
                        0int,
                        (old(self).next_instruction + 1) as usize,
                    ));
                }
            },
            Decoded::TailCall { num_args, num_locals_to_pop } => {
                self.call(num_args, Some(num_locals_to_pop));
                proof {
                    assert((self.status is Panicked) || call_transition(
                        old(self).data_stack@,
                        old(self).heap,
                        old(self).call_stack@,
                        old(self).status,
                        *self,
                        num_args as int,
                        true,
                        num_locals_to_pop as int,
                        (old(self).next_instruction + 1) as usize,
                    ));
                }
            },
            Decoded::Return => {
                let value = match self.pop_value() {
                    Some(v) => v,
                    None => {
                        self.bail("An instruction returns from an empty stack.");
                        return ;
                    },
                };
                let ghost s1 = old(self).data_stack@.drop_last();
                match self.call_stack.pop() {
                    Some(frame) => {
                        while self.data_stack.len() > frame.stack_base
                            invariant
                                vm_wf(*self),
                                self.lir == old(self).lir,
                                self.status == old(self).status,
                                self.call_stack@ == old(self).call_stack@.drop_last(),
                                self.data_stack@.len() <= s1.len(),
                                self.data_stack@ =~= s1.subrange(
                                    0,
                                    self.data_stack@.len() as int,
                                ),
                                s1.len() >= frame.stack_base ==> self.data_stack@.len()
                                    >= frame.stack_base,
                                s1.len() < frame.stack_base ==> self.data_stack@ == s1,
                            decreases self.data_stack@.len(),
                        {
                            match self.pop_value() {
                                Some(local) => self.drop_value(local),
                                None => {},
                            }
                        }
                        self.data_stack.push(value);
                        self.next_instruction = frame.return_instruction;
                        proof {
                            let stack = old(self).data_stack@;
                            let len = stack.len() as int;
                            let base = if frame.stack_base as int <= len - 1 {
                                frame.stack_base as int
                            } else {
                                len - 1
                            };
                            assert(s1.len() as int == len - 1);
                            assert(self.data_stack@ =~= stack.subrange(0, base).push(stack.last()));
                            assert(self.call_stack@ == old(self).call_stack@.drop_last());
                            assert(frame == old(self).call_stack@.last());
                        }
                    },
                    None => {
                        // The module function itself returned.
                        self.status = Status::Finished(value);
                        proof {
                            assert(self.data_stack@ == old(self).data_stack@.drop_last());
                            assert(self.call_stack@ == old(self).call_stack@);
                        }
                    },
                }
            },
            Decoded::Panic => {
                let responsible = match self.pop_value() {
                    Some(v) => v,
                    None => {
                        self.bail("An instruction panics from an empty stack.");
                        return ;
                    },
                };
                let reason = match self.pop_value() {
                    Some(v) => v,
                    None => {
                        self.bail("An instruction panics from an empty stack.");
                        return ;
                    },
                };
                self.status = Status::Panicked { reason, responsible };
                proof {
                    let stack0 = old(self).data_stack@;
                    let len0 = stack0.len() as int;
                    assert(self.data_stack@ =~= stack0.subrange(0, len0 - 2));
                    assert(reason == stack0[len0 - 2] && responsible == stack0[len0 - 1]);
                }
            },
            Decoded::TraceCallStarts(num_args) => {
                // Tracers live with the embedder; the operands are consumed:
                // the arguments, then the call site, the callee and the
                // responsible ID.
                self.drop_top_values(num_args);
                self.drop_top_values(3);
                proof {
                    let stack0 = old(self).data_stack@;
                    let len0 = stack0.len() as int;
                    let k = num_args + 3;
                    let mid = if len0 >= num_args as int {
                        len0 - num_args
                    } else {
                        0
                    };
                    let cut = if len0 >= k {
                        len0 - k
                    } else {
                        0
                    };
                    assert(stack0.subrange(0, mid).subrange(
                        0,
                        if mid >= 3 {
                            mid - 3
                        } else {
                            0
                        },
                    ) =~= stack0.subrange(0, cut));
                    assert(trace_step(*old(self), *self, num_args + 3));
                }
            },
            Decoded::TraceCallEnds => {
                self.drop_top_values(1);
                proof {
                    assert(trace_step(*old(self), *self, 1));
                }
            },
            Decoded::TraceExpressionEvaluated => {
                self.drop_top_values(2);
                proof {
                    assert(trace_step(*old(self), *self, 2));
                }
            },
            Decoded::TraceFoundFuzzableFunction => {
                self.drop_top_values(2);
                proof {
                    assert(trace_step(*old(self), *self, 2));
                }
            },
        }
    }

    /// Pops and releases up to `count` values; a shorter stack just
    /// empties.
    #[verifier::loop_isolation(false)]
    fn drop_top_values(&mut self, count: usize)
        requires
            vm_wf(*old(self)),
        ensures
            vm_wf(*final(self)),
            final(self).lir == old(self).lir,
            final(self).status == old(self).status,
            final(self).call_stack == old(self).call_stack,
            final(self).next_instruction == old(self).next_instruction,
            final(self).data_stack@ == old(self).data_stack@.subrange(
                0,
                if old(self).data_stack@.len() >= count {
                    old(self).data_stack@.len() - count
                } else {
                    0
                },
            ),
    {
        let ghost stack0 = old(self).data_stack@;
        let ghost len0 = stack0.len() as int;
        let mut remaining = count;
        while remaining > 0
            invariant
                vm_wf(*self),
                remaining <= count,
                self.lir == old(self).lir,
                self.status == old(self).status,
                self.call_stack == old(self).call_stack,
                self.next_instruction == old(self).next_instruction,
                self.data_stack@ =~= stack0.subrange(
                    0,
                    if len0 >= count - remaining {
                        len0 - (count - remaining)
                    } else {
                        0
                    },
                ),
            decreases remaining,
        {
            let ghost popped = count - remaining;
            match self.pop_value() {
                Some(v) => {
                    proof {
                        assert(stack0.subrange(0, len0 - popped).drop_last() =~= stack0.subrange(
                            0,
                            len0 - popped - 1,
                        ));
                    }
                    self.drop_value(v);
                },
                None => {
                    proof {
                        assert(self.data_stack@.len() == 0);
                        assert(len0 <= popped);
                        assert(self.data_stack@ =~= stack0.subrange(
                            0,
                            if len0 >= popped + 1 {
                                len0 - popped - 1
                            } else {
                                0
                            },
                        ));
                    }
                },
            }
            remaining = remaining - 1;
        }
        proof {
            assert(self.data_stack@ =~= stack0.subrange(
                0,
                if len0 >= count {
                    len0 - count
                } else {
                    0
                },
            ));
        }
    }

    /// Calls the value below the arguments and the responsible ID on the
    /// stack. A tail call first drops the given number of locals instead of
    /// pushing a return frame.
    #[verifier::loop_isolation(false)]
    fn call(&mut self, num_args: usize, tail_locals: Option<usize>)
        requires
            vm_wf(*old(self)),
        ensures
            vm_wf(*final(self)),
            final(self).lir == old(self).lir,
            if call_ok(old(self).data_stack@, old(self).heap, num_args as int) {
                call_transition(
                    old(self).data_stack@,
                    old(self).heap,
                    old(self).call_stack@,
                    old(self).status,
                    *final(self),
                    num_args as int,
                    tail_locals is Some,
                    (match tail_locals {
                        Some(l) => l as int,
                        None => 0int,
                    }),
                    old(self).next_instruction,
                )
            } else {
                final(self).status is Panicked
            },
    {
        let ghost stack0 = old(self).data_stack@;
        let ghost len0 = stack0.len() as int;
        let responsible = match self.pop_value() {
            Some(v) => v,
            None => {
                self.bail("A call has no responsible ID on the stack.");
                return ;
            },
        };
        let mut reversed_args: Vec<InlineObject> = Vec::new();
        let mut remaining = num_args;
        while remaining > 0
            invariant
                vm_wf(*self),
                self.lir == old(self).lir,
                remaining <= num_args,
                num_args - remaining <= len0 - 1,
                self.status == old(self).status,
                self.call_stack == old(self).call_stack,
                self.heap == old(self).heap,
                self.next_instruction == old(self).next_instruction,
                self.data_stack@ =~= stack0.subrange(0, len0 - 1 - (num_args - remaining)),
                reversed_args@.len() == num_args - remaining,
                forall|j: int|
                    0 <= j < reversed_args@.len() ==> #[trigger] reversed_args@[j] == stack0[len0
                        - 2 - j],
            decreases remaining,
        {
            let ghost popped = num_args - remaining;
            match self.pop_value() {
                Some(v) => {
                    proof {
                        assert(stack0.subrange(0, len0 - 1 - popped).drop_last()
                            =~= stack0.subrange(0, len0 - 2 - popped));
                        assert(stack0.subrange(0, len0 - 1 - popped).last() == stack0[len0 - 2
                            - popped]);
                    }
                    reversed_args.push(v);
                },
                None => {
                    self.bail("A call has too few arguments on the stack.");
                    return ;
                },
            }
            remaining = remaining - 1;
        }
        let callee = match self.pop_value() {
            Some(v) => v,
            None => {
                self.bail("A call has no callee on the stack.");
                return ;
            },
        };
        proof {
            assert(len0 >= num_args + 2);
            assert(stack0.subrange(0, len0 - 1 - num_args).last() == stack0[len0 - 2 - num_args]);
            assert(callee == stack0[len0 - 2 - num_args]);
            assert(stack0.subrange(0, len0 - 1 - num_args).drop_last() =~= stack0.subrange(
                0,
                len0 - 2 - num_args,
            ));
        }
        if callee.kind() != KIND_POINTER {
            // Builtins, ports and handles need the scheduler around the
            // fiber; everything else is a type error either way.
            self.drop_value(responsible);
            self.status = Status::Panicked {
                reason: callee,
                responsible,
            };
            return ;
        }
        let object = callee.to_heap_object();
        if object.index >= self.heap.slots.len() {
            self.bail("A call's callee points outside the heap.");
            return ;
        }
        let closure = match &self.heap.slots[object.index] {
            Some(HeapSlot { data: HeapData::Closure { body, argument_count, captured }, .. }) => {
                Some((*body, *argument_count, captured.len()))
            },
            _ => None,
        };
        let (body, argument_count, captured_len) = match closure {
            Some(c) => c,
            None => {
                self.status = Status::Panicked { reason: callee, responsible };
                return ;
            },
        };
        let ghost captured_seq = points_to_data(old(self).heap, callee)->Some_0->Closure_captured@;
        proof {
            assert(captured_len == captured_seq.len());
        }
        if argument_count != num_args {
            self.bail("A function is called with the wrong number of arguments.");
            return ;
        }
        // Take the captured values, each with its own reference, before any
        // local is dropped: a drop could otherwise free the closure.
        let mut captured_values: Vec<InlineObject> = Vec::new();
        let mut i: usize = 0;
        while i < captured_len
            invariant
                vm_wf(*self),
                self.lir == old(self).lir,
                i <= captured_len,
                self.status == old(self).status,
                self.call_stack == old(self).call_stack,
                self.next_instruction == old(self).next_instruction,
                self.data_stack@ =~= stack0.subrange(0, len0 - 2 - num_args),
                num_args + 2 <= len0,
                captured_len == captured_seq.len(),
                inline_kind(callee) == KIND_POINTER,
                object.index == crate::heap::pointer_index(callee),
                object.index < self.heap.slots@.len(),
                points_to_data(self.heap, callee) == points_to_data(old(self).heap, callee),
                points_to_data(old(self).heap, callee) is Some,
                points_to_data(old(self).heap, callee)->Some_0 is Closure,
                captured_values@ =~= captured_seq.subrange(0, i as int),
            decreases captured_len - i,
        {
            let ghost heap_before = self.heap;
            let value = match &self.heap.slots[object.index] {
                Some(HeapSlot { data: HeapData::Closure { captured, .. }, .. }) => captured[i],
                _ => vstd::pervasive::unreached(),
            };
            self.dup_value(value);
            captured_values.push(value);
            proof {
                assert(points_to_data(self.heap, callee) == points_to_data(heap_before, callee));
                assert(captured_values@ =~= captured_seq.subrange(0, i + 1));
            }
            i = i + 1;
        }
        proof {
            assert(captured_values@ =~= captured_seq);
        }
        match tail_locals {
            Some(num_locals_to_pop) => {
                self.drop_top_values(num_locals_to_pop);
            },
            None => {
                let frame = Frame {
                    return_instruction: self.next_instruction,
                    stack_base: self.data_stack.len(),
                };
                self.call_stack.push(frame);
            },
        }
        let ghost base_stack = self.data_stack@;
        let mut i2: usize = 0;
        while i2 < captured_values.len()
            invariant
                vm_wf(*self),
                self.lir == old(self).lir,
                i2 <= captured_values@.len(),
                captured_values@ == captured_seq,
                self.status == old(self).status,
                self.call_stack@ == (if tail_locals is Some {
                    old(self).call_stack@
                } else {
                    old(self).call_stack@.push(
                        Frame {
                            return_instruction: old(self).next_instruction,
                            stack_base: (len0 - 2 - num_args) as usize,
                        },
                    )
                }),
                self.next_instruction == old(self).next_instruction,
                self.data_stack@ =~= base_stack + captured_seq.subrange(0, i2 as int),
            decreases captured_values@.len() - i2,
        {
            let value = captured_values[i2];
            self.data_stack.push(value);
            proof {
                assert(captured_seq.subrange(0, i2 + 1) =~= captured_seq.subrange(
                    0,
                    i2 as int,
                ).push(captured_seq[i2 as int]));
                assert(self.data_stack@ =~= base_stack + captured_seq.subrange(0, i2 + 1));
            }
            i2 = i2 + 1;
        }
        proof {
            assert(captured_seq.subrange(0, captured_seq.len() as int) =~= captured_seq);
        }
        while reversed_args.len() > 0
            invariant
                vm_wf(*self),
                self.lir == old(self).lir,
                self.status == old(self).status,
                self.call_stack@ == (if tail_locals is Some {
                    old(self).call_stack@
                } else {
                    old(self).call_stack@.push(
                        Frame {
                            return_instruction: old(self).next_instruction,
                            stack_base: (len0 - 2 - num_args) as usize,
                        },
                    )
                }),
                self.next_instruction == old(self).next_instruction,
                reversed_args@.len() <= num_args,
                num_args + 2 <= len0,
                forall|j: int|
                    0 <= j < reversed_args@.len() ==> #[trigger] reversed_args@[j] == stack0[len0
                        - 2 - j],
                self.data_stack@ =~= base_stack + captured_seq + stack0.subrange(
                    len0 - 1 - num_args,
                    len0 - 1 - reversed_args@.len(),
                ),
            decreases reversed_args@.len(),
        {
            let ghost rev_len = reversed_args@.len() as int;
            match reversed_args.pop() {
                Some(v) => {
                    proof {
                        assert(v == stack0[len0 - 1 - rev_len]);
                    }
                    self.data_stack.push(v);
                    proof {
                        assert(stack0.subrange(len0 - 1 - num_args, len0 - 1 - (rev_len - 1))
                            =~= stack0.subrange(len0 - 1 - num_args, len0 - 1 - rev_len).push(
                            stack0[len0 - 1 - rev_len],
                        ));
                        assert(self.data_stack@ =~= base_stack + captured_seq + stack0.subrange(
                            len0 - 1 - num_args,
                            len0 - 1 - (rev_len - 1),
                        ));
                    }
                },
                None => {},
            }
        }
        self.drop_value(responsible);
        self.drop_value(callee);
        self.next_instruction = body;
        proof {
            let args = stack0.subrange(len0 - 1 - num_args, len0 - 1);
            assert(stack0.subrange(len0 - 1 - num_args, len0 - 1 - 0) =~= args);
            if tail_locals is Some {
                let locals: int = tail_locals->0 as int;
                let pre_drop = len0 - 2 - num_args;
                let base = if pre_drop >= locals {
                    pre_drop - locals
                } else {
                    0
                };
                assert(base_stack =~= stack0.subrange(0, pre_drop).subrange(0, base));
                assert(base_stack =~= stack0.subrange(0, base));
                assert(self.data_stack@ =~= stack0.subrange(0, base) + captured_seq + args);
            } else {
                assert(base_stack =~= stack0.subrange(0, len0 - 2 - num_args));
                assert(self.data_stack@ =~= stack0.subrange(0, len0 - 2 - num_args) + captured_seq
                    + args);
            }
        }
    }

    /// Executes up to `budget` instructions, stopping early when the fiber
    /// finishes or panics: a chain of per-instruction transitions, and at
    /// least one of them while the fiber runs and the budget allows.
    #[verifier::loop_isolation(false)]
    pub fn run(&mut self, budget: usize)
        requires
            vm_wf(*old(self)),
        ensures
            vm_wf(*final(self)),
            final(self).lir == old(self).lir,
            reaches(*old(self), *final(self), budget as nat),
            !(old(self).status is Running) ==> *final(self) == *old(self),
            budget == 0 ==> *final(self) == *old(self),
            budget > 0 && old(self).status is Running ==> exists|mid: Vm|
                #[trigger] step_rel(*old(self), mid) && reaches(
                    mid,
                    *final(self),
                    (budget - 1) as nat,
                ),
            // Progress: the run stops only when done or out of budget.
            exists|n: nat|
                n <= budget && #[trigger] steps_exactly(*old(self), *final(self), n) && (
                final(self).status is Running ==> n == budget),
    {
        if budget == 0 {
            proof {
                assert(steps_exactly(*old(self), *self, 0));
            }
            return ;
        }
        let running = match &self.status {
            Status::Running => true,
            _ => false,
        };
        if !running {
            proof {
                assert(reaches(*old(self), *self, budget as nat));
                assert(steps_exactly(*old(self), *self, 0));
            }
            return ;
        }
        self.step();
        let ghost first = *self;
        let ghost mut taken: nat = 0;
        proof {
            assert(steps_exactly(first, first, 0));
            assert(step_rel(*old(self), first) && steps_exactly(first, first, 0));
            assert(steps_exactly(*old(self), first, 1));
        }
        let mut remaining = budget - 1;
        while remaining > 0
            invariant
                vm_wf(*self),
                self.lir == old(self).lir,
                step_rel(*old(self), first),
                taken + remaining == budget - 1,
                reaches(first, *self, taken),
                steps_exactly(*old(self), *self, (taken + 1) as nat),
            decreases remaining,
        {
            let running = match &self.status {
                Status::Running => true,
                _ => false,
            };
            if !running {
                break ;
            }
            let ghost before = *self;
            self.step();
            proof {
                lemma_reaches_step(first, before, *self, taken);
                lemma_steps_exactly_snoc(*old(self), before, *self, (taken + 1) as nat);
                taken = taken + 1;
            }
            remaining = remaining - 1;
        }
        proof {
            lemma_reaches_weaken(first, *self, taken, (budget - 1) as nat);
            assert(reaches(*old(self), *self, budget as nat)) by {
                assert(step_rel(*old(self), first) && reaches(
                    first,
                    *self,
                    (budget - 1) as nat,
                ));
            }
            assert(taken + 1 <= budget && steps_exactly(*old(self), *self, (taken + 1) as nat));
        }
    }

    /// Runs the fiber until it finishes or panics, up to the machine's
    /// addressable number of steps: a run that neither finishes nor panics
    /// within that budget is left with the `Running` status. What comes out
    /// is reached from what went in by per-instruction transitions alone.
    pub fn run_until_completion(&mut self)
        requires
            vm_wf(*old(self)),
        ensures
            vm_wf(*final(self)),
            final(self).lir == old(self).lir,
            reaches(*old(self), *final(self), usize::MAX as nat),
            !(old(self).status is Running) ==> *final(self) == *old(self),
            old(self).status is Running ==> exists|mid: Vm|
                #[trigger] step_rel(*old(self), mid) && reaches(
                    mid,
                    *final(self),
                    (usize::MAX - 1) as nat,
                ),
            // Progress: a final `Running` status stands only after the
            // machine's addressable number of steps.
            exists|n: nat|
                n <= usize::MAX && #[trigger] steps_exactly(*old(self), *final(self), n) && (
                final(self).status is Running ==> n == usize::MAX),
    {
        self.run(usize::MAX);
    }

    /// The exported `Main` function out of a finished run: the module
    /// function's return value must be a struct, and the value under its
    /// `Main` key must be a function.
    #[verifier::spinoff_prover]
    #[verifier::rlimit(100)]
    pub fn into_main_function(&self) -> (r: Result<InlineObject, String>)
        requires
            vm_wf(*self),
        ensures
            !(exports_struct(*self) is Some) ==> r is Err,
            exports_struct(*self) matches Some(fields) ==> match r {
                Ok(m) => (points_to_data(self.heap, m) matches Some(HeapData::Closure { .. }))
                    && exists|i: int|
                    0 <= i < fields.len() && crate::heap::key_is_symbol(
                        self.heap,
                        (#[trigger] fields[i]).0,
                        "Main"@,
                    ) && m == fields[i].1 && (forall|j: int|
                        0 <= j < i ==> !crate::heap::key_is_symbol(self.heap, (#[trigger] fields[j]).0, "Main"@)),
                Err(_) => (forall|i: int|
                    0 <= i < fields.len() ==> !crate::heap::key_is_symbol(
                        self.heap,
                        (#[trigger] fields[i]).0,
                        "Main"@,
                    )) || exists|i: int|
                    0 <= i < fields.len() && crate::heap::key_is_symbol(
                        self.heap,
                        (#[trigger] fields[i]).0,
                        "Main"@,
                    ) && !(points_to_data(self.heap, (#[trigger] fields[i]).1) matches Some(
                        HeapData::Closure { .. },
                    )) && (forall|j: int|
                        0 <= j < i ==> !crate::heap::key_is_symbol(self.heap, (#[trigger] fields[j]).0, "Main"@)),
            },
    {
        let value = match &self.status {
            Status::Finished(value) => *value,
            _ => {
                return Err(
                    <String as vstd::string::StringExecFns>::from_str(
                        "The module did not finish.",
                    ),
                );
            },
        };
        if value.kind() != KIND_POINTER {
            return Err(
                <String as vstd::string::StringExecFns>::from_str(
                    "The module's return value is not a struct.",
                ),
            );
        }
        let object = value.to_heap_object();
        let is_struct = object.index < self.heap.slots.len() && (match &self.heap.slots[object
            .index] {
            Some(HeapSlot { data: HeapData::Struct(_), .. }) => true,
            _ => false,
        });
        if !is_struct {
            return Err(
                <String as vstd::string::StringExecFns>::from_str(
                    "The module's return value is not a struct.",
                ),
            );
        }
        let main = match self.heap.struct_get_by_symbol(object, "Main") {
            Some(main) => main,
            None => {
                return Err(
                    <String as vstd::string::StringExecFns>::from_str(
                        "The module doesn't export a main function.",
                    ),
                );
            },
        };
        proof {
            let fields = exports_struct(*self)->Some_0;
            assert(fields == self.heap.slots@[object.index as int]->Some_0.data->Struct_0@);
        }
        if main.kind() == KIND_POINTER {
            let main_object = main.to_heap_object();
            if main_object.index < self.heap.slots.len() {
                let is_function = match &self.heap.slots[main_object.index] {
                    Some(HeapSlot { data: HeapData::Closure { .. }, .. }) => true,
                    _ => false,
                };
                if is_function {
                    proof {
                        assert(points_to_data(self.heap, main) matches Some(
                            HeapData::Closure { .. },
                        ));
                    }
                    return Ok(main);
                }
            }
        }
        proof {
            assert(!(points_to_data(self.heap, main) matches Some(HeapData::Closure { .. })));
        }
        Err(
            <String as vstd::string::StringExecFns>::from_str(
                "The exported main object is not a function.",
            ),
        )
    }
}

/// The fields of the struct a finished module returned, where the run
/// finished and did return one.
pub open spec fn exports_struct(vm: Vm) -> Option<Seq<(InlineObject, InlineObject)>> {
    match vm.status {
        Status::Finished(v) => if inline_kind(v) == crate::heap::KIND_POINTER
            && crate::heap::pointer_index(v) < vm.heap.slots@.len() && (vm.heap.slots@[
            crate::heap::pointer_index(v) as int
        ] matches Some(s) && s.data is Struct) {
            Some(
                vm.heap.slots@[crate::heap::pointer_index(v) as int]->Some_0.data->Struct_0@,
            )
        } else {
            None
        },
        _ => None,
    }
}

#[verifier::loop_isolation(false)]
fn reverse_in_place(values: &mut Vec<InlineObject>)
    ensures
        final(values)@ == old(values)@.reverse(),
{
    let mut reversed: Vec<InlineObject> = Vec::new();
    let mut i = values.len();
    while i > 0
        invariant
            i <= values@.len(),
            values@ == old(values)@,
            reversed@ =~= values@.reverse().subrange(0, values@.len() - i),
        decreases i,
    {
        i = i - 1;
        reversed.push(values[i]);
        proof {
            let n = values@.len() as int;
            assert(values@.reverse()[n - 1 - i] == values@[i as int]);
            assert(reversed@ =~= values@.reverse().subrange(0, n - i));
        }
    }
    proof {
        assert(reversed@ =~= values@.reverse());
    }
    *values = reversed;
}

#[verifier::loop_isolation(false)]
fn reverse_pairs_in_place(values: &mut Vec<(InlineObject, InlineObject)>)
    ensures
        final(values)@ == old(values)@.reverse(),
{
    let mut reversed: Vec<(InlineObject, InlineObject)> = Vec::new();
    let mut i = values.len();
    while i > 0
        invariant
            i <= values@.len(),
            values@ == old(values)@,
            reversed@ =~= values@.reverse().subrange(0, values@.len() - i),
        decreases i,
    {
        i = i - 1;
        reversed.push(values[i]);
        proof {
            let n = values@.len() as int;
            assert(values@.reverse()[n - 1 - i] == values@[i as int]);
            assert(reversed@ =~= values@.reverse().subrange(0, n - i));
        }
    }
    proof {
        assert(reversed@ =~= values@.reverse());
    }
    *values = reversed;
}

} // verus!
