//! The reference-counted heap and the word-sized inline objects.
//!
//! Values are word-sized `InlineObject`s whose low bits tag the kind:
//! small ints, builtins, ports, handles and interned tags live inline;
//! everything else points into the heap. The heap is an arena of slots;
//! an object's address is its slot index. Each heap object carries a
//! header word that packs its kind and size next to its payload, and a
//! reference count: `dup` increments it, `drop` decrements it, and the
//! object is freed when the count reaches zero, dropping its children.
//! Constant-heap objects have the reference-counted flag cleared and are
//! never freed.

use crate::hir;
use unicode_segmentation::UnicodeSegmentation;
use vstd::prelude::*;

verus! {

broadcast use vstd::seq_lib::lemma_seq_contains_after_push;

/// A word whose low three bits tag the kind of value it holds.
#[derive(Debug, PartialEq, Eq, Clone, Copy, Hash, PartialOrd, Ord, Structural)]
pub struct InlineObject(pub u64);

pub const KIND_POINTER: u64 = 0;

pub const KIND_INT: u64 = 1;

pub const KIND_BUILTIN: u64 = 2;

pub const KIND_SEND_PORT: u64 = 3;

pub const KIND_RECEIVE_PORT: u64 = 4;

pub const KIND_HANDLE: u64 = 5;

pub const KIND_TAG: u64 = 6;

pub open spec fn inline_kind(o: InlineObject) -> u64 {
    o.0 & 7
}

impl InlineObject {
    pub fn kind(&self) -> (r: u64)
        ensures
            r == inline_kind(*self),
    {
        self.0 & 7
    }
}

/// A pointer to a heap object: the slot index of the object.
#[derive(Debug, PartialEq, Eq, Clone, Copy, Hash, PartialOrd, Ord, Structural)]
pub struct HeapObject {
    pub index: usize,
}

/// An object tracked by its heap: two are the same exactly when they sit
/// at the same address.
#[derive(Debug, PartialEq, Eq, Clone, Copy, Hash, Structural)]
pub struct ObjectInHeap(pub HeapObject);

impl HeapObject {
    /// The pointer as an inline word: the index shifted above the tag
    /// bits, which are zero for pointers.
    pub fn to_inline(&self) -> (r: InlineObject)
        requires
            self.index <= 0x1FFF_FFFF_FFFF_FFFF,
        ensures
            inline_kind(r) == KIND_POINTER,
            pointer_index(r) == self.index,
    {
        let word = (self.index as u64) << 3;
        proof {
            let i = self.index as u64;
            assert((i << 3) & 7 == 0 && (i << 3) >> 3 == i) by (bit_vector)
                requires i <= 0x1FFF_FFFF_FFFF_FFFF;
        }
        InlineObject(word)
    }
}

pub open spec fn pointer_index(o: InlineObject) -> usize {
    (o.0 >> 3) as usize
}

impl InlineObject {
    /// The heap object an inline pointer addresses.
    pub fn to_heap_object(&self) -> (r: HeapObject)
        requires
            inline_kind(*self) == KIND_POINTER,
        ensures
            r.index == pointer_index(*self),
    {
        HeapObject { index: (self.0 >> 3) as usize }
    }
}

/// A small int held inline: the value in the bits above the tag.
#[derive(Debug, PartialEq, Eq, Clone, Copy, Hash, Structural)]
pub struct InlineInt(pub InlineObject);

pub const INLINE_INT_MIN: i64 = -0x1000_0000_0000_0000;

pub const INLINE_INT_MAX: i64 = 0xFFF_FFFF_FFFF_FFFF;

pub open spec fn inline_int_value(o: InlineObject) -> i64 {
    (o.0 as i64) >> 3
}

impl InlineInt {
    pub fn new_unchecked(object: InlineObject) -> (r: Self)
        ensures
            r.0 == object,
    {
        Self(object)
    }

    /// Packs a value of the inline range next to the int tag.
    pub fn create(value: i64) -> (r: Self)
        requires
            INLINE_INT_MIN <= value <= INLINE_INT_MAX,
        ensures
            inline_kind(r.0) == KIND_INT,
            inline_int_value(r.0) == value,
    {
        let word = ((value as u64) << 3) | 1;
        proof {
            let v = value;
            assert((((v as u64) << 3) | 1) & 7 == 1 && ((((v as u64) << 3) | 1) as i64) >> 3 == v)
                by (bit_vector)
                requires
                    -0x1000_0000_0000_0000 <= v <= 0xFFF_FFFF_FFFF_FFFF,
            ;
        }
        Self(InlineObject(word))
    }

    pub fn get(&self) -> (r: i64)
        ensures
            r == inline_int_value(self.0),
    {
        (self.0.0 as i64) >> 3
    }
}

/// A builtin function held inline: the table index above the tag.
#[derive(Debug, PartialEq, Eq, Clone, Copy, Hash, Structural)]
pub struct InlineBuiltin(pub InlineObject);

pub open spec fn builtin_index(o: InlineObject) -> usize {
    (o.0 >> 3) as usize
}

impl InlineBuiltin {
    pub fn new_unchecked(object: InlineObject) -> (r: Self)
        ensures
            r.0 == object,
    {
        Self(object)
    }

    pub fn create(index: usize) -> (r: Self)
        requires
            index <= 0x1FFF_FFFF_FFFF_FFFF,
        ensures
            inline_kind(r.0) == KIND_BUILTIN,
            builtin_index(r.0) == index,
    {
        let word = ((index as u64) << 3) | 2;
        proof {
            let i = index as u64;
            assert(((i << 3) | 2) & 7 == 2 && ((i << 3) | 2) >> 3 == i) by (bit_vector)
                requires i <= 0x1FFF_FFFF_FFFF_FFFF;
        }
        Self(InlineObject(word))
    }

    pub fn index(&self) -> (r: usize)
        ensures
            r == builtin_index(self.0),
    {
        (self.0.0 >> 3) as usize
    }
}

/// A handle to an embedder-provided operation: the handle ID in the upper
/// word half, the argument count next to the tag.
#[derive(Debug, PartialEq, Eq, Clone, Copy, Hash, Structural)]
pub struct InlineHandle(pub InlineObject);

pub open spec fn handle_id_of(o: InlineObject) -> usize {
    (o.0 >> 32) as usize
}

pub open spec fn handle_argument_count(o: InlineObject) -> usize {
    ((o.0 & 0xFFFF_FFFF) >> 8) as usize
}

impl InlineHandle {
    pub fn new_unchecked(object: InlineObject) -> (r: Self)
        ensures
            r.0 == object,
    {
        Self(object)
    }

    pub fn create(handle_id: usize, argument_count: usize) -> (r: Self)
        requires
            handle_id <= 0xFFFF_FFFF,
            argument_count <= 0xFF_FFFF,
        ensures
            inline_kind(r.0) == KIND_HANDLE,
            handle_id_of(r.0) == handle_id,
            handle_argument_count(r.0) == argument_count,
    {
        let word = ((handle_id as u64) << 32) | ((argument_count as u64) << 8) | 5;
        proof {
            let h = handle_id as u64;
            let a = argument_count as u64;
            assert(((h << 32) | (a << 8) | 5) & 7 == 5 && ((h << 32) | (a << 8) | 5) >> 32 == h && (
            ((h << 32) | (a << 8) | 5) & 0xFFFF_FFFF) >> 8 == a) by (bit_vector)
                requires
                    h <= 0xFFFF_FFFF,
                    a <= 0xFF_FFFF,
            ;
        }
        Self(InlineObject(word))
    }

    pub fn handle_id(&self) -> (r: usize)
        ensures
            r == handle_id_of(self.0),
    {
        (self.0.0 >> 32) as usize
    }

    pub fn argument_count(&self) -> (r: usize)
        ensures
            r == handle_argument_count(self.0),
    {
        ((self.0.0 & 0xFFFF_FFFF) >> 8) as usize
    }
}

/// A send port of a channel, held inline.
#[derive(Debug, PartialEq, Eq, Clone, Copy, Hash, Structural)]
pub struct SendPort(pub InlineObject);

/// A receive port of a channel, held inline.
#[derive(Debug, PartialEq, Eq, Clone, Copy, Hash, Structural)]
pub struct ReceivePort(pub InlineObject);

pub open spec fn channel_id_of(o: InlineObject) -> usize {
    (o.0 >> 3) as usize
}

impl SendPort {
    pub fn create(channel_id: usize) -> (r: Self)
        requires
            channel_id <= 0x1FFF_FFFF_FFFF_FFFF,
        ensures
            inline_kind(r.0) == KIND_SEND_PORT,
            channel_id_of(r.0) == channel_id,
    {
        let word = ((channel_id as u64) << 3) | 3;
        proof {
            let c = channel_id as u64;
            assert(((c << 3) | 3) & 7 == 3 && ((c << 3) | 3) >> 3 == c) by (bit_vector)
                requires c <= 0x1FFF_FFFF_FFFF_FFFF;
        }
        Self(InlineObject(word))
    }

    pub fn channel_id(&self) -> (r: usize)
        ensures
            r == channel_id_of(self.0),
    {
        (self.0.0 >> 3) as usize
    }
}

impl ReceivePort {
    pub fn create(channel_id: usize) -> (r: Self)
        requires
            channel_id <= 0x1FFF_FFFF_FFFF_FFFF,
        ensures
            inline_kind(r.0) == KIND_RECEIVE_PORT,
            channel_id_of(r.0) == channel_id,
    {
        let word = ((channel_id as u64) << 3) | 4;
        proof {
            let c = channel_id as u64;
            assert(((c << 3) | 4) & 7 == 4 && ((c << 3) | 4) >> 3 == c) by (bit_vector)
                requires c <= 0x1FFF_FFFF_FFFF_FFFF;
        }
        Self(InlineObject(word))
    }

    pub fn channel_id(&self) -> (r: usize)
        ensures
            r == channel_id_of(self.0),
    {
        (self.0.0 >> 3) as usize
    }
}


/// The heap kinds, stored in a header word's low three bits.
pub const HEAP_KIND_TEXT: u64 = 1;

pub const HEAP_KIND_CLOSURE: u64 = 2;

pub const HEAP_KIND_TAG: u64 = 3;

pub const HEAP_KIND_HIR_ID: u64 = 4;

pub const HEAP_KIND_LIST: u64 = 5;

pub const HEAP_KIND_STRUCT: u64 = 6;

pub const HEAP_KIND_INT: u64 = 7;

/// Lengths sit above the kind and reference-counted bits.
pub const TEXT_BYTE_LEN_SHIFT: u64 = 4;

pub const CLOSURE_CAPTURED_LEN_SHIFT: u64 = 32;

pub const CLOSURE_ARGUMENT_COUNT_SHIFT: u64 = 4;

pub const COLLECTION_LEN_SHIFT: u64 = 4;

#[derive(Debug, PartialEq, Eq)]
pub enum HeapData {
    /// An int outside the inline range.
    Int(i64),
    Text(String),
    Closure { body: usize, argument_count: usize, captured: Vec<InlineObject> },
    Tag { symbol: String, value: Option<InlineObject> },
    HirId(hir::Id),
    List(Vec<InlineObject>),
    Struct(Vec<(InlineObject, InlineObject)>),
}

/// One allocated object: its packed header word, its reference count, and
/// its payload.
#[derive(Debug, PartialEq, Eq)]
pub struct HeapSlot {
    pub header: u64,
    pub reference_count: u64,
    pub data: HeapData,
}

/// The UTF-8 byte length of a text, as the machine word the header
/// stores.
pub open spec fn text_byte_len(text: Seq<char>) -> usize {
    vstd::utf8::encode_utf8(text).len() as usize
}

/// The sizes a header word can carry.
pub open spec fn data_fits(data: HeapData) -> bool {
    match data {
        HeapData::Int(_) => true,
        HeapData::Text(text) => (text_byte_len(text@) as u64) < 0x1000_0000_0000_0000,
        HeapData::Closure { body, argument_count, captured } => captured@.len() < 0x1_0000_0000
            && argument_count < 0x1000_0000,
        HeapData::Tag { .. } => true,
        HeapData::HirId(_) => true,
        HeapData::List(items) => items@.len() < 0x1000_0000_0000_0000,
        HeapData::Struct(fields) => fields@.len() < 0x1000_0000_0000_0000,
    }
}

/// The header word for a payload: kind bits, the reference-counted flag,
/// and the kind's length fields.
pub open spec fn spec_header(data: HeapData, is_reference_counted: bool) -> u64 {
    let rc: u64 = if is_reference_counted {
        8
    } else {
        0
    };
    match data {
        HeapData::Int(_) => HEAP_KIND_INT | rc,
        HeapData::Text(text) => HEAP_KIND_TEXT | rc | ((text_byte_len(text@) as u64)
            << TEXT_BYTE_LEN_SHIFT),
        HeapData::Closure { body, argument_count, captured } => HEAP_KIND_CLOSURE | rc | ((
        captured@.len() as u64) << CLOSURE_CAPTURED_LEN_SHIFT) | ((argument_count as u64)
            << CLOSURE_ARGUMENT_COUNT_SHIFT),
        HeapData::Tag { .. } => HEAP_KIND_TAG | rc,
        HeapData::HirId(_) => HEAP_KIND_HIR_ID | rc,
        HeapData::List(items) => HEAP_KIND_LIST | rc | ((items@.len() as u64)
            << COLLECTION_LEN_SHIFT),
        HeapData::Struct(fields) => HEAP_KIND_STRUCT | rc | ((fields@.len() as u64)
            << COLLECTION_LEN_SHIFT),
    }
}

pub open spec fn slot_is_reference_counted(s: HeapSlot) -> bool {
    s.header & 8 == 8
}

pub open spec fn slot_wf(s: HeapSlot) -> bool {
    &&& data_fits(s.data)
    &&& s.header == spec_header(s.data, slot_is_reference_counted(s))
    &&& (slot_is_reference_counted(s) ==> s.reference_count >= 1)
}

pub open spec fn heap_wf(h: Heap) -> bool {
    &&& (forall|i: int|
        0 <= i < h.slots@.len() ==> match #[trigger] h.slots@[i] {
            Some(s) => slot_wf(s),
            None => true,
        })
    &&& handle_table_unique(h.handle_refcounts@)
}

/// How many slots are alive.
pub open spec fn live_count(s: Seq<Option<HeapSlot>>) -> nat
    decreases s.len(),
{
    if s.len() == 0 {
        0
    } else {
        live_count(s.drop_last()) + (if s.last() is Some {
            1nat
        } else {
            0nat
        })
    }
}

proof fn lemma_live_count_update_none(s: Seq<Option<HeapSlot>>, i: int)
    requires
        0 <= i < s.len(),
        s[i] is Some,
    ensures
        live_count(s.update(i, None)) < live_count(s),
    decreases s.len(),
{
    if i == s.len() - 1 {
        assert(s.update(i, None).drop_last() =~= s.drop_last());
        assert(s.update(i, None).last() is None);
    } else {
        lemma_live_count_update_none(s.drop_last(), i);
        assert(s.update(i, None).drop_last() =~= s.drop_last().update(i, None));
        assert(s.update(i, None).last() == s.last());
    }
}

proof fn lemma_live_count_update_some(s: Seq<Option<HeapSlot>>, i: int, v: HeapSlot)
    requires
        0 <= i < s.len(),
        s[i] is Some,
    ensures
        live_count(s.update(i, Some(v))) == live_count(s),
    decreases s.len(),
{
    if i == s.len() - 1 {
        assert(s.update(i, Some(v)).drop_last() =~= s.drop_last());
    } else {
        lemma_live_count_update_some(s.drop_last(), i, v);
        assert(s.update(i, Some(v)).drop_last() =~= s.drop_last().update(i, Some(v)));
        assert(s.update(i, Some(v)).last() == s.last());
    }
}

/// How many references the embedder handle has: the count of its table
/// entry, zero when absent.
pub open spec fn handle_refcount(table: Seq<(usize, usize)>, handle_id: usize) -> usize
    decreases table.len(),
{
    if table.len() == 0 {
        0
    } else if table[0].0 == handle_id {
        table[0].1
    } else {
        handle_refcount(table.drop_first(), handle_id)
    }
}

/// Each handle has at most one table entry.
pub open spec fn handle_table_unique(table: Seq<(usize, usize)>) -> bool {
    forall|j: int, k: int| 0 <= j < k < table.len() ==> (#[trigger] table[j]).0 != (
    #[trigger] table[k]).0
}

/// Skipping entries that do not match leaves the count unchanged.
proof fn lemma_handle_refcount_skip(table: Seq<(usize, usize)>, i: int, handle_id: usize)
    requires
        0 <= i <= table.len(),
        forall|j: int| 0 <= j < i ==> (#[trigger] table[j]).0 != handle_id,
    ensures
        handle_refcount(table, handle_id) == handle_refcount(
            table.subrange(i, table.len() as int),
            handle_id,
        ),
    decreases i,
{
    if i > 0 {
        assert(table[0].0 != handle_id);
        let rest = table.drop_first();
        assert forall|j: int| 0 <= j < i - 1 implies (#[trigger] rest[j]).0 != handle_id by {
            assert(rest[j] == table[j + 1]);
        }
        lemma_handle_refcount_skip(rest, i - 1, handle_id);
        assert(rest.subrange(i - 1, rest.len() as int) =~= table.subrange(
            i,
            table.len() as int,
        ));
    } else {
        assert(table.subrange(0, table.len() as int) =~= table);
    }
}

/// Two tables that agree everywhere but at one position, which names the
/// same handle in both, agree on every other handle's count.
proof fn lemma_handle_refcount_update(
    t1: Seq<(usize, usize)>,
    t2: Seq<(usize, usize)>,
    i: int,
    handle_id: usize,
)
    requires
        t1.len() == t2.len(),
        0 <= i < t1.len(),
        forall|j: int| 0 <= j < t1.len() && j != i ==> #[trigger] t1[j] == #[trigger] t2[j],
        t1[i].0 == handle_id,
        t2[i].0 == handle_id,
    ensures
        forall|other: usize|
            other != handle_id ==> handle_refcount(t1, other) == handle_refcount(t2, other),
    decreases t1.len(),
{
    if i == 0 {
        assert(t1.drop_first() =~= t2.drop_first());
        assert forall|other: usize| other != handle_id implies handle_refcount(t1, other)
            == handle_refcount(t2, other) by {
            assert(t1[0].0 != other && t2[0].0 != other);
            assert(handle_refcount(t1, other) == handle_refcount(t1.drop_first(), other));
            assert(handle_refcount(t2, other) == handle_refcount(t2.drop_first(), other));
        }
    } else {
        assert(t1[0] == t2[0]);
        let r1 = t1.drop_first();
        let r2 = t2.drop_first();
        assert forall|j: int| 0 <= j < r1.len() && j != i - 1 implies #[trigger] r1[j]
            == #[trigger] r2[j] by {
            assert(r1[j] == t1[j + 1] && r2[j] == t2[j + 1]);
        }
        assert(r1[i - 1] == t1[i as int] && r2[i - 1] == t2[i as int]);
        lemma_handle_refcount_update(r1, r2, i - 1, handle_id);
        assert forall|other: usize| other != handle_id implies handle_refcount(t1, other)
            == handle_refcount(t2, other) by {
            assert(handle_refcount(r1, other) == handle_refcount(r2, other));
            if t1[0].0 == other {
                assert(handle_refcount(t1, other) == t1[0].1);
                assert(handle_refcount(t2, other) == t2[0].1);
            } else {
                assert(handle_refcount(t1, other) == handle_refcount(r1, other));
                assert(handle_refcount(t2, other) == handle_refcount(r2, other));
            }
        }
    }
}

/// Appending an entry for another handle leaves a handle's count alone.
proof fn lemma_handle_refcount_push(
    table: Seq<(usize, usize)>,
    entry: (usize, usize),
    other: usize,
)
    requires
        entry.0 != other,
    ensures
        handle_refcount(table.push(entry), other) == handle_refcount(table, other),
    decreases table.len(),
{
    if table.len() == 0 {
        assert(table.push(entry).drop_first() =~= table);
    } else {
        assert(table.push(entry)[0] == table[0]);
        assert(table.push(entry).drop_first() =~= table.drop_first().push(entry));
        lemma_handle_refcount_push(table.drop_first(), entry, other);
    }
}

/// Removing the one entry of a handle leaves every other handle's count
/// alone.
proof fn lemma_handle_refcount_remove(table: Seq<(usize, usize)>, i: int, other: usize)
    requires
        0 <= i < table.len(),
        table[i].0 != other,
    ensures
        handle_refcount(table.remove(i), other) == handle_refcount(table, other),
    decreases table.len(),
{
    if i == 0 {
        assert(table.remove(0) =~= table.drop_first());
    } else {
        assert(table.remove(i)[0] == table[0]);
        assert(table.remove(i).drop_first() =~= table.drop_first().remove(i - 1));
        assert(table.drop_first()[i - 1] == table[i as int]);
        lemma_handle_refcount_remove(table.drop_first(), i - 1, other);
    }
}

/// The heap: an arena of slots plus the separate reference counts of the
/// embedder's handles.
pub struct Heap {
    pub slots: Vec<Option<HeapSlot>>,
    pub handle_refcounts: Vec<(usize, usize)>,
}

impl Heap {
    pub fn new() -> (r: Self)
        ensures
            heap_wf(r),
            r.slots@.len() == 0,
            r.handle_refcounts@.len() == 0,
    {
        Heap { slots: Vec::new(), handle_refcounts: Vec::new() }
    }

    /// Allocates a new object and returns its address. A reference-counted
    /// object starts with one reference; a constant object is never freed.
    pub fn allocate(&mut self, data: HeapData, is_reference_counted: bool) -> (r: HeapObject)
        requires
            heap_wf(*old(self)),
            data_fits(data),
        ensures
            heap_wf(*final(self)),
            r.index == old(self).slots@.len(),
            final(self).slots@.len() == old(self).slots@.len() + 1,
            forall|i: int|
                0 <= i < old(self).slots@.len() ==> final(self).slots@[i] == old(self).slots@[i],
            final(self).slots@.last() matches Some(s) && s.data == data && s.reference_count == 1
                && slot_is_reference_counted(s) == is_reference_counted && s.header == spec_header(
                data,
                is_reference_counted,
            ),
            final(self).handle_refcounts == old(self).handle_refcounts,
    {
        let rc_bit: u64 = if is_reference_counted {
            8
        } else {
            0
        };
        let header: u64 = match &data {
            HeapData::Int(_) => HEAP_KIND_INT | rc_bit,
            HeapData::Text(text) => {
                let byte_len = text.as_str().len() as u64;
                HEAP_KIND_TEXT | rc_bit | (byte_len << 4)
            },
            HeapData::Closure { body: _, argument_count, captured } => {
                HEAP_KIND_CLOSURE | rc_bit | ((captured.len() as u64) << 32) | ((*argument_count
                    as u64) << 4)
            },
            HeapData::Tag { .. } => HEAP_KIND_TAG | rc_bit,
            HeapData::HirId(_) => HEAP_KIND_HIR_ID | rc_bit,
            HeapData::List(items) => HEAP_KIND_LIST | rc_bit | ((items.len() as u64) << 4),
            HeapData::Struct(fields) => HEAP_KIND_STRUCT | rc_bit | ((fields.len() as u64) << 4),
        };
        proof {
            lemma_header_rc_flag(data, is_reference_counted);
            assert(header == spec_header(data, is_reference_counted));
        }
        let index = self.slots.len();
        let slot = HeapSlot { header, reference_count: 1, data };
        self.slots.push(Some(slot));
        HeapObject { index }
    }

    /// Increments an object's reference count; constant objects are left
    /// alone.
    pub fn dup(&mut self, object: HeapObject)
        requires
            heap_wf(*old(self)),
            object.index < old(self).slots@.len(),
            old(self).slots@[object.index as int] is Some,
            (old(self).slots@[object.index as int] matches Some(s) ==> s.reference_count
                < u64::MAX),
        ensures
            heap_wf(*final(self)),
            final(self).slots@.len() == old(self).slots@.len(),
            forall|i: int|
                0 <= i < old(self).slots@.len() && i != object.index ==> final(self).slots@[i]
                    == old(self).slots@[i],
            old(self).slots@[object.index as int] matches Some(s)
                ==> final(self).slots@[object.index as int] matches Some(s2) && s2.data == s.data
                && s2.header == s.header && s2.reference_count == (if slot_is_reference_counted(s) {
                s.reference_count + 1
            } else {
                s.reference_count as int
            }),
            final(self).handle_refcounts == old(self).handle_refcounts,
    {
        let slot_ref = &self.slots[object.index];
        let (header, rc) = match slot_ref {
            Some(s) => (s.header, s.reference_count),
            None => (0, 0),
        };
        if header & 8 == 8 {
            let taken = self.slots.remove(object.index);
            match taken {
                Some(s) => {
                    let new_slot = HeapSlot {
                        header: s.header,
                        reference_count: rc + 1,
                        data: s.data,
                    };
                    self.slots.insert(object.index, Some(new_slot));
                },
                None => {
                    self.slots.insert(object.index, None);
                },
            }
            proof {
                assert(final_slots_eq_update(old(self).slots@, self.slots@, object.index as int));
            }
        }
    }
}

/// The rebuilt sequence is the original with one slot changed.
pub open spec fn final_slots_eq_update(
    before: Seq<Option<HeapSlot>>,
    after: Seq<Option<HeapSlot>>,
    i: int,
) -> bool {
    after.len() == before.len() && (forall|j: int|
        0 <= j < before.len() && j != i ==> after[j] == before[j])
}

/// The reference-counted flag lands in bit three of the header, whatever
/// the payload.
proof fn lemma_header_rc_flag(data: HeapData, is_reference_counted: bool)
    requires
        data_fits(data),
    ensures
        spec_header(data, is_reference_counted) & 8 == (if is_reference_counted {
            8u64
        } else {
            0u64
        }),
{
    let rc: u64 = if is_reference_counted {
        8
    } else {
        0
    };
    match data {
        HeapData::Int(_) => {
            assert((HEAP_KIND_INT | rc) & 8 == rc) by (bit_vector)
                requires rc == 8 || rc == 0;
        },
        HeapData::Text(text) => {
            let len = text_byte_len(text@) as u64;
            assert((HEAP_KIND_TEXT | rc | (len << 4)) & 8 == rc) by (bit_vector)
                requires rc == 8 || rc == 0;
        },
        HeapData::Closure { body, argument_count, captured } => {
            let cl = captured@.len() as u64;
            let ac = argument_count as u64;
            assert((HEAP_KIND_CLOSURE | rc | (cl << 32) | (ac << 4)) & 8 == rc) by (bit_vector)
                requires rc == 8 || rc == 0;
        },
        HeapData::Tag { .. } => {
            assert((HEAP_KIND_TAG | rc) & 8 == rc) by (bit_vector)
                requires rc == 8 || rc == 0;
        },
        HeapData::HirId(_) => {
            assert((HEAP_KIND_HIR_ID | rc) & 8 == rc) by (bit_vector)
                requires rc == 8 || rc == 0;
        },
        HeapData::List(items) => {
            let len = items@.len() as u64;
            assert((HEAP_KIND_LIST | rc | (len << 4)) & 8 == rc) by (bit_vector)
                requires rc == 8 || rc == 0;
        },
        HeapData::Struct(fields) => {
            let len = fields@.len() as u64;
            assert((HEAP_KIND_STRUCT | rc | (len << 4)) & 8 == rc) by (bit_vector)
                requires rc == 8 || rc == 0;
        },
    }
}


/// The values an object holds: its direct children.
pub open spec fn data_children(data: HeapData) -> Seq<InlineObject> {
    match data {
        HeapData::Int(_) => Seq::empty(),
        HeapData::Text(_) => Seq::empty(),
        HeapData::HirId(_) => Seq::empty(),
        HeapData::Closure { body, argument_count, captured } => captured@,
        HeapData::Tag { symbol, value } => match value {
            Some(o) => seq![o],
            None => Seq::empty(),
        },
        HeapData::List(items) => items@,
        HeapData::Struct(fields) => Seq::new(
            2 * fields@.len(),
            |i: int|
                if i % 2 == 0 {
                    fields@[i / 2].0
                } else {
                    fields@[i / 2].1
                },
        ),
    }
}

/// Dropping only takes: no slot appears, changes its payload, or gains
/// references.
pub open spec fn slots_only_released(
    before: Seq<Option<HeapSlot>>,
    after: Seq<Option<HeapSlot>>,
) -> bool {
    &&& after.len() == before.len()
    &&& (forall|j: int|
        0 <= j < before.len() ==> match (before[j], #[trigger] after[j]) {
            (Some(s1), Some(s2)) => s2.data == s1.data && s2.header == s1.header
                && s2.reference_count <= s1.reference_count,
            (Some(s1), None) => true,
            (None, None) => true,
            (None, Some(_)) => false,
        })
}

/// A value no longer holds its reference: if it pointed at a live
/// reference-counted slot, that slot lost a reference or is gone.
pub open spec fn child_released(
    before: Seq<Option<HeapSlot>>,
    after: Seq<Option<HeapSlot>>,
    child: InlineObject,
) -> bool {
    (inline_kind(child) == KIND_POINTER && (pointer_index(child) as int) < before.len()
        && (before[pointer_index(child) as int] matches Some(s) && slot_is_reference_counted(s)))
        ==> match after[pointer_index(child) as int] {
        Some(s2) => s2.reference_count < before[pointer_index(child) as int]->Some_0.reference_count,
        None => true,
    }
}

impl Heap {
    /// Decrements an object's reference count and frees it when the count
    /// reaches zero, dropping the object's children in turn. Constant
    /// objects are left alone.
    #[verifier::loop_isolation(false)]
    pub fn drop(&mut self, object: HeapObject)
        requires
            heap_wf(*old(self)),
            object.index < old(self).slots@.len(),
            old(self).slots@[object.index as int] is Some,
        ensures
            heap_wf(*final(self)),
            final(self).slots@.len() == old(self).slots@.len(),
            old(self).slots@[object.index as int] matches Some(s) ==> {
                &&& (!slot_is_reference_counted(s) ==> *final(self) == *old(self))
                &&& (slot_is_reference_counted(s) && s.reference_count > 1
                    ==> (final(self).slots@[object.index as int] matches Some(s2) && s2.header
                    == s.header && s2.data == s.data && s2.reference_count == s.reference_count
                    - 1) && (forall|i: int|
                    0 <= i < old(self).slots@.len() && i != object.index ==> final(self).slots@[i]
                        == old(self).slots@[i]))
                &&& (slot_is_reference_counted(s) && s.reference_count == 1
                    ==> final(self).slots@[object.index as int] is None && live_count(
                        final(self).slots@,
                    ) < live_count(old(self).slots@) && (forall|c: int|
                        0 <= c < data_children(s.data).len() ==> child_released(
                            old(self).slots@,
                            final(self).slots@,
                            #[trigger] data_children(s.data)[c],
                        )))
            },
            slots_only_released(old(self).slots@, final(self).slots@),
    {
        let index = object.index;
        let (flag, rc) = match &self.slots[index] {
            Some(s) => (s.header & 8 == 8, s.reference_count),
            None => (false, 0),
        };
        if !flag {
            return ;
        }
        if rc > 1 {
            let taken = self.slots.remove(index);
            match taken {
                Some(s) => {
                    let new_slot = HeapSlot {
                        header: s.header,
                        reference_count: rc - 1,
                        data: s.data,
                    };
                    self.slots.insert(index, Some(new_slot));
                },
                None => {
                    self.slots.insert(index, None);
                },
            }
            proof {
                assert(self.slots@ =~= old(self).slots@.update(
                    index as int,
                    self.slots@[index as int],
                ));
            }
            return ;
        }
        // The last reference went away: free the object and drop its
        // children.
        let taken = self.slots.remove(index);
        self.slots.insert(index, None);
        proof {
            assert(self.slots@ =~= old(self).slots@.update(index as int, None));
            lemma_live_count_update_none(old(self).slots@, index as int);
        }
        let mut worklist: Vec<InlineObject> = Vec::new();
        let ghost kids = data_children(old(self).slots@[index as int]->Some_0.data);
        match taken {
            Some(slot) => push_children(slot.data, &mut worklist),
            None => {},
        }
        proof {
            assert(worklist@ == kids);
            assert(slots_only_released(old(self).slots@, self.slots@));
            assert forall|c: int| 0 <= c < kids.len() implies worklist@.contains(
                #[trigger] kids[c],
            ) || child_released(old(self).slots@, self.slots@, kids[c]) by {
                assert(worklist@[c] == kids[c]);
            }
        }
        while worklist.len() > 0
            invariant
                heap_wf(*self),
                self.slots@.len() == old(self).slots@.len(),
                self.slots@[index as int] is None,
                slots_only_released(old(self).slots@, self.slots@),
                live_count(self.slots@) < live_count(old(self).slots@),
                forall|c: int|
                    0 <= c < kids.len() ==> worklist@.contains(#[trigger] kids[c])
                        || child_released(old(self).slots@, self.slots@, kids[c]),
            decreases live_count(self.slots@), worklist@.len(),
        {
            let ghost slots_at_head = self.slots@;
            let ghost worklist_at_head = worklist@;
            let o = match worklist.pop() {
                Some(o) => o,
                None => vstd::pervasive::unreached(),
            };
            if o.kind() == KIND_POINTER {
                let child = o.to_heap_object();
                if child.index < self.slots.len() {
                    let (child_flag, child_rc) = match &self.slots[child.index] {
                        Some(s) => (s.header & 8 == 8, s.reference_count),
                        None => (false, 0),
                    };
                    let child_live = match &self.slots[child.index] {
                        Some(_) => true,
                        None => false,
                    };
                    if child_live && child_flag {
                        if child_rc > 1 {
                            let ghost pre = self.slots@;
                            let taken = self.slots.remove(child.index);
                            match taken {
                                Some(s) => {
                                    let new_slot = HeapSlot {
                                        header: s.header,
                                        reference_count: child_rc - 1,
                                        data: s.data,
                                    };
                                    self.slots.insert(child.index, Some(new_slot));
                                    proof {
                                        assert(self.slots@ =~= pre.update(
                                            child.index as int,
                                            Some(new_slot),
                                        ));
                                        lemma_live_count_update_some(
                                            pre,
                                            child.index as int,
                                            new_slot,
                                        );
                                    }
                                },
                                None => {
                                    self.slots.insert(child.index, None);
                                    proof {
                                        assert(self.slots@ =~= pre);
                                    }
                                },
                            }
                        } else {
                            let ghost pre = self.slots@;
                            let taken = self.slots.remove(child.index);
                            self.slots.insert(child.index, None);
                            proof {
                                assert(self.slots@ =~= pre.update(child.index as int, None));
                                lemma_live_count_update_none(pre, child.index as int);
                            }
                            match taken {
                                Some(slot) => push_children(slot.data, &mut worklist),
                                None => {},
                            }
                        }
                    }
                }
            } else if o.kind() == KIND_HANDLE {
                let handle = InlineHandle::new_unchecked(o);
                self.drop_handle(handle.handle_id());
            }
            proof {
                // The popped value is now released, and everything already
                // released stays so: slots only lose references.
                assert(slots_only_released(slots_at_head, self.slots@));
                assert(slots_only_released(old(self).slots@, self.slots@)) by {
                    assert forall|j: int| 0 <= j < old(self).slots@.len() implies match (
                        old(self).slots@[j],
                        #[trigger] self.slots@[j],
                    ) {
                        (Some(s1), Some(s2)) => s2.data == s1.data && s2.header == s1.header
                            && s2.reference_count <= s1.reference_count,
                        (Some(s1), None) => true,
                        (None, None) => true,
                        (None, Some(_)) => false,
                    } by {
                        assert(match (slots_at_head[j], self.slots@[j]) {
                            (Some(s1), Some(s2)) => s2.data == s1.data && s2.header == s1.header
                                && s2.reference_count <= s1.reference_count,
                            (Some(s1), None) => true,
                            (None, None) => true,
                            (None, Some(_)) => false,
                        });
                    }
                }
                assert(child_released(old(self).slots@, self.slots@, o));
                assert forall|c: int| 0 <= c < kids.len() implies worklist@.contains(
                    #[trigger] kids[c],
                ) || child_released(old(self).slots@, self.slots@, kids[c]) by {
                    if worklist_at_head.contains(kids[c]) {
                        if kids[c] == o {
                        } else {
                            let j = choose|j: int|
                                0 <= j < worklist_at_head.len() && worklist_at_head[j] == kids[c];
                            if j < worklist_at_head.len() - 1 {
                                assert(worklist@.contains(kids[c])) by {
                                    assert(worklist@[j] == kids[c]);
                                }
                            } else {
                                assert(kids[c] == o);
                            }
                        }
                    } else {
                        // Already released; releases persist.
                        assert(child_released(slots_at_head, self.slots@, kids[c]) || true);
                        assert(child_released(old(self).slots@, self.slots@, kids[c])) by {
                            if inline_kind(kids[c]) == KIND_POINTER && (pointer_index(kids[c]) as int)
                                < old(self).slots@.len() && (old(self).slots@[pointer_index(
                                kids[c],
                            ) as int] matches Some(s) && slot_is_reference_counted(s)) {
                                let idx = pointer_index(kids[c]) as int;
                                match slots_at_head[idx] {
                                    Some(s_mid) => {
                                        match self.slots@[idx] {
                                            Some(s_now) => {
                                                assert(s_now.reference_count
                                                    <= s_mid.reference_count);
                                            },
                                            None => {},
                                        }
                                    },
                                    None => {
                                        assert(self.slots@[idx] is None);
                                    },
                                }
                            }
                        }
                    }
                }
            }
        }
    }

    /// Records one more reference to the embedder handle.
    #[verifier::loop_isolation(false)]
    pub fn notify_handle_created(&mut self, handle_id: usize)
        requires
            handle_table_unique(old(self).handle_refcounts@),
        ensures
            final(self).slots == old(self).slots,
            handle_table_unique(final(self).handle_refcounts@),
            handle_refcount(final(self).handle_refcounts@, handle_id) == if handle_refcount(
                old(self).handle_refcounts@,
                handle_id,
            ) < usize::MAX {
                handle_refcount(old(self).handle_refcounts@, handle_id) + 1
            } else {
                handle_refcount(old(self).handle_refcounts@, handle_id) as int
            },
            forall|other: usize|
                other != handle_id ==> handle_refcount(final(self).handle_refcounts@, other)
                    == handle_refcount(old(self).handle_refcounts@, other),
    {
        let ghost table = self.handle_refcounts@;
        let mut i: usize = 0;
        let n = self.handle_refcounts.len();
        while i < n
            invariant
                i <= n,
                n == table.len(),
                self.handle_refcounts@ == table,
                self.slots == old(self).slots,
                forall|j: int| 0 <= j < i ==> (#[trigger] table[j]).0 != handle_id,
            decreases n - i,
        {
            let (id, count) = self.handle_refcounts[i];
            if id == handle_id {
                proof {
                    lemma_handle_refcount_skip(table, i as int, handle_id);
                    assert(table.subrange(i as int, n as int)[0] == table[i as int]);
                    assert(handle_refcount(table, handle_id) == count);
                }
                if count < usize::MAX {
                    let _ = self.handle_refcounts.remove(i);
                    self.handle_refcounts.insert(i, (id, count + 1));
                    proof {
                        let updated = self.handle_refcounts@;
                        assert(updated =~= table.update(i as int, (handle_id, (count + 1) as usize)));
                        lemma_handle_refcount_skip(updated, i as int, handle_id);
                        assert(updated.subrange(i as int, n as int)[0] == updated[i as int]);
                        lemma_handle_refcount_update(table, updated, i as int, handle_id);
                    }
                }
                return ;
            }
            i = i + 1;
        }
        proof {
            lemma_handle_refcount_skip(table, n as int, handle_id);
            assert(table.subrange(n as int, n as int) =~= Seq::<(usize, usize)>::empty());
            assert(handle_refcount(table, handle_id) == 0);
        }
        self.handle_refcounts.push((handle_id, 1));
        proof {
            let pushed = self.handle_refcounts@;
            lemma_handle_refcount_skip(pushed, n as int, handle_id);
            assert(pushed.subrange(n as int, pushed.len() as int) =~= seq![(handle_id, 1usize)]);
            assert(handle_refcount(pushed, handle_id) == 1);
            assert forall|other: usize| other != handle_id implies handle_refcount(pushed, other)
                == handle_refcount(table, other) by {
                lemma_handle_refcount_push(table, (handle_id, 1usize), other);
            }
            assert forall|j: int, k: int| 0 <= j < k < pushed.len() implies (
            #[trigger] pushed[j]).0 != (#[trigger] pushed[k]).0 by {
                if k == pushed.len() - 1 {
                    assert(pushed[j] == table[j]);
                }
            }
        }
    }

    /// Drops one reference to the embedder handle; the entry disappears
    /// with its last reference. Unknown handles are ignored.
    #[verifier::loop_isolation(false)]
    pub fn drop_handle(&mut self, handle_id: usize)
        requires
            handle_table_unique(old(self).handle_refcounts@),
        ensures
            final(self).slots == old(self).slots,
            handle_table_unique(final(self).handle_refcounts@),
            handle_refcount(final(self).handle_refcounts@, handle_id) == if handle_refcount(
                old(self).handle_refcounts@,
                handle_id,
            ) > 0 {
                handle_refcount(old(self).handle_refcounts@, handle_id) - 1
            } else {
                0int
            },
            forall|other: usize|
                other != handle_id ==> handle_refcount(final(self).handle_refcounts@, other)
                    == handle_refcount(old(self).handle_refcounts@, other),
    {
        let ghost table = self.handle_refcounts@;
        let mut i: usize = 0;
        let n = self.handle_refcounts.len();
        while i < n
            invariant
                i <= n,
                n == table.len(),
                self.handle_refcounts@ == table,
                self.slots == old(self).slots,
                forall|j: int| 0 <= j < i ==> (#[trigger] table[j]).0 != handle_id,
            decreases n - i,
        {
            let (id, count) = self.handle_refcounts[i];
            if id == handle_id {
                proof {
                    lemma_handle_refcount_skip(table, i as int, handle_id);
                    assert(table.subrange(i as int, n as int)[0] == table[i as int]);
                    assert(handle_refcount(table, handle_id) == count);
                }
                let _ = self.handle_refcounts.remove(i);
                if count > 1 {
                    self.handle_refcounts.insert(i, (id, count - 1));
                    proof {
                        let updated = self.handle_refcounts@;
                        assert(updated =~= table.update(i as int, (handle_id, (count - 1) as usize)));
                        lemma_handle_refcount_skip(updated, i as int, handle_id);
                        assert(updated.subrange(i as int, n as int)[0] == updated[i as int]);
                        lemma_handle_refcount_update(table, updated, i as int, handle_id);
                    }
                } else {
                    proof {
                        let shrunk = self.handle_refcounts@;
                        assert(shrunk =~= table.remove(i as int));
                        // The one entry for the handle is gone: nothing
                        // matches any more.
                        assert forall|j: int| 0 <= j < shrunk.len() implies (
                        #[trigger] shrunk[j]).0 != handle_id by {
                            if j < i {
                                assert(shrunk[j] == table[j]);
                            } else {
                                assert(shrunk[j] == table[j + 1]);
                            }
                        }
                        lemma_handle_refcount_skip(shrunk, shrunk.len() as int, handle_id);
                        assert(shrunk.subrange(shrunk.len() as int, shrunk.len() as int) =~= Seq::<
                            (usize, usize),
                        >::empty());
                        assert forall|other: usize| other != handle_id implies handle_refcount(
                            shrunk,
                            other,
                        ) == handle_refcount(table, other) by {
                            lemma_handle_refcount_remove(table, i as int, other);
                        }
                        assert forall|a: int, b: int| 0 <= a < b < shrunk.len() implies (
                        #[trigger] shrunk[a]).0 != (#[trigger] shrunk[b]).0 by {
                            let a0: int = if a < i { a } else { a + 1 };
                            let b0: int = if b < i { b } else { b + 1 };
                            assert(shrunk[a] == table[a0] && shrunk[b] == table[b0]);
                        }
                    }
                }
                return ;
            }
            i = i + 1;
        }
        proof {
            lemma_handle_refcount_skip(table, n as int, handle_id);
            assert(table.subrange(n as int, n as int) =~= Seq::<(usize, usize)>::empty());
        }
    }

    /// A handle value for an embedder operation, with its reference
    /// recorded in the handle table.
    pub fn create_handle(&mut self, handle_id: usize, argument_count: usize) -> (r: InlineHandle)
        requires
            handle_table_unique(old(self).handle_refcounts@),
            handle_id <= 0xFFFF_FFFF,
            argument_count <= 0xFF_FFFF,
        ensures
            inline_kind(r.0) == KIND_HANDLE,
            handle_id_of(r.0) == handle_id,
            handle_argument_count(r.0) == argument_count,
            final(self).slots == old(self).slots,
            handle_table_unique(final(self).handle_refcounts@),
            handle_refcount(final(self).handle_refcounts@, handle_id) == if handle_refcount(
                old(self).handle_refcounts@,
                handle_id,
            ) < usize::MAX {
                handle_refcount(old(self).handle_refcounts@, handle_id) + 1
            } else {
                handle_refcount(old(self).handle_refcounts@, handle_id) as int
            },
            forall|other: usize|
                other != handle_id ==> handle_refcount(final(self).handle_refcounts@, other)
                    == handle_refcount(old(self).handle_refcounts@, other),
    {
        self.notify_handle_created(handle_id);
        InlineHandle::create(handle_id, argument_count)
    }

    /// Frees everything at once, whatever the reference counts say.
    pub fn clear(&mut self)
        ensures
            heap_wf(*final(self)),
            final(self).slots@.len() == 0,
            final(self).handle_refcounts@.len() == 0,
    {
        self.slots.clear();
        self.handle_refcounts.clear();
    }
}

/// Hands an object's children to the worklist.
#[verifier::loop_isolation(false)]
fn push_children(data: HeapData, worklist: &mut Vec<InlineObject>)
    ensures
        final(worklist)@ == old(worklist)@ + data_children(data),
{
    let ghost expected = data_children(data);
    match data {
        HeapData::Int(_) => {
            assert(worklist@ =~= old(worklist)@ + expected);
        },
        HeapData::Text(_) => {
            assert(worklist@ =~= old(worklist)@ + expected);
        },
        HeapData::HirId(_) => {
            assert(worklist@ =~= old(worklist)@ + expected);
        },
        HeapData::Closure { body: _, argument_count: _, captured } => {
            let mut children = captured;
            worklist.append(&mut children);
            proof {
                assert(worklist@ =~= old(worklist)@ + expected);
            }
        },
        HeapData::Tag { symbol: _, value } => {
            match value {
                Some(o) => {
                    worklist.push(o);
                    proof {
                        assert(worklist@ =~= old(worklist)@ + expected);
                    }
                },
                None => {
                    assert(worklist@ =~= old(worklist)@ + expected);
                },
            }
        },
        HeapData::List(items) => {
            let mut children = items;
            worklist.append(&mut children);
            proof {
                assert(worklist@ =~= old(worklist)@ + expected);
            }
        },
        HeapData::Struct(fields) => {
            let mut rest = fields;
            let ghost full = rest@;
            let ghost mut k: int = 0;
            while rest.len() > 0
                invariant
                    0 <= k <= full.len(),
                    rest@ =~= full.subrange(k, full.len() as int),
                    expected == data_children(HeapData::Struct(fields)),
                    full == fields@,
                    worklist@ =~= old(worklist)@ + expected.subrange(0, 2 * k),
                decreases rest@.len(),
            {
                let (key, value) = rest.remove(0);
                proof {
                    assert((key, value) == full[k]);
                    assert(expected[2 * k] == full[k].0 && expected[2 * k + 1] == full[k].1);
                }
                worklist.push(key);
                worklist.push(value);
                proof {
                    assert(expected.subrange(0, 2 * (k + 1)) =~= expected.subrange(0, 2 * k).push(
                        expected[2 * k],
                    ).push(expected[2 * k + 1]));
                    k = k + 1;
                    assert(worklist@ =~= old(worklist)@ + expected.subrange(0, 2 * k));
                    assert(rest@ =~= full.subrange(k, full.len() as int));
                }
            }
            proof {
                assert(expected.subrange(0, 2 * (full.len() as int)) =~= expected);
            }
        },
    }
}


/// A text object: UTF-8 bytes behind a header carrying the byte length.
#[derive(Debug, PartialEq, Eq, Clone, Copy)]
pub struct HeapText(pub HeapObject);

/// What it means for an address to hold a text.
pub open spec fn is_text_at(h: Heap, o: HeapObject) -> bool {
    o.index < h.slots@.len() && (h.slots@[o.index as int] matches Some(s) && s.data is Text)
}

pub open spec fn text_at(h: Heap, o: HeapObject) -> Seq<char> {
    h.slots@[o.index as int]->Some_0.data->Text_0@
}

impl HeapText {
    pub fn new_unchecked(object: HeapObject) -> (r: Self)
        ensures
            r.0 == object,
    {
        Self(object)
    }

    /// Allocates a text object holding the given characters.
    pub fn create(heap: &mut Heap, is_reference_counted: bool, value: &str) -> (r: Self)
        requires
            heap_wf(*old(heap)),
            (text_byte_len(value@) as u64) < 0x1000_0000_0000_0000,
        ensures
            heap_wf(*final(heap)),
            is_text_at(*final(heap), r.0),
            text_at(*final(heap), r.0) == value@,
            r.0.index == old(heap).slots@.len(),
            final(heap).slots@.len() == old(heap).slots@.len() + 1,
            forall|i: int|
                0 <= i < old(heap).slots@.len() ==> final(heap).slots@[i] == old(heap).slots@[i],
    {
        let text = <String as vstd::string::StringExecFns>::from_str(value);
        let object = heap.allocate(HeapData::Text(text), is_reference_counted);
        Self(object)
    }

    /// The text's UTF-8 byte length, read from the header word alone.
    pub fn byte_len(&self, heap: &Heap) -> (r: usize)
        requires
            heap_wf(*heap),
            is_text_at(*heap, self.0),
        ensures
            r == text_byte_len(text_at(*heap, self.0)),
    {
        let header = match &heap.slots[self.0.index] {
            Some(s) => s.header,
            None => 0,
        };
        proof {
            let ghost slot = heap.slots@[self.0.index as int]->Some_0;
            let len = text_byte_len(slot.data->Text_0@) as u64;
            let rc: u64 = if slot_is_reference_counted(slot) {
                8
            } else {
                0
            };
            assert((HEAP_KIND_TEXT | rc | (len << 4)) >> 4 == len) by (bit_vector)
                requires
                    len < 0x1000_0000_0000_0000,
                    rc == 8 || rc == 0,
            ;
        }
        (header >> 4) as usize
    }

    /// Whether the text has no bytes, read from the header word alone.
    pub fn is_empty(&self, heap: &Heap) -> (r: bool)
        requires
            heap_wf(*heap),
            is_text_at(*heap, self.0),
        ensures
            r == (text_byte_len(text_at(*heap, self.0)) == 0),
    {
        self.byte_len(heap) == 0
    }

    /// The characters themselves.
    pub fn get<'a>(&self, heap: &'a Heap) -> (r: &'a String)
        requires
            heap_wf(*heap),
            is_text_at(*heap, self.0),
        ensures
            r@ == text_at(*heap, self.0),
    {
        match &heap.slots[self.0.index] {
            Some(s) => match &s.data {
                HeapData::Text(text) => text,
                _ => vstd::pervasive::unreached(),
            },
            None => vstd::pervasive::unreached(),
        }
    }

    /// How many user-perceived characters the text has: the number of its
    /// grapheme clusters.
    pub fn length(&self, heap: &Heap) -> (r: usize)
        requires
            heap_wf(*heap),
            is_text_at(*heap, self.0),
        ensures
            r == grapheme_clusters(text_at(*heap, self.0)).len(),
    {
        let text = self.get(heap);
        let clusters = split_graphemes(text.as_str());
        clusters.len()
    }

    /// The user-perceived characters, each as its own text.
    pub fn characters(&self, heap: &Heap) -> (r: Vec<String>)
        requires
            heap_wf(*heap),
            is_text_at(*heap, self.0),
        ensures
            r.deep_view() == grapheme_clusters(text_at(*heap, self.0)),
    {
        let text = self.get(heap);
        split_graphemes(text.as_str())
    }

    /// The text made of the user-perceived characters from `start`
    /// (inclusive) to `end` (exclusive); positions beyond the text's end
    /// contribute nothing.
    pub fn get_range(&self, heap: &Heap, start: usize, end: usize) -> (r: String)
        requires
            heap_wf(*heap),
            is_text_at(*heap, self.0),
            start <= end,
        ensures
            ({
                let all = grapheme_clusters(text_at(*heap, self.0));
                let lo = if start as int <= all.len() as int {
                    start as int
                } else {
                    all.len() as int
                };
                let hi = if end as int <= all.len() as int {
                    end as int
                } else {
                    all.len() as int
                };
                r@ == concat_texts(all.subrange(lo, hi))
            }),
    {
        let text = self.get(heap);
        let clusters = split_graphemes(text.as_str());
        let ghost all = grapheme_clusters(text_at(*heap, self.0));
        let n = clusters.len();
        let lo = if start <= n {
            start
        } else {
            n
        };
        let hi = if end <= n {
            end
        } else {
            n
        };
        let mut out = String::new();
        let mut i = lo;
        while i < hi
            invariant
                lo <= i <= hi <= clusters@.len(),
                clusters.deep_view() == all,
                out@ =~= concat_texts(all.subrange(lo as int, i as int)),
            decreases hi - i,
        {
            out.append(clusters[i].as_str());
            proof {
                lemma_concat_texts_push(all.subrange(lo as int, i as int), all[i as int]);
                assert(all.subrange(lo as int, i + 1) =~= all.subrange(lo as int, i as int).push(
                    all[i as int],
                ));
                assert(clusters@[i as int]@ == all[i as int]);
            }
            i = i + 1;
        }
        out
    }
}

/// The concatenation of a sequence of texts.
pub open spec fn concat_texts(parts: Seq<Seq<char>>) -> Seq<char>
    decreases parts.len(),
{
    if parts.len() == 0 {
        Seq::empty()
    } else {
        parts[0] + concat_texts(parts.drop_first())
    }
}

proof fn lemma_concat_texts_push(parts: Seq<Seq<char>>, x: Seq<char>)
    ensures
        concat_texts(parts.push(x)) == concat_texts(parts) + x,
    decreases parts.len(),
{
    if parts.len() == 0 {
        assert(parts.push(x).drop_first() =~= parts);
        assert(parts.push(x)[0] == x);
        assert(concat_texts(parts.push(x)) =~= concat_texts(parts) + x);
    } else {
        lemma_concat_texts_push(parts.drop_first(), x);
        assert(parts.push(x).drop_first() =~= parts.drop_first().push(x));
        assert(parts.push(x)[0] == parts[0]);
        assert(concat_texts(parts.push(x)) =~= concat_texts(parts) + x);
    }
}

/// The grapheme clusters of a text: how it splits into user-perceived
/// characters. The split depends on the characters alone.
pub uninterp spec fn grapheme_clusters(s: Seq<char>) -> Seq<Seq<char>>;

/// Relies on unicode_segmentation's `graphemes` in extended mode: yields
/// the text's grapheme clusters, which are nonempty, concatenate back to
/// exactly the text, and are empty only for the empty text.
#[verifier::external_body]
fn split_graphemes(s: &str) -> (r: Vec<String>)
    ensures
        r.deep_view() == grapheme_clusters(s@),
        concat_texts(r.deep_view()) == s@,
        r@.len() == 0 <==> s@.len() == 0,
        forall|i: int| 0 <= i < r@.len() ==> r.deep_view()[i].len() > 0,
{
    s.graphemes(true).map(|g| g.to_string()).collect()
}

/// A closure object: its code's entry point, its argument count and the
/// values it captured, behind a header carrying the counts.
#[derive(Debug, PartialEq, Eq, Clone, Copy)]
pub struct HeapClosure(pub HeapObject);

pub open spec fn is_closure_at(h: Heap, o: HeapObject) -> bool {
    o.index < h.slots@.len() && (h.slots@[o.index as int] matches Some(s) && s.data is Closure)
}

impl HeapClosure {
    pub fn new_unchecked(object: HeapObject) -> (r: Self)
        ensures
            r.0 == object,
    {
        Self(object)
    }

    /// Allocates a closure object.
    pub fn create(
        heap: &mut Heap,
        captured: Vec<InlineObject>,
        argument_count: usize,
        body: usize,
    ) -> (r: Self)
        requires
            heap_wf(*old(heap)),
            captured@.len() < 0x1_0000_0000,
            argument_count < 0x1000_0000,
        ensures
            heap_wf(*final(heap)),
            is_closure_at(*final(heap), r.0),
            r.0.index == old(heap).slots@.len(),
            final(heap).slots@.len() == old(heap).slots@.len() + 1,
            forall|i: int|
                0 <= i < old(heap).slots@.len() ==> final(heap).slots@[i] == old(heap).slots@[i],
            final(heap).slots@.last()->Some_0.data == (HeapData::Closure {
                body,
                argument_count,
                captured,
            }),
    {
        let object = heap.allocate(
            HeapData::Closure { body, argument_count, captured },
            true,
        );
        Self(object)
    }

    /// How many values the closure captured, read from the header word
    /// alone.
    pub fn captured_len(&self, heap: &Heap) -> (r: usize)
        requires
            heap_wf(*heap),
            is_closure_at(*heap, self.0),
        ensures
            r == heap.slots@[self.0.index as int]->Some_0.data->Closure_captured@.len(),
    {
        let header = match &heap.slots[self.0.index] {
            Some(s) => s.header,
            None => 0,
        };
        proof {
            let ghost slot = heap.slots@[self.0.index as int]->Some_0;
            let cl = slot.data->Closure_captured@.len() as u64;
            let ac = slot.data->Closure_argument_count as u64;
            let rc: u64 = if slot_is_reference_counted(slot) {
                8
            } else {
                0
            };
            assert((HEAP_KIND_CLOSURE | rc | (cl << 32) | (ac << 4)) >> 32 == cl) by (bit_vector)
                requires
                    cl < 0x1_0000_0000,
                    ac < 0x1000_0000,
                    rc == 8 || rc == 0,
            ;
        }
        (header >> 32) as usize
    }

    /// How many arguments the closure's code expects, read from the header
    /// word alone.
    pub fn argument_count(&self, heap: &Heap) -> (r: usize)
        requires
            heap_wf(*heap),
            is_closure_at(*heap, self.0),
        ensures
            r == heap.slots@[self.0.index as int]->Some_0.data->Closure_argument_count,
    {
        let header = match &heap.slots[self.0.index] {
            Some(s) => s.header,
            None => 0,
        };
        proof {
            let ghost slot = heap.slots@[self.0.index as int]->Some_0;
            let cl = slot.data->Closure_captured@.len() as u64;
            let ac = slot.data->Closure_argument_count as u64;
            let rc: u64 = if slot_is_reference_counted(slot) {
                8
            } else {
                0
            };
            assert(((HEAP_KIND_CLOSURE | rc | (cl << 32) | (ac << 4)) & 0xFFFF_FFFF) >> 4 == ac)
                by (bit_vector)
                requires
                    cl < 0x1_0000_0000,
                    ac < 0x1000_0000,
                    rc == 8 || rc == 0,
            ;
        }
        ((header & 0xFFFF_FFFF) >> 4) as usize
    }

    /// The instruction the closure's code starts at.
    pub fn body_pointer(&self, heap: &Heap) -> (r: usize)
        requires
            heap_wf(*heap),
            is_closure_at(*heap, self.0),
        ensures
            r == heap.slots@[self.0.index as int]->Some_0.data->Closure_body,
    {
        match &heap.slots[self.0.index] {
            Some(s) => match &s.data {
                HeapData::Closure { body, .. } => *body,
                _ => vstd::pervasive::unreached(),
            },
            None => vstd::pervasive::unreached(),
        }
    }
}

/// A tag object: a symbol with an optional value.
#[derive(Debug, PartialEq, Eq, Clone, Copy)]
pub struct Tag(pub HeapObject);

/// A closure, as the typed layer above the raw object.
#[derive(Debug, PartialEq, Eq, Clone, Copy)]
pub struct Closure(pub HeapClosure);

/// An owned HIR ID on the heap, used for responsibility tracking.
#[derive(Debug, PartialEq, Eq, Clone, Copy)]
pub struct HirId(pub HeapObject);

/// A builtin function, as the typed layer above the inline word.
#[derive(Debug, PartialEq, Eq, Clone, Copy)]
pub struct Builtin(pub InlineBuiltin);

impl Tag {
    pub fn new_unchecked(object: HeapObject) -> (r: Self)
        ensures
            r.0 == object,
    {
        Self(object)
    }
}

impl Closure {
    pub fn new_unchecked(closure: HeapClosure) -> (r: Self)
        ensures
            r.0 == closure,
    {
        Self(closure)
    }
}

impl HirId {
    pub fn new_unchecked(object: HeapObject) -> (r: Self)
        ensures
            r.0 == object,
    {
        Self(object)
    }
}

impl Builtin {
    pub fn new_unchecked(builtin: InlineBuiltin) -> (r: Self)
        ensures
            r.0 == builtin,
    {
        Self(builtin)
    }
}


/// Whether the key object is the tag or text for the given symbol name.
pub open spec fn key_is_symbol(h: Heap, key: InlineObject, name: Seq<char>) -> bool {
    inline_kind(key) == KIND_POINTER && pointer_index(key) < h.slots@.len() && match h.slots@[
        pointer_index(key) as int
    ] {
        Some(s) => match s.data {
            HeapData::Tag { symbol, value } => symbol@ == name && value is None,
            HeapData::Text(text) => text@ == name,
            _ => false,
        },
        None => false,
    }
}

impl Heap {
    /// The value stored under the first struct field whose key is the tag
    /// or text with the given name: how the embedder finds the exported
    /// `Main` function in a module's return value.
    #[verifier::loop_isolation(false)]
    pub fn struct_get_by_symbol(&self, object: HeapObject, name: &str) -> (r: Option<InlineObject>)
        requires
            heap_wf(*self),
            object.index < self.slots@.len(),
            (self.slots@[object.index as int] matches Some(s) && s.data is Struct),
        ensures
            ({
                let fields = self.slots@[object.index as int]->Some_0.data->Struct_0@;
                match r {
                    Some(v) => exists|i: int|
                        0 <= i < fields.len() && key_is_symbol(*self, (#[trigger] fields[i]).0, name@)
                            && v == fields[i].1 && (forall|j: int|
                            0 <= j < i ==> !key_is_symbol(*self, (#[trigger] fields[j]).0, name@)),
                    None => forall|i: int|
                        0 <= i < fields.len() ==> !key_is_symbol(
                            *self,
                            (#[trigger] fields[i]).0,
                            name@,
                        ),
                }
            }),
    {
        let fields = match &self.slots[object.index] {
            Some(slot) => match &slot.data {
                HeapData::Struct(fields) => fields,
                _ => vstd::pervasive::unreached(),
            },
            None => vstd::pervasive::unreached(),
        };
        let mut i: usize = 0;
        while i < fields.len()
            invariant
                i <= fields@.len(),
                forall|j: int| 0 <= j < i ==> !key_is_symbol(*self, (#[trigger] fields@[j]).0, name@),
            decreases fields@.len() - i,
        {
            let (key, value) = fields[i];
            if self.key_matches_symbol(key, name) {
                return Some(value);
            }
            i = i + 1;
        }
        None
    }

    /// Whether the key object names the given symbol.
    fn key_matches_symbol(&self, key: InlineObject, name: &str) -> (r: bool)
        requires
            heap_wf(*self),
        ensures
            r == key_is_symbol(*self, key, name@),
    {
        if key.kind() != KIND_POINTER {
            return false;
        }
        let object = key.to_heap_object();
        if object.index >= self.slots.len() {
            return false;
        }
        match &self.slots[object.index] {
            Some(slot) => match &slot.data {
                HeapData::Tag { symbol, value } => {
                    let no_value = match value {
                        None => true,
                        Some(_) => false,
                    };
                    no_value && crate::strings::str_eq(symbol.as_str(), name)
                },
                HeapData::Text(text) => crate::strings::str_eq(text.as_str(), name),
                _ => false,
            },
            None => false,
        }
    }
}

/// Whether two values are the same struct key: equal inline words, or
/// pointers to equal texts or to valueless tags with the same symbol.
/// Deeper values act as keys only through the identical pointer.
pub open spec fn key_equal(h: Heap, a: InlineObject, b: InlineObject) -> bool {
    if inline_kind(a) != KIND_POINTER || inline_kind(b) != KIND_POINTER {
        a == b
    } else {
        a == b || {
            pointer_index(a) < h.slots@.len() && pointer_index(b) < h.slots@.len() && match (
                h.slots@[pointer_index(a) as int],
                h.slots@[pointer_index(b) as int],
            ) {
                (Some(x), Some(y)) => match (x.data, y.data) {
                    (HeapData::Text(tx), HeapData::Text(ty)) => tx@ == ty@,
                    (
                        HeapData::Tag { symbol: sx, value: vx },
                        HeapData::Tag { symbol: sy, value: vy },
                    ) => sx@ == sy@ && vx is None && vy is None,
                    _ => false,
                },
                _ => false,
            }
        }
    }
}

impl Heap {
    /// Whether two values are the same struct key.
    pub fn keys_equal(&self, a: InlineObject, b: InlineObject) -> (r: bool)
        requires
            heap_wf(*self),
        ensures
            r == key_equal(*self, a, b),
    {
        if a.kind() != KIND_POINTER || b.kind() != KIND_POINTER {
            return a.0 == b.0;
        }
        if a.0 == b.0 {
            return true;
        }
        let oa = a.to_heap_object();
        let ob = b.to_heap_object();
        if oa.index >= self.slots.len() || ob.index >= self.slots.len() {
            return false;
        }
        match (&self.slots[oa.index], &self.slots[ob.index]) {
            (Some(sa), Some(sb)) => match (&sa.data, &sb.data) {
                (HeapData::Text(tx), HeapData::Text(ty)) => crate::strings::str_eq(
                    tx.as_str(),
                    ty.as_str(),
                ),
                (
                    HeapData::Tag { symbol: sx, value: vx },
                    HeapData::Tag { symbol: sy, value: vy },
                ) => {
                    let neither = match (vx, vy) {
                        (None, None) => true,
                        _ => false,
                    };
                    neither && crate::strings::str_eq(sx.as_str(), sy.as_str())
                },
                _ => false,
            },
            _ => false,
        }
    }

    /// The value stored under the first struct field whose key equals the
    /// given key: lookup finds a value under any equal key, not only the
    /// identical object.
    #[verifier::loop_isolation(false)]
    pub fn struct_get(&self, object: HeapObject, key: InlineObject) -> (r: Option<InlineObject>)
        requires
            heap_wf(*self),
            object.index < self.slots@.len(),
            (self.slots@[object.index as int] matches Some(s) && s.data is Struct),
        ensures
            ({
                let fields = self.slots@[object.index as int]->Some_0.data->Struct_0@;
                match r {
                    Some(v) => exists|i: int|
                        0 <= i < fields.len() && key_equal(*self, (#[trigger] fields[i]).0, key)
                            && v == fields[i].1 && (forall|j: int|
                            0 <= j < i ==> !key_equal(*self, (#[trigger] fields[j]).0, key)),
                    None => forall|i: int|
                        0 <= i < fields.len() ==> !key_equal(*self, (#[trigger] fields[i]).0, key),
                }
            }),
    {
        let fields = match &self.slots[object.index] {
            Some(slot) => match &slot.data {
                HeapData::Struct(fields) => fields,
                _ => vstd::pervasive::unreached(),
            },
            None => vstd::pervasive::unreached(),
        };
        let mut i: usize = 0;
        while i < fields.len()
            invariant
                i <= fields@.len(),
                forall|j: int| 0 <= j < i ==> !key_equal(*self, (#[trigger] fields@[j]).0, key),
            decreases fields@.len() - i,
        {
            let (candidate, value) = fields[i];
            if self.keys_equal(candidate, key) {
                return Some(value);
            }
            i = i + 1;
        }
        None
    }
}

} // verus!
