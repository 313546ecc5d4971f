//! The fixed vocabulary of primitive operations the language offers.

use vstd::prelude::*;

verus! {

#[derive(Debug, PartialEq, Eq, Clone, Copy, Hash, PartialOrd, Ord, Structural)]
pub enum BuiltinFunction {
    Add,
    Subtract,
    Multiply,
    IntDivideTruncating,
    Remainder,
    Modulo,
    IntCompareTo,
    IntShiftLeft,
    IntShiftRight,
    IntBitLength,
    IntBitwiseAnd,
    IntBitwiseOr,
    IntBitwiseXor,
    TextLength,
    TextCharacters,
    TextContains,
    TextStartsWith,
    TextEndsWith,
    TextGetRange,
    TextConcatenate,
    TextTrimStart,
    TextTrimEnd,
    ToDebugText,
    ListLength,
    ListGet,
    ListInsert,
    ListReplace,
    ListRemoveAt,
    StructGet,
    StructGetKeys,
    StructHasKey,
    TypeOf,
    Equals,
    IfElse,
    GetArgumentCount,
    Panic,
    Print,
    ChannelCreate,
    ChannelSend,
    ChannelReceive,
    Parallel,
    Try,
}

/// The builtin's position in the dispatch table.
pub open spec fn spec_table_index(b: BuiltinFunction) -> usize {
    match b {
        BuiltinFunction::Add => 0,
        BuiltinFunction::Subtract => 1,
        BuiltinFunction::Multiply => 2,
        BuiltinFunction::IntDivideTruncating => 3,
        BuiltinFunction::Remainder => 4,
        BuiltinFunction::Modulo => 5,
        BuiltinFunction::IntCompareTo => 6,
        BuiltinFunction::IntShiftLeft => 7,
        BuiltinFunction::IntShiftRight => 8,
        BuiltinFunction::IntBitLength => 9,
        BuiltinFunction::IntBitwiseAnd => 10,
        BuiltinFunction::IntBitwiseOr => 11,
        BuiltinFunction::IntBitwiseXor => 12,
        BuiltinFunction::TextLength => 13,
        BuiltinFunction::TextCharacters => 14,
        BuiltinFunction::TextContains => 15,
        BuiltinFunction::TextStartsWith => 16,
        BuiltinFunction::TextEndsWith => 17,
        BuiltinFunction::TextGetRange => 18,
        BuiltinFunction::TextConcatenate => 19,
        BuiltinFunction::TextTrimStart => 20,
        BuiltinFunction::TextTrimEnd => 21,
        BuiltinFunction::ToDebugText => 22,
        BuiltinFunction::ListLength => 23,
        BuiltinFunction::ListGet => 24,
        BuiltinFunction::ListInsert => 25,
        BuiltinFunction::ListReplace => 26,
        BuiltinFunction::ListRemoveAt => 27,
        BuiltinFunction::StructGet => 28,
        BuiltinFunction::StructGetKeys => 29,
        BuiltinFunction::StructHasKey => 30,
        BuiltinFunction::TypeOf => 31,
        BuiltinFunction::Equals => 32,
        BuiltinFunction::IfElse => 33,
        BuiltinFunction::GetArgumentCount => 34,
        BuiltinFunction::Panic => 35,
        BuiltinFunction::Print => 36,
        BuiltinFunction::ChannelCreate => 37,
        BuiltinFunction::ChannelSend => 38,
        BuiltinFunction::ChannelReceive => 39,
        BuiltinFunction::Parallel => 40,
        BuiltinFunction::Try => 41,
    }
}

impl BuiltinFunction {
    /// How many arguments the builtin expects.
    pub fn num_parameters(&self) -> (r: usize)
        ensures
            r == spec_num_parameters(*self),
    {
        match self {
            BuiltinFunction::Add => 2,
            BuiltinFunction::Subtract => 2,
            BuiltinFunction::Multiply => 2,
            BuiltinFunction::IntDivideTruncating => 2,
            BuiltinFunction::Remainder => 2,
            BuiltinFunction::Modulo => 2,
            BuiltinFunction::IntCompareTo => 2,
            BuiltinFunction::IntShiftLeft => 2,
            BuiltinFunction::IntShiftRight => 2,
            BuiltinFunction::IntBitLength => 1,
            BuiltinFunction::IntBitwiseAnd => 2,
            BuiltinFunction::IntBitwiseOr => 2,
            BuiltinFunction::IntBitwiseXor => 2,
            BuiltinFunction::TextLength => 1,
            BuiltinFunction::TextCharacters => 1,
            BuiltinFunction::TextContains => 2,
            BuiltinFunction::TextStartsWith => 2,
            BuiltinFunction::TextEndsWith => 2,
            BuiltinFunction::TextGetRange => 3,
            BuiltinFunction::TextConcatenate => 2,
            BuiltinFunction::TextTrimStart => 1,
            BuiltinFunction::TextTrimEnd => 1,
            BuiltinFunction::ToDebugText => 1,
            BuiltinFunction::ListLength => 1,
            BuiltinFunction::ListGet => 2,
            BuiltinFunction::ListInsert => 3,
            BuiltinFunction::ListReplace => 3,
            BuiltinFunction::ListRemoveAt => 2,
            BuiltinFunction::StructGet => 2,
            BuiltinFunction::StructGetKeys => 1,
            BuiltinFunction::StructHasKey => 2,
            BuiltinFunction::TypeOf => 1,
            BuiltinFunction::Equals => 2,
            BuiltinFunction::IfElse => 3,
            BuiltinFunction::GetArgumentCount => 1,
            BuiltinFunction::Panic => 1,
            BuiltinFunction::Print => 1,
            BuiltinFunction::ChannelCreate => 1,
            BuiltinFunction::ChannelSend => 2,
            BuiltinFunction::ChannelReceive => 1,
            BuiltinFunction::Parallel => 1,
            BuiltinFunction::Try => 1,
        }
    }
}

pub open spec fn spec_num_parameters(b: BuiltinFunction) -> usize {
    match b {
        BuiltinFunction::IntBitLength => 1usize,
        BuiltinFunction::TextLength => 1usize,
        BuiltinFunction::TextCharacters => 1usize,
        BuiltinFunction::TextTrimStart => 1usize,
        BuiltinFunction::TextTrimEnd => 1usize,
        BuiltinFunction::ToDebugText => 1usize,
        BuiltinFunction::ListLength => 1usize,
        BuiltinFunction::StructGetKeys => 1usize,
        BuiltinFunction::TypeOf => 1usize,
        BuiltinFunction::GetArgumentCount => 1usize,
        BuiltinFunction::Panic => 1usize,
        BuiltinFunction::Print => 1usize,
        BuiltinFunction::ChannelCreate => 1usize,
        BuiltinFunction::ChannelReceive => 1usize,
        BuiltinFunction::Parallel => 1usize,
        BuiltinFunction::Try => 1usize,
        BuiltinFunction::TextGetRange => 3usize,
        BuiltinFunction::ListInsert => 3usize,
        BuiltinFunction::ListReplace => 3usize,
        BuiltinFunction::IfElse => 3usize,
        _ => 2usize,
    }
}

impl BuiltinFunction {
    /// The builtin's position in the fixed builtin table.
    pub fn table_index(&self) -> (r: usize)
        ensures
            r < 64,
            r == spec_table_index(*self),
    {
        match self {
            BuiltinFunction::Add => 0,
            BuiltinFunction::Subtract => 1,
            BuiltinFunction::Multiply => 2,
            BuiltinFunction::IntDivideTruncating => 3,
            BuiltinFunction::Remainder => 4,
            BuiltinFunction::Modulo => 5,
            BuiltinFunction::IntCompareTo => 6,
            BuiltinFunction::IntShiftLeft => 7,
            BuiltinFunction::IntShiftRight => 8,
            BuiltinFunction::IntBitLength => 9,
            BuiltinFunction::IntBitwiseAnd => 10,
            BuiltinFunction::IntBitwiseOr => 11,
            BuiltinFunction::IntBitwiseXor => 12,
            BuiltinFunction::TextLength => 13,
            BuiltinFunction::TextCharacters => 14,
            BuiltinFunction::TextContains => 15,
            BuiltinFunction::TextStartsWith => 16,
            BuiltinFunction::TextEndsWith => 17,
            BuiltinFunction::TextGetRange => 18,
            BuiltinFunction::TextConcatenate => 19,
            BuiltinFunction::TextTrimStart => 20,
            BuiltinFunction::TextTrimEnd => 21,
            BuiltinFunction::ToDebugText => 22,
            BuiltinFunction::ListLength => 23,
            BuiltinFunction::ListGet => 24,
            BuiltinFunction::ListInsert => 25,
            BuiltinFunction::ListReplace => 26,
            BuiltinFunction::ListRemoveAt => 27,
            BuiltinFunction::StructGet => 28,
            BuiltinFunction::StructGetKeys => 29,
            BuiltinFunction::StructHasKey => 30,
            BuiltinFunction::TypeOf => 31,
            BuiltinFunction::Equals => 32,
            BuiltinFunction::IfElse => 33,
            BuiltinFunction::GetArgumentCount => 34,
            BuiltinFunction::Panic => 35,
            BuiltinFunction::Print => 36,
            BuiltinFunction::ChannelCreate => 37,
            BuiltinFunction::ChannelSend => 38,
            BuiltinFunction::ChannelReceive => 39,
            BuiltinFunction::Parallel => 40,
            BuiltinFunction::Try => 41,
        }
    }
}

} // verus!
