//! Compiler errors: recoverable findings of the parsing and lowering
//! stages, each tied to a module and a byte range of its source.

use crate::module::Module;
use crate::strings::{chars_to_string, dec_digits, u64_to_digits};
use vstd::prelude::*;

verus! {

#[derive(Debug, PartialEq, Eq, Clone, Hash)]
pub struct CompilerError {
    pub module: Module,
    pub span_start: usize,
    pub span_end: usize,
    pub payload: CompilerErrorPayload,
}

#[derive(Debug, PartialEq, Eq, Clone, Hash)]
pub enum CompilerErrorPayload {
    InvalidUtf8,
    Rcst(RcstError),
    Ast(AstError),
    Hir(HirError),
    Mir(MirError),
}

#[derive(Debug, PartialEq, Eq, Clone, Hash)]
pub enum MirError {
    /// The module takes part in an import cycle; the participating modules'
    /// names, in import order.
    ModuleHasCycle { cycle: Vec<String> },
}

#[derive(Debug, PartialEq, Eq, Clone, Hash)]
pub enum RcstError {
    CurlyBraceNotClosed,
    IdentifierContainsNonAlphanumericAscii,
    IntContainsNonDigits,
    ListItemMissesValue,
    ListNotClosed,
    OpeningParenthesisWithoutExpression,
    ParenthesisNotClosed,
    PipeMissesCall,
    StructFieldMissesColon,
    StructFieldMissesKey,
    StructFieldMissesValue,
    StructNotClosed,
    SymbolContainsNonAlphanumericAscii,
    TextNotClosed,
    TextNotSufficientlyIndented,
    TooMuchWhitespace,
    UnexpectedCharacters,
    UnparsedRest,
    WeirdWhitespace,
    WeirdWhitespaceInIndentation,
}

#[derive(Debug, PartialEq, Eq, Clone, Hash)]
pub enum AstError {
    ExpectedParameter,
    LambdaWithoutClosingCurlyBrace,
    ListItemWithoutComma,
    ListWithNonListItem,
    ListWithoutClosingParenthesis,
    ParenthesizedWithoutClosingParenthesis,
    StructKeyWithoutColon,
    StructValueWithoutComma,
    StructWithNonStructField,
    StructWithoutClosingBrace,
    TextWithoutClosingQuote,
    TextInterpolationWithoutClosingCurlyBraces,
    UnexpectedPunctuation,
}

#[derive(Debug, PartialEq, Eq, Clone, Hash)]
pub enum HirError {
    NeedsWithWrongNumberOfArguments { num_args: usize },
    PublicAssignmentInNotTopLevel,
    PublicAssignmentWithSameName { name: String },
    UnknownReference { name: String },
}

/// The human-readable description of an error payload.
pub open spec fn payload_message(payload: CompilerErrorPayload) -> Seq<char> {
    match payload {
        CompilerErrorPayload::InvalidUtf8 => "The module contains invalid UTF-8."@,
        CompilerErrorPayload::Rcst(error) => match error {
            RcstError::CurlyBraceNotClosed => "The curly brace is not closed."@,
            RcstError::IdentifierContainsNonAlphanumericAscii => "This identifier contains non-alphanumeric ASCII characters."@,
            RcstError::IntContainsNonDigits => "This integer contains characters that are not digits."@,
            RcstError::ListItemMissesValue => "This list item is missing a value."@,
            RcstError::ListNotClosed => "The list is not closed."@,
            RcstError::OpeningParenthesisWithoutExpression => "Here's an opening parenthesis without an expression after it."@,
            RcstError::ParenthesisNotClosed => "This parenthesis isn't closed."@,
            RcstError::PipeMissesCall => "There should be a call after this pipe."@,
            RcstError::StructFieldMissesColon => "This struct field misses a colon."@,
            RcstError::StructFieldMissesKey => "This struct field misses a key."@,
            RcstError::StructFieldMissesValue => "This struct field misses a value."@,
            RcstError::StructNotClosed => "This struct is not closed."@,
            RcstError::SymbolContainsNonAlphanumericAscii => "This symbol contains non-alphanumeric ASCII characters."@,
            RcstError::TextNotClosed => "This text isn't closed."@,
            RcstError::TextNotSufficientlyIndented => "This text isn't sufficiently indented."@,
            RcstError::TooMuchWhitespace => "There is too much whitespace here."@,
            RcstError::UnexpectedCharacters => "This is an unexpected character."@,
            RcstError::UnparsedRest => "The parser couldn't parse this rest."@,
            RcstError::WeirdWhitespace => "This is weird whitespace."@,
            RcstError::WeirdWhitespaceInIndentation => "This is weird whitespace. Make sure to use indent using two spaces."@,
        },
        CompilerErrorPayload::Ast(error) => match error {
            AstError::ExpectedParameter => "A parameter should come here."@,
            AstError::LambdaWithoutClosingCurlyBrace => "This lambda doesn't have a closing curly brace."@,
            AstError::ListItemWithoutComma => "This list item should be followed by a comma."@,
            AstError::ListWithNonListItem => "This is not a list item."@,
            AstError::ListWithoutClosingParenthesis => "This list doesn't have a closing parenthesis."@,
            AstError::ParenthesizedWithoutClosingParenthesis => "This expression is parenthesized, but the closing parenthesis is missing."@,
            AstError::StructKeyWithoutColon => "This struct key should be followed by a colon."@,
            AstError::StructValueWithoutComma => "This struct value should be followed by a comma."@,
            AstError::StructWithNonStructField => "Structs should only contain struct key."@,
            AstError::StructWithoutClosingBrace => "This struct doesn't have a closing bracket."@,
            AstError::TextWithoutClosingQuote => "This text never ends."@,
            AstError::TextInterpolationWithoutClosingCurlyBraces => "This text interpolation never ends."@,
            AstError::UnexpectedPunctuation => "This punctuation was unexpected."@,
        },
        CompilerErrorPayload::Hir(error) => match error {
            HirError::NeedsWithWrongNumberOfArguments { num_args } => "This `needs` is given "@
                + dec_digits(num_args as nat)
                + " arguments, but it needs one or two – a condition and an optional reason."@,
            HirError::PublicAssignmentInNotTopLevel => "This re-assigns a value that is public. That's not allowed."@,
            HirError::PublicAssignmentWithSameName { name } => "There already exists a public assignment named `"@
                + name@ + "`."@,
            HirError::UnknownReference { name } => "Here, you reference `"@ + name@
                + "`, but that name is not in scope."@,
        },
        CompilerErrorPayload::Mir(error) => match error {
            MirError::ModuleHasCycle { cycle } => "The module is part of an import cycle: "@
                + crate::utils::comma_joined(cycle@.map_values(|s: String| s@)) + "."@,
        },
    }
}

impl CompilerErrorPayload {
    /// Formats the payload for the user.
    pub fn to_message(&self) -> (r: String)
        ensures
            r@ == payload_message(*self),
    {
        match self {
            CompilerErrorPayload::InvalidUtf8 => string_from_str(
                "The module contains invalid UTF-8.",
            ),
            CompilerErrorPayload::Rcst(error) => match error {
                RcstError::CurlyBraceNotClosed => string_from_str(
                    "The curly brace is not closed.",
                ),
                RcstError::IdentifierContainsNonAlphanumericAscii => string_from_str(
                    "This identifier contains non-alphanumeric ASCII characters.",
                ),
                RcstError::IntContainsNonDigits => string_from_str(
                    "This integer contains characters that are not digits.",
                ),
                RcstError::ListItemMissesValue => string_from_str(
                    "This list item is missing a value.",
                ),
                RcstError::ListNotClosed => string_from_str("The list is not closed."),
                RcstError::OpeningParenthesisWithoutExpression => string_from_str(
                    "Here's an opening parenthesis without an expression after it.",
                ),
                RcstError::ParenthesisNotClosed => string_from_str(
                    "This parenthesis isn't closed.",
                ),
                RcstError::PipeMissesCall => string_from_str(
                    "There should be a call after this pipe.",
                ),
                RcstError::StructFieldMissesColon => string_from_str(
                    "This struct field misses a colon.",
                ),
                RcstError::StructFieldMissesKey => string_from_str(
                    "This struct field misses a key.",
                ),
                RcstError::StructFieldMissesValue => string_from_str(
                    "This struct field misses a value.",
                ),
                RcstError::StructNotClosed => string_from_str("This struct is not closed."),
                RcstError::SymbolContainsNonAlphanumericAscii => string_from_str(
                    "This symbol contains non-alphanumeric ASCII characters.",
                ),
                RcstError::TextNotClosed => string_from_str("This text isn't closed."),
                RcstError::TextNotSufficientlyIndented => string_from_str(
                    "This text isn't sufficiently indented.",
                ),
                RcstError::TooMuchWhitespace => string_from_str(
                    "There is too much whitespace here.",
                ),
                RcstError::UnexpectedCharacters => string_from_str(
                    "This is an unexpected character.",
                ),
                RcstError::UnparsedRest => string_from_str("The parser couldn't parse this rest."),
                RcstError::WeirdWhitespace => string_from_str("This is weird whitespace."),
                RcstError::WeirdWhitespaceInIndentation => string_from_str(
                    "This is weird whitespace. Make sure to use indent using two spaces.",
                ),
            },
            CompilerErrorPayload::Ast(error) => match error {
                AstError::ExpectedParameter => string_from_str("A parameter should come here."),
                AstError::LambdaWithoutClosingCurlyBrace => string_from_str(
                    "This lambda doesn't have a closing curly brace.",
                ),
                AstError::ListItemWithoutComma => string_from_str(
                    "This list item should be followed by a comma.",
                ),
                AstError::ListWithNonListItem => string_from_str("This is not a list item."),
                AstError::ListWithoutClosingParenthesis => string_from_str(
                    "This list doesn't have a closing parenthesis.",
                ),
                AstError::ParenthesizedWithoutClosingParenthesis => string_from_str(
                    "This expression is parenthesized, but the closing parenthesis is missing.",
                ),
                AstError::StructKeyWithoutColon => string_from_str(
                    "This struct key should be followed by a colon.",
                ),
                AstError::StructValueWithoutComma => string_from_str(
                    "This struct value should be followed by a comma.",
                ),
                AstError::StructWithNonStructField => string_from_str(
                    "Structs should only contain struct key.",
                ),
                AstError::StructWithoutClosingBrace => string_from_str(
                    "This struct doesn't have a closing bracket.",
                ),
                AstError::TextWithoutClosingQuote => string_from_str("This text never ends."),
                AstError::TextInterpolationWithoutClosingCurlyBraces => string_from_str(
                    "This text interpolation never ends.",
                ),
                AstError::UnexpectedPunctuation => string_from_str(
                    "This punctuation was unexpected.",
                ),
            },
            CompilerErrorPayload::Hir(error) => match error {
                HirError::NeedsWithWrongNumberOfArguments { num_args } => {
                    let mut message = string_from_str("This `needs` is given ");
                    let digits = u64_to_digits(*num_args as u64);
                    let count = chars_to_string(digits.as_slice());
                    message.append(count.as_str());
                    message.append(
                        " arguments, but it needs one or two – a condition and an optional reason.",
                    );
                    message
                },
                HirError::PublicAssignmentInNotTopLevel => string_from_str(
                    "This re-assigns a value that is public. That's not allowed.",
                ),
                HirError::PublicAssignmentWithSameName { name } => {
                    let mut message = string_from_str(
                        "There already exists a public assignment named `",
                    );
                    message.append(name.as_str());
                    message.append("`.");
                    message
                },
                HirError::UnknownReference { name } => {
                    let mut message = string_from_str("Here, you reference `");
                    message.append(name.as_str());
                    message.append("`, but that name is not in scope.");
                    message
                },
            },
            CompilerErrorPayload::Mir(error) => match error {
                MirError::ModuleHasCycle { cycle } => {
                    let mut message = string_from_str("The module is part of an import cycle: ");
                    let ghost names = cycle@.map_values(|n: String| n@);
                    let mut i: usize = 0;
                    while i < cycle.len()
                        invariant
                            i <= cycle@.len(),
                            names == cycle@.map_values(|n: String| n@),
                            message@ =~= "The module is part of an import cycle: "@
                                + crate::utils::comma_joined(names.subrange(0, i as int)),
                        decreases cycle@.len() - i,
                    {
                        if i > 0 {
                            message.append(", ");
                        }
                        message.append(cycle[i].as_str());
                        proof {
                            if i > 0 {
                                crate::utils::lemma_comma_joined_push(
                                    names.subrange(0, i as int),
                                    names[i as int],
                                );
                            } else {
                                assert(names.subrange(0, 1) =~= seq![names[0]]);
                                assert(crate::utils::comma_joined(seq![names[0]]) == names[0]);
                            }
                            assert(names.subrange(0, i + 1) =~= names.subrange(0, i as int).push(
                                names[i as int],
                            ));
                        }
                        i = i + 1;
                    }
                    message.append(".");
                    proof {
                        assert(names.subrange(0, names.len() as int) =~= names);
                    }
                    message
                },
            },
        }
    }
}

impl CompilerError {
    /// An error that concerns a module as a whole rather than a span of it.
    pub fn for_whole_module(module: Module, payload: CompilerErrorPayload) -> (r: Self)
        ensures
            r.module == module,
            r.span_start == 0,
            r.span_end == 0,
            r.payload == payload,
    {
        CompilerError { module, span_start: 0, span_end: 0, payload }
    }
}

fn string_from_str(s: &str) -> (r: String)
    ensures
        r@ == s@,
{
    <String as vstd::string::StringExecFns>::from_str(s)
}

} // verus!
