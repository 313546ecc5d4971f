//! A recursive-descent parser from source characters to the concrete syntax
//! tree.
//!
//! Every parse function takes the input and a position and, on success,
//! returns the position after the consumed characters together with the
//! parsed node. The parsers never fail the whole parse: malformed input
//! becomes `Cst::Error` nodes carrying the unparsable text.
//!
//! Terminology: a word is a run of characters not separated by whitespace
//! or meaningful punctuation. Identifiers, symbols, and ints are words.
//! Words may be invalid because they contain non-ASCII or non-alphanumeric
//! characters.
//!
//! Where a node keeps all consumed characters, its contract states the
//! round-trip law: formatting the node yields exactly the consumed slice of
//! the input.

use crate::cst::{cst_text, csts_text, lemma_csts_text_push, Cst, CstError};
use crate::strings::{
    all_ascii_alphanumeric, all_digits, char_is_lowercase, char_is_uppercase, chars_to_string,
    digit_val, digits_val, is_ascii_alphanumeric_char, is_ascii_digit_char, is_whitespace_char,
    lowercase_property, spec_is_ascii_alphanumeric, spec_is_ascii_digit, spec_is_whitespace,
    uppercase_property,
};
use vstd::prelude::*;

verus! {

/// The punctuation characters that end a word.
pub open spec fn spec_is_meaningful_punctuation(c: char) -> bool {
    c == '=' || c == '-' || c == '>' || c == '(' || c == ')' || c == '{' || c == '}' || c == '['
        || c == ']' || c == ',' || c == ':'
}

pub fn is_meaningful_punctuation(c: char) -> (r: bool)
    ensures
        r == spec_is_meaningful_punctuation(c),
{
    c == '=' || c == '-' || c == '>' || c == '(' || c == ')' || c == '{' || c == '}' || c == '['
        || c == ']' || c == ',' || c == ':'
}

/// A character that continues a word.
pub open spec fn spec_is_word_char(c: char) -> bool {
    !spec_is_whitespace(c) && !spec_is_meaningful_punctuation(c)
}

fn is_word_char(c: char) -> (r: bool)
    ensures
        r == spec_is_word_char(c),
{
    !is_whitespace_char(c) && !is_meaningful_punctuation(c)
}

/// Where the word starting at this position ends.
pub open spec fn word_end(input: Seq<char>, pos: int) -> int
    recommends
        0 <= pos <= input.len(),
    decreases input.len() - pos,
{
    if pos < input.len() && spec_is_word_char(input[pos]) {
        word_end(input, pos + 1)
    } else {
        pos
    }
}

/// A scan that took every word character and stopped at the first other
/// one ends where the spec says.
proof fn lemma_word_end(input: Seq<char>, pos: int, p: int)
    requires
        0 <= pos <= p <= input.len(),
        forall|i: int| pos <= i < p ==> spec_is_word_char(#[trigger] input[i]),
        p == input.len() || !spec_is_word_char(input[p]),
    ensures
        p == word_end(input, pos),
    decreases p - pos,
{
    if pos < p {
        lemma_word_end(input, pos + 1, p);
    }
}

/// Consumes `literal` if the input continues with it.
#[verifier::loop_isolation(false)]
pub fn literal(input: &[char], pos: usize, pattern: &[char]) -> (r: Option<usize>)
    requires
        pos <= input@.len(),
    ensures
        match r {
            Some(p2) => p2 == pos + pattern@.len() && p2 <= input@.len() && input@.subrange(
                pos as int,
                p2 as int,
            ) == pattern@,
            None => !(pos + pattern@.len() <= input@.len() && input@.subrange(
                pos as int,
                pos + pattern@.len(),
            ) == pattern@),
        },
{
    if pattern.len() > input.len() - pos {
        return None;
    }
    let mut i: usize = 0;
    while i < pattern.len()
        invariant
            pos + pattern@.len() <= input@.len(),
            i <= pattern@.len(),
            input@.subrange(pos as int, pos + i) =~= pattern@.subrange(0, i as int),
        decreases pattern@.len() - i,
    {
        if input[pos + i] != pattern[i] {
            proof {
                assert(input@.subrange(pos as int, pos + pattern@.len())[i as int] == input@[pos
                    + i]);
            }
            return None;
        }
        proof {
            assert(input@.subrange(pos as int, pos + i + 1) =~= input@.subrange(
                pos as int,
                pos + i,
            ).push(input@[pos + i]));
            assert(pattern@.subrange(0, i + 1) =~= pattern@.subrange(0, i as int).push(
                pattern@[i as int],
            ));
        }
        i = i + 1;
    }
    proof {
        assert(pattern@.subrange(0, pattern@.len() as int) =~= pattern@);
    }
    Some(pos + pattern.len())
}

/// Consumes a single expected character and returns the given node, which
/// formats back to exactly that character.
fn single_char_token(input: &[char], pos: usize, expected: char, token: Cst) -> (r: Option<
    (usize, Cst),
>)
    requires
        pos <= input@.len(),
        cst_text(token) == seq![expected],
    ensures
        match r {
            Some((p2, c)) => p2 == pos + 1 && p2 <= input@.len() && input@[pos as int] == expected
                && c == token && cst_text(c) == input@.subrange(pos as int, p2 as int),
            None => pos == input@.len() || input@[pos as int] != expected,
        },
{
    if pos < input.len() && input[pos] == expected {
        proof {
            assert(input@.subrange(pos as int, pos + 1) =~= seq![input@[pos as int]]);
        }
        Some((pos + 1, token))
    } else {
        None
    }
}

pub fn opening_parenthesis(input: &[char], pos: usize) -> (r: Option<(usize, Cst)>)
    requires
        pos <= input@.len(),
    ensures
        match r {
            Some((p2, c)) => p2 == pos + 1 && p2 <= input@.len() && input@[pos as int] == '(' && c
                == Cst::OpeningParenthesis && cst_text(c) == input@.subrange(pos as int, p2 as int),
            None => pos == input@.len() || input@[pos as int] != '(',
        },
{
    single_char_token(input, pos, '(', Cst::OpeningParenthesis)
}

pub fn closing_parenthesis(input: &[char], pos: usize) -> (r: Option<(usize, Cst)>)
    requires
        pos <= input@.len(),
    ensures
        match r {
            Some((p2, c)) => p2 == pos + 1 && p2 <= input@.len() && input@[pos as int] == ')' && c
                == Cst::ClosingParenthesis && cst_text(c) == input@.subrange(pos as int, p2 as int),
            None => pos == input@.len() || input@[pos as int] != ')',
        },
{
    single_char_token(input, pos, ')', Cst::ClosingParenthesis)
}

pub fn opening_curly_brace(input: &[char], pos: usize) -> (r: Option<(usize, Cst)>)
    requires
        pos <= input@.len(),
    ensures
        match r {
            Some((p2, c)) => p2 == pos + 1 && p2 <= input@.len() && input@[pos as int] == '{' && c
                == Cst::OpeningCurlyBrace && cst_text(c) == input@.subrange(pos as int, p2 as int),
            None => pos == input@.len() || input@[pos as int] != '{',
        },
{
    single_char_token(input, pos, '{', Cst::OpeningCurlyBrace)
}

pub fn closing_curly_brace(input: &[char], pos: usize) -> (r: Option<(usize, Cst)>)
    requires
        pos <= input@.len(),
    ensures
        match r {
            Some((p2, c)) => p2 == pos + 1 && p2 <= input@.len() && input@[pos as int] == '}' && c
                == Cst::ClosingCurlyBrace && cst_text(c) == input@.subrange(pos as int, p2 as int),
            None => pos == input@.len() || input@[pos as int] != '}',
        },
{
    single_char_token(input, pos, '}', Cst::ClosingCurlyBrace)
}

pub fn double_quote(input: &[char], pos: usize) -> (r: Option<(usize, Cst)>)
    requires
        pos <= input@.len(),
    ensures
        match r {
            Some((p2, c)) => p2 == pos + 1 && p2 <= input@.len() && input@[pos as int] == '"' && c
                == Cst::DoubleQuote && cst_text(c) == input@.subrange(pos as int, p2 as int),
            None => pos == input@.len() || input@[pos as int] != '"',
        },
{
    single_char_token(input, pos, '"', Cst::DoubleQuote)
}

pub fn arrow(input: &[char], pos: usize) -> (r: Option<(usize, Cst)>)
    requires
        pos <= input@.len(),
    ensures
        match r {
            Some((p2, c)) => p2 == pos + 2 && p2 <= input@.len() && input@[pos as int] == '-'
                && input@[pos + 1] == '>' && c == Cst::Arrow && cst_text(c) == input@.subrange(
                pos as int,
                p2 as int,
            ),
            None => pos + 2 > input@.len() || input@[pos as int] != '-' || input@[pos + 1] != '>',
        },
{
    let n = input.len();
    if n >= 2 && pos <= n - 2 && input[pos] == '-' && input[pos + 1] == '>' {
        proof {
            assert(input@.subrange(pos as int, pos + 2) =~= seq!['-', '>']);
        }
        Some((pos + 2, Cst::Arrow))
    } else {
        None
    }
}

/// Consumes the longest nonempty run of word characters.
#[verifier::loop_isolation(false)]
pub fn word(input: &[char], pos: usize) -> (r: Option<(usize, String)>)
    requires
        pos <= input@.len(),
    ensures
        match r {
            Some((p2, w)) => pos < p2 <= input@.len() && w@ == input@.subrange(
                pos as int,
                p2 as int,
            ) && (forall|i: int| pos <= i < p2 ==> spec_is_word_char(#[trigger] input@[i])) && (p2
                == input@.len() || !spec_is_word_char(input@[p2 as int])),
            None => pos == input@.len() || !spec_is_word_char(input@[pos as int]),
        },
{
    let mut p = pos;
    while p < input.len() && is_word_char(input[p])
        invariant
            pos <= p <= input@.len(),
            forall|i: int| pos <= i < p ==> spec_is_word_char(#[trigger] input@[i]),
        decreases input@.len() - p,
    {
        p = p + 1;
    }
    if p == pos {
        None
    } else {
        let w = chars_to_string(slice_range(input, pos, p));
        Some((p, w))
    }
}

/// The subslice of `v` from `from` to `to`.
fn slice_range(v: &[char], from: usize, to: usize) -> (r: &[char])
    requires
        from <= to <= v@.len(),
    ensures
        r@ == v@.subrange(from as int, to as int),
{
    vstd::slice::slice_subrange(v, from, to)
}

/// Consumes a word starting with a lowercase character: a well-formed
/// identifier if it is ASCII alphanumeric, an error node otherwise.
pub fn identifier(input: &[char], pos: usize) -> (r: Option<(usize, Cst)>)
    requires
        pos <= input@.len(),
    ensures
        match r {
            Some((p2, c)) => {
                let w = input@.subrange(pos as int, p2 as int);
                &&& pos < p2 <= input@.len()
                &&& lowercase_property(input@[pos as int])
                &&& (forall|i: int| pos <= i < p2 ==> spec_is_word_char(#[trigger] input@[i]))
                &&& (p2 == input@.len() || !spec_is_word_char(input@[p2 as int]))
                &&& match c {
                    Cst::Identifier(s) => s@ == w && all_ascii_alphanumeric(w),
                    Cst::Error { unparsable_input, error } => unparsable_input@ == w && error
                        == CstError::IdentifierContainsNonAlphanumericAscii
                        && !all_ascii_alphanumeric(w),
                    _ => false,
                }
                &&& cst_text(c) == w
            },
            None => pos == input@.len() || !spec_is_word_char(input@[pos as int])
                || !lowercase_property(input@[pos as int]),
        },
{
    let (p2, w) = match word(input, pos) {
        Some(r) => r,
        None => { return None },
    };
    if !char_is_lowercase(input[pos]) {
        return None;
    }
    if scan_ascii_alphanumeric(input, pos, p2) {
        Some((p2, Cst::Identifier(w)))
    } else {
        Some(
            (
                p2,
                Cst::Error {
                    unparsable_input: w,
                    error: CstError::IdentifierContainsNonAlphanumericAscii,
                },
            ),
        )
    }
}

/// Consumes a word starting with an uppercase character: a well-formed
/// symbol if it is ASCII alphanumeric, an error node otherwise.
pub fn symbol(input: &[char], pos: usize) -> (r: Option<(usize, Cst)>)
    requires
        pos <= input@.len(),
    ensures
        match r {
            Some((p2, c)) => {
                let w = input@.subrange(pos as int, p2 as int);
                &&& pos < p2 <= input@.len()
                &&& uppercase_property(input@[pos as int])
                &&& (forall|i: int| pos <= i < p2 ==> spec_is_word_char(#[trigger] input@[i]))
                &&& (p2 == input@.len() || !spec_is_word_char(input@[p2 as int]))
                &&& match c {
                    Cst::Symbol(s) => s@ == w && all_ascii_alphanumeric(w),
                    Cst::Error { unparsable_input, error } => unparsable_input@ == w && error
                        == CstError::SymbolContainsNonAlphanumericAscii && !all_ascii_alphanumeric(
                        w,
                    ),
                    _ => false,
                }
                &&& cst_text(c) == w
            },
            None => pos == input@.len() || !spec_is_word_char(input@[pos as int])
                || !uppercase_property(input@[pos as int]),
        },
{
    let (p2, w) = match word(input, pos) {
        Some(r) => r,
        None => { return None },
    };
    if !char_is_uppercase(input[pos]) {
        return None;
    }
    if scan_ascii_alphanumeric(input, pos, p2) {
        Some((p2, Cst::Symbol(w)))
    } else {
        Some(
            (
                p2,
                Cst::Error {
                    unparsable_input: w,
                    error: CstError::SymbolContainsNonAlphanumericAscii,
                },
            ),
        )
    }
}

#[verifier::loop_isolation(false)]
fn scan_ascii_alphanumeric(input: &[char], from: usize, to: usize) -> (r: bool)
    requires
        from <= to <= input@.len(),
    ensures
        r == all_ascii_alphanumeric(input@.subrange(from as int, to as int)),
{
    let ghost w = input@.subrange(from as int, to as int);
    let mut i = from;
    while i < to
        invariant
            from <= i <= to <= input@.len(),
            w == input@.subrange(from as int, to as int),
            forall|j: int| from <= j < i ==> spec_is_ascii_alphanumeric(#[trigger] input@[j]),
        decreases to - i,
    {
        if !is_ascii_alphanumeric_char(input[i]) {
            proof {
                assert(w[i - from] == input@[i as int]);
            }
            return false;
        }
        i = i + 1;
    }
    proof {
        assert forall|j: int| 0 <= j < w.len() implies spec_is_ascii_alphanumeric(
            #[trigger] w[j],
        ) by {
            assert(w[j] == input@[from + j]);
        }
    }
    true
}

/// Consumes a word starting with a digit: an int node when the word is all
/// digits without a leading zero and its value fits the int type, an error
/// node otherwise.
#[verifier::loop_isolation(false)]
pub fn integer(input: &[char], pos: usize) -> (r: Option<(usize, Cst)>)
    requires
        pos <= input@.len(),
    ensures
        match r {
            Some((p2, c)) => {
                let w = input@.subrange(pos as int, p2 as int);
                &&& pos < p2 <= input@.len()
                &&& spec_is_ascii_digit(input@[pos as int])
                &&& (forall|i: int| pos <= i < p2 ==> spec_is_word_char(#[trigger] input@[i]))
                &&& (p2 == input@.len() || !spec_is_word_char(input@[p2 as int]))
                &&& match c {
                    Cst::Int(v) => all_digits(w) && digits_val(w) == v && (p2 - pos == 1
                        || input@[pos as int] != '0'),
                    Cst::Error { unparsable_input, error } => unparsable_input@ == w && ((error
                        == CstError::IntContainsNonDigits && (!all_digits(w) || digits_val(w)
                        > u64::MAX)) || (error == CstError::IntHasLeadingZeros && all_digits(w)
                        && p2 - pos > 1 && input@[pos as int] == '0')),
                    _ => false,
                }
                &&& cst_text(c) == w
            },
            None => pos == input@.len() || !spec_is_word_char(input@[pos as int])
                || !spec_is_ascii_digit(input@[pos as int]),
        },
{
    let (p2, w) = match word(input, pos) {
        Some(r) => r,
        None => { return None },
    };
    if !is_ascii_digit_char(input[pos]) {
        return None;
    }
    let ghost wv = input@.subrange(pos as int, p2 as int);
    let mut value: u64 = 0;
    let mut overflow = false;
    let mut i = pos;
    while i < p2
        invariant
            pos <= i <= p2 <= input@.len(),
            wv == input@.subrange(pos as int, p2 as int),
            all_digits(input@.subrange(pos as int, i as int)),
            !overflow ==> value == digits_val(input@.subrange(pos as int, i as int)),
            overflow ==> digits_val(input@.subrange(pos as int, i as int)) > u64::MAX,
        decreases p2 - i,
    {
        let c = input[i];
        if !is_ascii_digit_char(c) {
            proof {
                assert(wv[i - pos] == input@[i as int]);
            }
            return Some(
                (
                    p2,
                    Cst::Error { unparsable_input: w, error: CstError::IntContainsNonDigits },
                ),
            );
        }
        let d: u64 = (c as u32 as u64) - 0x30;
        let ghost prefix = input@.subrange(pos as int, i as int);
        let ghost extended = input@.subrange(pos as int, i + 1);
        proof {
            assert(extended.drop_last() =~= prefix);
            assert(extended.last() == input@[i as int]);
            assert(digits_val(extended) == digits_val(prefix) * 10 + digit_val(input@[i as int]));
        }
        if overflow {
            proof {
                lemma_digits_val_grows(digits_val(prefix), digit_val(input@[i as int]));
            }
        } else {
            let grown = value.checked_mul(10);
            let next = match grown {
                Some(g) => g.checked_add(d),
                None => None,
            };
            match next {
                Some(n) => {
                    value = n;
                },
                None => {
                    overflow = true;
                    proof {
                        assert(digits_val(extended) > u64::MAX);
                    }
                },
            }
        }
        i = i + 1;
    }
    proof {
        assert(input@.subrange(pos as int, p2 as int) =~= wv);
    }
    if overflow {
        Some((p2, Cst::Error { unparsable_input: w, error: CstError::IntContainsNonDigits }))
    } else if p2 - pos > 1 && input[pos] == '0' {
        // Canonical digits never start with a zero; keeping the source in an
        // error node keeps the tree formatting back to the input.
        Some((p2, Cst::Error { unparsable_input: w, error: CstError::IntHasLeadingZeros }))
    } else {
        proof {
            assert(wv[0] == input@[pos as int]);
            crate::strings::lemma_dec_digits_unique(wv);
        }
        Some((p2, Cst::Int(value)))
    }
}

/// Once a digit prefix exceeds the int range, appending digits keeps it
/// out of range.
proof fn lemma_digits_val_grows(p: nat, d: nat)
    requires
        p > u64::MAX,
    ensures
        p * 10 + d > u64::MAX,
{
    assert(p * 10 >= p) by (nonlinear_arith)
        requires p >= 0;
}

/// A whitespace character other than a newline.
pub open spec fn spec_is_single_line_whitespace(c: char) -> bool {
    spec_is_whitespace(c) && c != '\n'
}

/// Consumes the longest run of whitespace on the current line. Whitespace
/// other than plain spaces yields an error node.
#[verifier::loop_isolation(false)]
pub fn single_line_whitespace(input: &[char], pos: usize) -> (r: (usize, Cst))
    requires
        pos <= input@.len(),
    ensures
        ({
            let (p2, c) = r;
            let w = input@.subrange(pos as int, p2 as int);
            &&& pos <= p2 <= input@.len()
            &&& (forall|i: int|
                pos <= i < p2 ==> spec_is_single_line_whitespace(#[trigger] input@[i]))
            &&& (p2 == input@.len() || !spec_is_single_line_whitespace(input@[p2 as int]))
            &&& match c {
                Cst::Whitespace(s) => s@ == w && (forall|i: int|
                    pos <= i < p2 ==> #[trigger] input@[i] == ' '),
                Cst::Error { unparsable_input, error } => unparsable_input@ == w && error
                    == CstError::WeirdWhitespace && (exists|i: int|
                    pos <= i < p2 && #[trigger] input@[i] != ' '),
                _ => false,
            }
            &&& cst_text(c) == w
        }),
{
    let mut p = pos;
    let mut has_error = false;
    while p < input.len() && is_whitespace_char(input[p]) && input[p] != '\n'
        invariant
            pos <= p <= input@.len(),
            forall|i: int| pos <= i < p ==> spec_is_single_line_whitespace(#[trigger] input@[i]),
            has_error == (exists|i: int| pos <= i < p && #[trigger] input@[i] != ' '),
        decreases input@.len() - p,
    {
        if input[p] != ' ' {
            has_error = true;
        }
        p = p + 1;
    }
    let w = chars_to_string(slice_range(input, pos, p));
    if has_error {
        (p, Cst::Error { unparsable_input: w, error: CstError::WeirdWhitespace })
    } else {
        (p, Cst::Whitespace(w))
    }
}

/// Consumes a `#` comment up to, but not including, the line's end.
#[verifier::loop_isolation(false)]
pub fn comment(input: &[char], pos: usize) -> (r: Option<(usize, Cst)>)
    requires
        pos <= input@.len(),
    ensures
        match r {
            Some((p2, c)) => {
                &&& pos < p2 <= input@.len()
                &&& input@[pos as int] == '#'
                &&& (forall|i: int| pos < i < p2 ==> #[trigger] input@[i] != '\n')
                &&& (p2 == input@.len() || input@[p2 as int] == '\n')
                &&& match c {
                    Cst::Comment(s) => s@ == input@.subrange(pos + 1, p2 as int),
                    _ => false,
                }
                &&& cst_text(c) == input@.subrange(pos as int, p2 as int)
            },
            None => pos == input@.len() || input@[pos as int] != '#',
        },
{
    if pos == input.len() || input[pos] != '#' {
        return None;
    }
    let mut p = pos + 1;
    while p < input.len() && input[p] != '\n'
        invariant
            pos < p <= input@.len(),
            forall|i: int| pos < i < p ==> #[trigger] input@[i] != '\n',
        decreases input@.len() - p,
    {
        p = p + 1;
    }
    let s = chars_to_string(slice_range(input, pos + 1, p));
    proof {
        assert(input@.subrange(pos as int, p as int) =~= seq!['#'] + input@.subrange(
            pos + 1,
            p as int,
        ));
    }
    Some((p, Cst::Comment(s)))
}

/// Consumes exactly two spaces of indentation per level. Whitespace other
/// than plain spaces yields an error node; anything else fails.
#[verifier::loop_isolation(false)]
pub fn leading_indentation(input: &[char], pos: usize, indentation: usize) -> (r: Option<
    (usize, Cst),
>)
    requires
        pos <= input@.len(),
    ensures
        match r {
            Some((p2, c)) => {
                let w = input@.subrange(pos as int, p2 as int);
                &&& p2 == pos + 2 * indentation
                &&& p2 <= input@.len()
                &&& (forall|i: int|
                    pos <= i < p2 ==> spec_is_single_line_whitespace(#[trigger] input@[i]))
                &&& match c {
                    Cst::Whitespace(s) => s@ == w && (forall|i: int|
                        pos <= i < p2 ==> #[trigger] input@[i] == ' '),
                    Cst::Error { unparsable_input, error } => unparsable_input@ == w && error
                        == CstError::WeirdWhitespaceInIndentation && (exists|i: int|
                        pos <= i < p2 && #[trigger] input@[i] != ' '),
                    _ => false,
                }
                &&& cst_text(c) == w
            },
            None => !(pos + 2 * indentation <= input@.len() && (forall|i: int|
                pos <= i < pos + 2 * indentation ==> spec_is_single_line_whitespace(
                    #[trigger] input@[i],
                ))),
        },
{
    let remaining = input.len() - pos;
    if indentation > remaining / 2 || 2 * indentation > remaining {
        proof {
            assert(!(pos + 2 * indentation <= input@.len()));
        }
        return None;
    }
    let n = 2 * indentation;
    let mut i: usize = 0;
    let mut has_error = false;
    while i < n
        invariant
            i <= n,
            pos + n <= input@.len(),
            forall|j: int|
                pos <= j < pos + i ==> spec_is_single_line_whitespace(#[trigger] input@[j]),
            has_error == (exists|j: int| pos <= j < pos + i && #[trigger] input@[j] != ' '),
        decreases n - i,
    {
        let c = input[pos + i];
        if c == ' ' {
        } else if is_whitespace_char(c) && c != '\n' {
            has_error = true;
        } else {
            return None;
        }
        i = i + 1;
    }
    let w = chars_to_string(slice_range(input, pos, pos + n));
    if has_error {
        Some(
            (
                pos + n,
                Cst::Error { unparsable_input: w, error: CstError::WeirdWhitespaceInIndentation },
            ),
        )
    } else {
        Some((pos + n, Cst::Whitespace(w)))
    }
}


/// Whether any expression production can start at this position: a text
/// quote, an opening parenthesis, or a word whose first character is a
/// digit, lowercase or uppercase. Exactly the positions where `expression`
/// succeeds.
pub open spec fn expression_starts(input: Seq<char>, pos: int) -> bool {
    pos < input.len() && (input[pos] == '"' || input[pos] == '(' || (spec_is_word_char(input[pos])
        && (spec_is_ascii_digit(input[pos]) || crate::strings::lowercase_property(input[pos])
        || crate::strings::uppercase_property(input[pos]))))
}

/// Where the whitespace of the current line ends.
pub open spec fn single_line_whitespace_end(input: Seq<char>, pos: int) -> int
    recommends
        0 <= pos <= input.len(),
    decreases input.len() - pos,
{
    if pos < input.len() && spec_is_single_line_whitespace(input[pos]) {
        single_line_whitespace_end(input, pos + 1)
    } else {
        pos
    }
}

/// A scan that took every single-line whitespace character and stopped at
/// the first other one ends where the spec says.
proof fn lemma_single_line_whitespace_end(input: Seq<char>, pos: int, p: int)
    requires
        0 <= pos <= p <= input.len(),
        forall|i: int| pos <= i < p ==> spec_is_single_line_whitespace(#[trigger] input[i]),
        p == input.len() || !spec_is_single_line_whitespace(input[p]),
    ensures
        p == single_line_whitespace_end(input, pos),
    decreases p - pos,
{
    if pos < p {
        lemma_single_line_whitespace_end(input, pos + 1, p);
    }
}

/// One indentation level deeper; the deepest level stands for itself so
/// that the depth never wraps around. No real input reaches it: a level
/// beyond half the input's length never matches any indentation.
fn next_indentation(indentation: usize) -> (r: usize)
    ensures
        r == next_indentation_level(indentation),
{
    if indentation < usize::MAX {
        indentation + 1
    } else {
        indentation
    }
}

pub open spec fn next_indentation_level(indentation: usize) -> usize {
    if indentation < usize::MAX {
        (indentation + 1) as usize
    } else {
        indentation
    }
}

/// Where the run of newline characters starting here ends.
pub open spec fn newline_run_end(input: Seq<char>, pos: int) -> int
    recommends
        0 <= pos <= input.len(),
    decreases input.len() - pos,
{
    if pos < input.len() && input[pos] == '\n' {
        newline_run_end(input, pos + 1)
    } else {
        pos
    }
}

proof fn lemma_newline_run_end(input: Seq<char>, pos: int, p: int)
    requires
        0 <= pos <= p <= input.len(),
        forall|i: int| pos <= i < p ==> #[trigger] input[i] == '\n',
        p == input.len() || input[p] != '\n',
    ensures
        p == newline_run_end(input, pos),
    decreases p - pos,
{
    if pos < p {
        lemma_newline_run_end(input, pos + 1, p);
    }
}

/// Whether a line starting here carries at least the given indentation.
pub open spec fn indent_ok(input: Seq<char>, pos: int, indentation: usize) -> bool {
    pos + 2 * indentation <= input.len() && (forall|i: int|
        pos <= i < pos + 2 * indentation ==> spec_is_single_line_whitespace(#[trigger] input[i]))
}

/// Consumes all leading whitespace, including newlines, and, if asked,
/// comments that are still within the given indentation. Won't consume
/// newlines before a lower indentation. The returned nodes format back to
/// exactly the consumed characters.
#[verifier::loop_isolation(false)]
pub fn whitespaces_and_newlines(input: &[char], pos: usize, indentation: usize, also_comments: bool) -> (r: (usize, Vec<Cst>))
    requires
        pos <= input@.len(),
    ensures
        pos <= r.0 <= input@.len(),
        csts_text(r.1@) == input@.subrange(pos as int, r.0 as int),
        forall|i: int|
            0 <= i < r.1@.len() ==> ((#[trigger] r.1@[i]) is Whitespace || r.1@[i] is Newline
                || r.1@[i] is Comment || r.1@[i] is Error),
        // Progress: leading whitespace, a leading comment, and newlines
        // before a sufficiently indented line are always consumed.
        pos < input@.len() && spec_is_single_line_whitespace(input@[pos as int]) ==> r.0 > pos,
        also_comments && pos < input@.len() && input@[pos as int] == '#' ==> r.0 > pos,
        pos < input@.len() && input@[pos as int] == '\n' && indent_ok(
            input@,
            newline_run_end(input@, pos as int),
            indentation,
        ) ==> r.0 > pos,
        // The whitespace of the current line is always consumed, and when
        // neither a newline nor a comment follows it, nothing more is.
        r.0 >= single_line_whitespace_end(input@, pos as int),
        ({
            let w = single_line_whitespace_end(input@, pos as int);
            (w == input@.len() || (input@[w] != '\n' && !(also_comments && input@[w] == '#')))
                ==> r.0 == w
        }),
{
    let mut parts: Vec<Cst> = Vec::new();
    let (first_end, first_ws) = single_line_whitespace(input, pos);
    proof {
        lemma_single_line_whitespace_end(input@, pos as int, first_end as int);
    }
    let mut cur = first_end;
    let keep_first = match &first_ws {
        Cst::Whitespace(s) => !s.as_str().is_empty(),
        _ => true,
    };
    if keep_first {
        proof {
            lemma_csts_text_push(parts@, first_ws);
        }
        let ghost parts0 = parts@;
        parts.push(first_ws);
        proof {
            assert(parts@ =~= parts0.push(parts@.last()));
        }
    }
    proof {
        assert(csts_text(parts@) =~= input@.subrange(pos as int, cur as int));
    }
    let mut done = false;
    while !done
        invariant
            pos <= cur <= input@.len(),
            first_end <= cur,
            csts_text(parts@) =~= input@.subrange(pos as int, cur as int),
            forall|i: int|
                0 <= i < parts@.len() ==> ((#[trigger] parts@[i]) is Whitespace || parts@[i]
                    is Newline || parts@[i] is Comment || parts@[i] is Error),
            done && also_comments && pos < input@.len() && input@[pos as int] == '#' ==> cur > pos,
            done && pos < input@.len() && input@[pos as int] == '\n' && indent_ok(
                input@,
                newline_run_end(input@, pos as int),
                indentation,
            ) ==> cur > pos,
            cur > first_end ==> first_end < input@.len() && (input@[first_end as int] == '\n' || (
            also_comments && input@[first_end as int] == '#')),
        decreases input@.len() - cur, (if done { 0int } else { 1int }),
    {
        if also_comments {
            match comment(input, cur) {
                Some((i, c)) => {
                    proof {
                        lemma_csts_text_push(parts@, c);
                    }
                    parts.push(c);
                    proof {
                        assert(input@.subrange(pos as int, i as int) =~= input@.subrange(
                            pos as int,
                            cur as int,
                        ) + input@.subrange(cur as int, i as int));
                    }
                    cur = i;
                },
                None => {},
            }
        }
        // Only consume newlines if there is indentation coming after.
        let mut new_pos = cur;
        while new_pos < input.len() && input[new_pos] == '\n'
            invariant
                cur <= new_pos <= input@.len(),
                forall|j: int| cur <= j < new_pos ==> #[trigger] input@[j] == '\n',
            decreases input@.len() - new_pos,
        {
            new_pos = new_pos + 1;
        }
        proof {
            if cur == pos {
                lemma_newline_run_end(input@, pos as int, new_pos as int);
            }
        }
        if new_pos == cur {
            done = true;
        } else {
            match leading_indentation(input, new_pos, indentation) {
                Some((after_indent, indent_ws)) => {
                    let mut k: usize = 0;
                    while k < new_pos - cur
                        invariant
                            0 <= k <= new_pos - cur,
                            cur <= new_pos <= input@.len(),
                            forall|j: int| cur <= j < new_pos ==> #[trigger] input@[j] == '\n',
                            csts_text(parts@) =~= input@.subrange(pos as int, cur + k),
                            forall|i: int|
                                0 <= i < parts@.len() ==> ((#[trigger] parts@[i]) is Whitespace
                                    || parts@[i] is Newline || parts@[i] is Comment || parts@[i]
                                    is Error),
                        decreases new_pos - cur - k,
                    {
                        proof {
                            lemma_csts_text_push(parts@, Cst::Newline);
                            assert(input@.subrange(pos as int, cur + k + 1) =~= input@.subrange(
                                pos as int,
                                cur + k,
                            ).push(input@[cur + k]));
                        }
                        parts.push(Cst::Newline);
                        k = k + 1;
                    }
                    let txt = indent_ws.to_source_string();
                    if !txt.as_str().is_empty() {
                        let ws_node = Cst::Whitespace(txt);
                        proof {
                            lemma_csts_text_push(parts@, ws_node);
                            assert(input@.subrange(pos as int, after_indent as int)
                                =~= input@.subrange(pos as int, new_pos as int) + input@.subrange(
                                new_pos as int,
                                after_indent as int,
                            ));
                        }
                        parts.push(ws_node);
                    } else {
                        proof {
                            assert(input@.subrange(new_pos as int, after_indent as int) =~= txt@);
                            assert(input@.subrange(pos as int, after_indent as int)
                                =~= input@.subrange(pos as int, new_pos as int));
                        }
                    }
                    cur = after_indent;
                },
                None => {
                    done = true;
                },
            }
        }
    }
    (cur, parts)
}

/// Consumes a text literal: a double quote, its parts, and what closed the
/// text: the closing quote or an error. Multi-line texts must be indented
/// more than the surrounding expression.
pub fn text(input: &[char], pos: usize, indentation: usize) -> (r: Option<(usize, Cst)>)
    requires
        pos <= input@.len(),
    ensures
        match r {
            Some((p2, c)) => {
                &&& pos < p2 <= input@.len()
                &&& input@[pos as int] == '"'
                &&& (c matches Cst::Text { opening_quote, parts, closing_quote } && *opening_quote
                    == Cst::DoubleQuote && match *closing_quote {
                    Cst::DoubleQuote => p2 > pos + 1 && input@[p2 - 1] == '"',
                    Cst::Error { unparsable_input, error } => unparsable_input@.len() == 0 && (
                    error == CstError::TextDoesNotEndUntilInputEnds ==> p2 == input@.len()) && (
                    error == CstError::TextNotSufficientlyIndented ==> p2 < input@.len()
                        && input@[p2 as int] == '\n') && (error
                        == CstError::TextDoesNotEndUntilInputEnds || error
                        == CstError::TextNotSufficientlyIndented),
                    _ => false,
                })
                &&& cst_text(c) == input@.subrange(pos as int, p2 as int)
            },
            None => pos == input@.len() || input@[pos as int] != '"',
        },
{
    let (quote_end, opening_quote) = match double_quote(input, pos) {
        Some(x) => x,
        None => { return None },
    };
    let mut cur = quote_end;
    let mut line: Vec<char> = Vec::new();
    let mut parts: Vec<Cst> = Vec::new();
    let mut closing_quote = Cst::DoubleQuote;
    loop
        invariant_except_break
            pos + 1 <= cur <= input@.len(),
            csts_text(parts@) + line@ =~= input@.subrange(pos + 1, cur as int),
        ensures
            pos + 1 <= cur <= input@.len(),
            csts_text(parts@) + cst_text(closing_quote) =~= input@.subrange(pos + 1, cur as int),
            closing_quote == Cst::DoubleQuote ==> cur > pos + 1 && input@[cur - 1] == '"',
            closing_quote matches Cst::Error { unparsable_input, error } ==> (
            unparsable_input@.len() == 0 && (error == CstError::TextDoesNotEndUntilInputEnds
                ==> cur == input@.len()) && (error == CstError::TextNotSufficientlyIndented
                ==> cur < input@.len() && input@[cur as int] == '\n') && (error
                == CstError::TextDoesNotEndUntilInputEnds || error
                == CstError::TextNotSufficientlyIndented)),
            closing_quote is DoubleQuote || closing_quote is Error,
        decreases input@.len() - cur,
    {
        if cur == input.len() {
            let part = Cst::TextPart(chars_to_string(line.as_slice()));
            proof {
                lemma_csts_text_push(parts@, part);
            }
            parts.push(part);
            closing_quote = Cst::Error {
                unparsable_input: String::new(),
                error: CstError::TextDoesNotEndUntilInputEnds,
            };
            proof {
                assert(csts_text(parts@) + cst_text(closing_quote) =~= input@.subrange(
                    pos + 1,
                    cur as int,
                ));
            }
            break;
        }
        let c = input[cur];
        if c == '"' {
            let part = Cst::TextPart(chars_to_string(line.as_slice()));
            proof {
                lemma_csts_text_push(parts@, part);
            }
            parts.push(part);
            closing_quote = Cst::DoubleQuote;
            cur = cur + 1;
            proof {
                assert(input@.subrange(pos + 1, cur as int) =~= input@.subrange(pos + 1, cur - 1)
                    .push(input@[cur - 1]));
                assert(csts_text(parts@) + cst_text(closing_quote) =~= input@.subrange(
                    pos + 1,
                    cur as int,
                ));
            }
            break;
        } else if c == '\n' {
            let part = Cst::TextPart(chars_to_string(line.as_slice()));
            proof {
                lemma_csts_text_push(parts@, part);
            }
            parts.push(part);
            line = Vec::new();
            let ghost before_ws = cur;
            let (after_ws, mut ws) = whitespaces_and_newlines(
                input,
                cur,
                next_indentation(indentation),
                false,
            );
            proof {
                crate::cst::lemma_csts_text_concat(parts@, ws@);
                assert(input@.subrange(pos + 1, after_ws as int) =~= input@.subrange(
                    pos + 1,
                    cur as int,
                ) + input@.subrange(cur as int, after_ws as int));
            }
            parts.append(&mut ws);
            cur = after_ws;
            if cur < input.len() && input[cur] == '\n' {
                closing_quote = Cst::Error {
                    unparsable_input: String::new(),
                    error: CstError::TextNotSufficientlyIndented,
                };
                proof {
                    assert(csts_text(parts@) + cst_text(closing_quote) =~= input@.subrange(
                        pos + 1,
                        cur as int,
                    ));
                }
                break;
            }
            proof {
                // If nothing was consumed the newline would still be there,
                // and the loop would have ended above.
                assert(cur > before_ws);
            }
        } else {
            line.push(c);
            cur = cur + 1;
            proof {
                assert(input@.subrange(pos + 1, cur as int) =~= input@.subrange(pos + 1, cur - 1)
                    .push(input@[cur - 1]));
            }
        }
    }
    proof {
        assert(input@.subrange(pos as int, pos + 1) =~= seq!['"']);
        assert(input@.subrange(pos as int, cur as int) =~= input@.subrange(pos as int, pos + 1)
            + input@.subrange(pos + 1, cur as int));
    }
    Some(
        (
            cur,
            Cst::Text {
                opening_quote: Box::new(opening_quote),
                parts,
                closing_quote: Box::new(closing_quote),
            },
        ),
    )
}


/// Consumes one expression: an int, a text, a symbol, a parenthesized
/// expression, a call where allowed, or an identifier.
pub fn expression(input: &[char], pos: usize, indentation: usize, allow_call: bool) -> (r: Option<
    (usize, Cst),
>)
    requires
        pos <= input@.len(),
    ensures
        match r {
            Some((p2, c)) => pos < p2 <= input@.len() && cst_text(c) == input@.subrange(
                pos as int,
                p2 as int,
            ) && (spec_is_word_char(input@[pos as int]) && spec_is_ascii_digit(input@[pos as int])
                ==> (c is Int || (c matches Cst::Error { unparsable_input, error } && (error
                == CstError::IntContainsNonDigits || error == CstError::IntHasLeadingZeros))))
                && (input@[pos as int] == '"' ==> c is Text) && (input@[pos as int] == '(' ==> c
                is Parenthesized) && (spec_is_word_char(input@[pos as int])
                && !spec_is_ascii_digit(input@[pos as int]) && crate::strings::uppercase_property(
                input@[pos as int],
            ) && !lowercase_property(input@[pos as int]) && input@[pos as int] != '"' ==> (c
                is Symbol || c is Call || (c matches Cst::Error { unparsable_input, error }
                && error == CstError::SymbolContainsNonAlphanumericAscii))) && (!allow_call
                && spec_is_word_char(input@[pos as int]) && input@[pos as int] != '"' ==> p2
                == word_end(input@, pos as int)),
            None => true,
        },
        r is Some <==> expression_starts(input@, pos as int),
    decreases input@.len() - pos, (if allow_call { 3int } else { 1int }),
{
    match integer(input, pos) {
        Some(r) => {
            proof {
                lemma_word_end(input@, pos as int, r.0 as int);
            }
            return Some(r);
        },
        None => {},
    }
    match text(input, pos, indentation) {
        Some(r) => { return Some(r) },
        None => {},
    }
    match symbol(input, pos) {
        Some(r) => {
            proof {
                lemma_word_end(input@, pos as int, r.0 as int);
            }
            return Some(r);
        },
        None => {},
    }
    match parenthesized(input, pos, indentation) {
        Some(r) => { return Some(r) },
        None => {},
    }
    if allow_call {
        match call(input, pos, indentation) {
            Some(r) => { return Some(r) },
            None => {},
        }
    }
    let r = identifier(input, pos);
    proof {
        match r {
            Some((p2, _)) => {
                lemma_word_end(input@, pos as int, p2 as int);
            },
            None => {},
        }
    }
    r
}

/// Consumes a call: an expression for the callee followed by at least one
/// argument expression; arguments may continue on deeper-indented lines.
#[verifier::loop_isolation(false)]
pub fn call(input: &[char], pos: usize, indentation: usize) -> (r: Option<(usize, Cst)>)
    requires
        pos <= input@.len(),
    ensures
        match r {
            Some((p2, c)) => pos < p2 <= input@.len() && (match c {
                Cst::Call { name, arguments } => arguments@.len() >= 1,
                _ => false,
            }) && cst_text(c) == input@.subrange(pos as int, p2 as int),
            None => true,
        },
        r is Some ==> expression_starts(input@, pos as int),
        !expression_starts(input@, pos as int) ==> r is None,
        // A word callee with another expression after the same line's
        // whitespace always makes a call.
        ({
            let e = word_end(input@, pos as int);
            let w = single_line_whitespace_end(input@, e);
            (expression_starts(input@, pos as int) && spec_is_word_char(input@[pos as int])
                && input@[pos as int] != '"' && w < input@.len() && input@[w] != '#'
                && expression_starts(input@, w)) ==> r is Some
        }),
    decreases input@.len() - pos, 2int,
{
    let (name_end, name) = match expression(input, pos, indentation, false) {
        Some(x) => x,
        None => { return None },
    };
    let mut arguments: Vec<Cst> = Vec::new();
    let mut cur = name_end;
    let ghost wanted = ({
        let e = word_end(input@, pos as int);
        let w = single_line_whitespace_end(input@, e);
        expression_starts(input@, pos as int) && spec_is_word_char(input@[pos as int])
            && input@[pos as int] != '"' && w < input@.len() && input@[w] != '#'
            && expression_starts(input@, w)
    });
    let mut done = false;
    // The whitespace between the callee and each argument stays in the tree:
    // the node formats back to everything it consumed.
    while !done
        invariant
            pos < cur <= input@.len(),
            cst_text(name) + csts_text(arguments@) =~= input@.subrange(pos as int, cur as int),
            cur == name_end || arguments@.len() >= 1,
            spec_is_word_char(input@[pos as int]) && input@[pos as int] != '"' ==> name_end
                == word_end(input@, pos as int),
            done && wanted ==> arguments@.len() >= 1,
        decreases input@.len() - cur, (if done { 0int } else { 1int }),
    {
        let (ws_end, mut ws_nodes) = whitespaces_and_newlines(
            input,
            cur,
            next_indentation(indentation),
            true,
        );
        match expression(input, ws_end, next_indentation(indentation), false) {
            Some((arg_end, argument)) => {
                proof {
                    crate::cst::lemma_csts_text_concat(arguments@, ws_nodes@);
                }
                arguments.append(&mut ws_nodes);
                proof {
                    lemma_csts_text_push(arguments@, argument);
                    assert(input@.subrange(pos as int, arg_end as int) =~= input@.subrange(
                        pos as int,
                        cur as int,
                    ) + input@.subrange(cur as int, ws_end as int) + input@.subrange(
                        ws_end as int,
                        arg_end as int,
                    ));
                }
                arguments.push(argument);
                cur = arg_end;
            },
            None => {
                proof {
                    if wanted && cur == name_end {
                        let e = word_end(input@, pos as int);
                        let w = single_line_whitespace_end(input@, e);
                        assert(name_end == e);
                        assert(ws_end == w);
                        assert(expression_starts(input@, ws_end as int));
                        assert(false);
                    }
                }
                done = true;
            },
        }
    }
    if arguments.len() == 0 {
        None
    } else {
        Some((cur, Cst::Call { name: Box::new(name), arguments }))
    }
}

/// Consumes a parenthesized expression. A missing inner expression or
/// closing parenthesis becomes an error node in its place.
pub fn parenthesized(input: &[char], pos: usize, indentation: usize) -> (r: Option<(usize, Cst)>)
    requires
        pos <= input@.len(),
    ensures
        match r {
            Some((p2, c)) => pos < p2 <= input@.len() && input@[pos as int] == '(' && c
                is Parenthesized && cst_text(c) == input@.subrange(pos as int, p2 as int),
            None => pos == input@.len() || input@[pos as int] != '(',
        },
    decreases input@.len() - pos, 0int,
{
    let (open_end, open_cst) = match opening_parenthesis(input, pos) {
        Some(x) => x,
        None => { return None },
    };
    let (inner_end, inner) = match expression(input, open_end, indentation, true) {
        Some(x) => x,
        None => (
            open_end,
            Cst::Error { unparsable_input: String::new(), error: CstError::ParenthesisNotClosed },
        ),
    };
    let (close_end, close_cst) = match closing_parenthesis(input, inner_end) {
        Some(x) => x,
        None => (
            inner_end,
            Cst::Error { unparsable_input: String::new(), error: CstError::ParenthesisNotClosed },
        ),
    };
    proof {
        assert(cst_text(open_cst) =~= input@.subrange(pos as int, open_end as int));
        assert(cst_text(inner) =~= input@.subrange(open_end as int, inner_end as int));
        assert(cst_text(close_cst) =~= input@.subrange(inner_end as int, close_end as int));
        assert(input@.subrange(pos as int, close_end as int) =~= input@.subrange(
            pos as int,
            open_end as int,
        ) + input@.subrange(open_end as int, inner_end as int) + input@.subrange(
            inner_end as int,
            close_end as int,
        ));
    }
    Some(
        (
            close_end,
            Cst::Parenthesized {
                opening_parenthesis: Box::new(open_cst),
                inner: Box::new(inner),
                closing_parenthesis: Box::new(close_cst),
            },
        ),
    )
}

/// Consumes the expressions of a body, one per line at the given
/// indentation. Extra whitespace before an expression becomes an error
/// node.
#[verifier::loop_isolation(false)]
pub fn body(input: &[char], pos: usize, indentation: usize) -> (r: (usize, Vec<Cst>))
    requires
        pos <= input@.len(),
    ensures
        pos <= r.0 <= input@.len(),
        r.1@.len() == 0 <==> !expression_starts(
            input@,
            single_line_whitespace_end(input@, pos as int),
        ),
        r.1@.len() > 0 ==> r.0 > pos,
        // After the body, no further expression follows on this line.
        !expression_starts(input@, single_line_whitespace_end(input@, r.0 as int)),
        // The returned nodes format back to exactly the consumed characters.
        csts_text(r.1@) == input@.subrange(pos as int, r.0 as int),
    decreases input@.len() - pos, 4int,
{
    let mut expressions: Vec<Cst> = Vec::new();
    let mut cur = pos;
    let mut done = false;
    while !done
        invariant
            pos <= cur <= input@.len(),
            expressions@.len() == 0 ==> cur == pos,
            expressions@.len() > 0 ==> cur > pos,
            expressions@.len() > 0 ==> expression_starts(
                input@,
                single_line_whitespace_end(input@, pos as int),
            ),
            done ==> !expression_starts(
                input@,
                single_line_whitespace_end(input@, cur as int),
            ),
            csts_text(expressions@) =~= input@.subrange(pos as int, cur as int),
        decreases input@.len() - cur, (if done { 0int } else { 1int }),
    {
        let ghost round_start = cur;
        let (ws_end, ws) = single_line_whitespace(input, cur);
        proof {
            lemma_single_line_whitespace_end(input@, cur as int, ws_end as int);
        }
        match expression(input, ws_end, indentation, true) {
            Some((expr_end, expr)) => {
                cur = expr_end;
                // Whitespace before an expression at the body's own level is
                // extra; it stays in the tree as an error node so that the
                // body keeps formatting back to its source.
                match ws {
                    Cst::Whitespace(w) => {
                        if !w.as_str().is_empty() {
                            let ws_err = Cst::Error {
                                unparsable_input: w,
                                error: CstError::TooMuchWhitespace,
                            };
                            proof {
                                lemma_csts_text_push(expressions@, ws_err);
                            }
                            expressions.push(ws_err);
                        }
                    },
                    other => {
                        proof {
                            lemma_csts_text_push(expressions@, other);
                        }
                        expressions.push(other);
                    },
                }
                proof {
                    lemma_csts_text_push(expressions@, expr);
                    assert(input@.subrange(pos as int, expr_end as int) =~= input@.subrange(
                        pos as int,
                        round_start as int,
                    ) + input@.subrange(round_start as int, ws_end as int) + input@.subrange(
                        ws_end as int,
                        expr_end as int,
                    ));
                }
                expressions.push(expr);
            },
            None => {
                done = true;
            },
        }
    }
    (cur, expressions)
}

/// Consumes a lambda: an opening curly brace, optional parameters with an
/// arrow, a body, and the closing curly brace or an error in its place. The
/// node keeps every consumed character: parameters carry the whitespace
/// before them, the body carries the whitespace around it.
#[verifier::loop_isolation(false)]
#[verifier::spinoff_prover]
#[verifier::rlimit(100)]
pub fn lambda(input: &[char], pos: usize, indentation: usize) -> (r: Option<(usize, Cst)>)
    requires
        pos <= input@.len(),
    ensures
        match r {
            Some((p2, c)) => pos < p2 <= input@.len() && input@[pos as int] == '{' && c is Lambda
                && cst_text(c) == input@.subrange(pos as int, p2 as int),
            None => pos == input@.len() || input@[pos as int] != '{',
        },
    decreases input@.len() - pos, 5int,
{
    let (brace_end, open_cst) = match opening_curly_brace(input, pos) {
        Some(x) => x,
        None => { return None },
    };
    let child_indentation = next_indentation(indentation);

    let mut cur = brace_end;
    let mut parameters: Vec<Cst> = Vec::new();
    let mut arrow_cst: Option<Cst> = None;
    loop
        invariant
            pos < brace_end <= cur <= input@.len(),
            csts_text(parameters@) =~= input@.subrange(brace_end as int, cur as int),
            arrow_cst is None,
        decreases input@.len() - cur,
    {
        let (ws_end, mut ws_nodes) = whitespaces_and_newlines(input, cur, child_indentation, true);
        match expression(input, ws_end, child_indentation, false) {
            Some((param_end, parameter)) => {
                proof {
                    crate::cst::lemma_csts_text_concat(parameters@, ws_nodes@);
                }
                parameters.append(&mut ws_nodes);
                proof {
                    lemma_csts_text_push(parameters@, parameter);
                    assert(input@.subrange(brace_end as int, param_end as int) =~= input@.subrange(
                        brace_end as int,
                        cur as int,
                    ) + input@.subrange(cur as int, ws_end as int) + input@.subrange(
                        ws_end as int,
                        param_end as int,
                    ));
                }
                parameters.push(parameter);
                cur = param_end;
            },
            None => {
                // The arrow may follow the whitespace after the parameters.
                match arrow(input, ws_end) {
                    Some((arrow_end, a)) => {
                        proof {
                            crate::cst::lemma_csts_text_concat(parameters@, ws_nodes@);
                            assert(input@.subrange(brace_end as int, arrow_end as int)
                                =~= input@.subrange(brace_end as int, cur as int) + input@.subrange(
                                cur as int,
                                ws_end as int,
                            ) + input@.subrange(ws_end as int, arrow_end as int));
                        }
                        parameters.append(&mut ws_nodes);
                        arrow_cst = Some(a);
                        cur = arrow_end;
                    },
                    None => {},
                }
                break;
            },
        }
    }
    let parameters_and_arrow: Option<(Vec<Cst>, Box<Cst>)> = match arrow_cst {
        Some(a) => {
            proof {
                assert(csts_text(parameters@) + cst_text(a) =~= input@.subrange(
                    brace_end as int,
                    cur as int,
                ));
            }
            Some((parameters, Box::new(a)))
        },
        None => {
            // Without an arrow there are no parameters: what was consumed is
            // handed back and reparsed as the body.
            cur = brace_end;
            None
        },
    };
    let ghost params_end = cur;

    let (ws1_end, mut ws1) = whitespaces_and_newlines(input, cur, child_indentation, true);
    let (body_end, mut body_csts) = body(input, ws1_end, child_indentation);
    let (ws2_end, mut ws2) = whitespaces_and_newlines(input, body_end, indentation, true);
    let mut end = cur;
    let mut kept_body: Vec<Cst> = Vec::new();
    let mut close_cst = Cst::Error {
        unparsable_input: String::new(),
        error: CstError::CurlyBraceNotClosed,
    };
    match closing_curly_brace(input, ws2_end) {
        Some((close_end, c)) => {
            // Everything up to the brace stays in the body.
            proof {
                crate::cst::lemma_csts_text_concat(ws1@, body_csts@);
                crate::cst::lemma_csts_text_concat(ws1@ + body_csts@, ws2@);
            }
            kept_body.append(&mut ws1);
            kept_body.append(&mut body_csts);
            kept_body.append(&mut ws2);
            proof {
                assert(input@.subrange(params_end as int, ws2_end as int) =~= input@.subrange(
                    params_end as int,
                    ws1_end as int,
                ) + input@.subrange(ws1_end as int, body_end as int) + input@.subrange(
                    body_end as int,
                    ws2_end as int,
                ));
                assert(csts_text(kept_body@) =~= input@.subrange(
                    params_end as int,
                    ws2_end as int,
                ));
                assert(csts_text(kept_body@) + cst_text(c) =~= input@.subrange(
                    params_end as int,
                    close_end as int,
                ));
            }
            close_cst = c;
            end = close_end;
        },
        None => {
            if body_csts.len() > 0 {
                // Without a closing brace the body still counts, but the
                // whitespace after it is handed back.
                proof {
                    crate::cst::lemma_csts_text_concat(ws1@, body_csts@);
                    assert(input@.subrange(params_end as int, body_end as int) =~= input@.subrange(
                        params_end as int,
                        ws1_end as int,
                    ) + input@.subrange(ws1_end as int, body_end as int));
                }
                kept_body.append(&mut ws1);
                kept_body.append(&mut body_csts);
                proof {
                    assert(csts_text(kept_body@) =~= input@.subrange(
                        params_end as int,
                        body_end as int,
                    ));
                }
                end = body_end;
            }
        },
    }
    proof {
        let section = (match &parameters_and_arrow {
            Some((ps, a)) => csts_text(ps@) + cst_text(**a),
            None => Seq::<char>::empty(),
        });
        assert(section =~= input@.subrange(brace_end as int, params_end as int));
        assert(csts_text(kept_body@) + cst_text(close_cst) =~= input@.subrange(
            params_end as int,
            end as int,
        ));
        assert(input@.subrange(pos as int, end as int) =~= input@.subrange(pos as int, brace_end as int)
            + input@.subrange(brace_end as int, params_end as int) + input@.subrange(
            params_end as int,
            end as int,
        ));
        assert(cst_text(open_cst) + section + csts_text(kept_body@) + cst_text(close_cst)
            =~= input@.subrange(pos as int, end as int));
    }
    Some(
        (
            end,
            Cst::Lambda {
                opening_curly_brace: Box::new(open_cst),
                parameters_and_arrow,
                body: kept_body,
                closing_curly_brace: Box::new(close_cst),
            },
        ),
    )
}

/// Parses a whole module. Every character of the input ends up in the
/// returned nodes, so formatting them back yields the input exactly; the
/// parse never fails: characters no production accepts become error nodes.
#[verifier::loop_isolation(false)]
pub fn string_to_cst(input: &[char]) -> (r: Vec<Cst>)
    ensures
        csts_text(r@) == input@,
{
    let mut out: Vec<Cst> = Vec::new();
    let mut cur: usize = 0;
    while cur < input.len()
        invariant
            cur <= input@.len(),
            csts_text(out@) =~= input@.subrange(0, cur as int),
        decreases input@.len() - cur,
    {
        let round_start = cur;
        let (ws_end, mut ws) = whitespaces_and_newlines(input, cur, 0, true);
        proof {
            crate::cst::lemma_csts_text_concat(out@, ws@);
            assert(input@.subrange(0, ws_end as int) =~= input@.subrange(0, cur as int)
                + input@.subrange(cur as int, ws_end as int));
        }
        out.append(&mut ws);
        cur = ws_end;
        let (body_end, mut exprs) = body(input, cur, 0);
        proof {
            crate::cst::lemma_csts_text_concat(out@, exprs@);
            assert(input@.subrange(0, body_end as int) =~= input@.subrange(0, cur as int)
                + input@.subrange(cur as int, body_end as int));
        }
        out.append(&mut exprs);
        cur = body_end;
        if cur == round_start {
            // No production accepts this character; it becomes an error node
            // so that the parse goes on and the text is kept.
            let junk = Cst::Error {
                unparsable_input: chars_to_string(slice_range(input, cur, cur + 1)),
                error: CstError::UnparsableExpression,
            };
            proof {
                lemma_csts_text_push(out@, junk);
                assert(input@.subrange(cur as int, cur + 1) =~= seq![input@[cur as int]]);
                assert(input@.subrange(0, cur + 1) =~= input@.subrange(0, cur as int).push(
                    input@[cur as int],
                ));
            }
            out.push(junk);
            cur = cur + 1;
        }
    }
    proof {
        assert(input@.subrange(0, input@.len() as int) =~= input@);
    }
    out
}

} // verus!
