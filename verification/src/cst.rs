//! The concrete syntax tree the parser produces.
//!
//! Next to proper expressions the tree keeps every scrap of source text:
//! whitespace, newlines, comments, and error nodes carrying the unparsable
//! input. `cst_text` is the mathematical formatting of a node back to the
//! characters it stands for; `to_source_string` computes it.

use crate::strings::{chars_to_string, dec_digits, push_char, u64_to_digits};
use vstd::prelude::*;

verus! {

#[derive(Debug, PartialEq, Eq, Clone, Hash)]
pub enum CstError {
    IdentifierContainsNonAlphanumericAscii,
    SymbolContainsNonAlphanumericAscii,
    IntContainsNonDigits,
    TextDoesNotEndUntilInputEnds,
    TextNotSufficientlyIndented,
    WeirdWhitespace,
    WeirdWhitespaceInIndentation,
    ParenthesisNotClosed,
    TooMuchWhitespace,
    CurlyBraceNotClosed,
    IntHasLeadingZeros,
    UnparsableExpression,
}

#[derive(Debug, PartialEq, Eq)]
pub enum Cst {
    OpeningParenthesis,
    ClosingParenthesis,
    OpeningCurlyBrace,
    ClosingCurlyBrace,
    Arrow,
    DoubleQuote,
    Identifier(String),
    Symbol(String),
    Int(u64),
    Text { opening_quote: Box<Cst>, parts: Vec<Cst>, closing_quote: Box<Cst> },
    TextPart(String),
    Call { name: Box<Cst>, arguments: Vec<Cst> },
    Whitespace(String),
    Newline,
    Comment(String),
    Parenthesized {
        opening_parenthesis: Box<Cst>,
        inner: Box<Cst>,
        closing_parenthesis: Box<Cst>,
    },
    Lambda {
        opening_curly_brace: Box<Cst>,
        parameters_and_arrow: Option<(Vec<Cst>, Box<Cst>)>,
        body: Vec<Cst>,
        closing_curly_brace: Box<Cst>,
    },
    Error { unparsable_input: String, error: CstError },
}

/// The source characters a node stands for. An `Int` formats as the decimal
/// digits of its value; every other node keeps its text verbatim.
pub open spec fn cst_text(c: Cst) -> Seq<char>
    decreases c,
{
    match c {
        Cst::OpeningParenthesis => seq!['('],
        Cst::ClosingParenthesis => seq![')'],
        Cst::OpeningCurlyBrace => seq!['{'],
        Cst::ClosingCurlyBrace => seq!['}'],
        Cst::Arrow => seq!['-', '>'],
        Cst::DoubleQuote => seq!['"'],
        Cst::Identifier(s) => s@,
        Cst::Symbol(s) => s@,
        Cst::Int(v) => dec_digits(v as nat),
        Cst::Text { opening_quote, parts, closing_quote } => cst_text(*opening_quote) + csts_text(
            parts@,
        ) + cst_text(*closing_quote),
        Cst::TextPart(s) => s@,
        Cst::Call { name, arguments } => cst_text(*name) + csts_text(arguments@),
        Cst::Whitespace(s) => s@,
        Cst::Newline => seq!['\n'],
        Cst::Comment(s) => seq!['#'] + s@,
        Cst::Parenthesized { opening_parenthesis, inner, closing_parenthesis } => cst_text(
            *opening_parenthesis,
        ) + cst_text(*inner) + cst_text(*closing_parenthesis),
        Cst::Lambda { opening_curly_brace, parameters_and_arrow, body, closing_curly_brace } => {
            cst_text(*opening_curly_brace) + (match parameters_and_arrow {
                Some((parameters, arrow)) => csts_text(parameters@) + cst_text(*arrow),
                None => Seq::empty(),
            }) + csts_text(body@) + cst_text(*closing_curly_brace)
        },
        Cst::Error { unparsable_input, error } => unparsable_input@,
    }
}

/// The concatenated source text of a sequence of nodes.
pub open spec fn csts_text(s: Seq<Cst>) -> Seq<char>
    decreases s,
{
    if s.len() == 0 {
        Seq::empty()
    } else {
        cst_text(s[0]) + csts_text(s.drop_first())
    }
}

pub proof fn lemma_csts_text_push(s: Seq<Cst>, x: Cst)
    ensures
        csts_text(s.push(x)) == csts_text(s) + cst_text(x),
    decreases s.len(),
{
    if s.len() == 0 {
        assert(s.push(x).drop_first() =~= s);
        assert(s.push(x)[0] == x);
        assert(csts_text(s.push(x)) =~= csts_text(s) + cst_text(x));
    } else {
        lemma_csts_text_push(s.drop_first(), x);
        assert(s.push(x).drop_first() =~= s.drop_first().push(x));
        assert(s.push(x)[0] == s[0]);
        assert(csts_text(s.push(x)) =~= csts_text(s) + cst_text(x));
    }
}

pub proof fn lemma_csts_text_concat(a: Seq<Cst>, b: Seq<Cst>)
    ensures
        csts_text(a + b) == csts_text(a) + csts_text(b),
    decreases a.len(),
{
    if a.len() == 0 {
        assert(a + b =~= b);
        assert(csts_text(a) + csts_text(b) =~= csts_text(b));
    } else {
        lemma_csts_text_concat(a.drop_first(), b);
        assert((a + b).drop_first() =~= a.drop_first() + b);
        assert((a + b)[0] == a[0]);
        assert(csts_text(a + b) =~= csts_text(a) + csts_text(b));
    }
}

impl Cst {
    /// Formats the node back to the source characters it stands for.
    pub fn to_source_string(&self) -> (r: String)
        ensures
            r@ == cst_text(*self),
    {
        let mut out = String::new();
        push_cst_text(self, &mut out);
        out
    }

    /// The node's direct children, in source order; leaves and error nodes
    /// have none.
    pub fn children(&self) -> (r: Vec<&Cst>)
        ensures
            r@.len() == cst_children(*self).len(),
            forall|i: int| 0 <= i < r@.len() ==> *(#[trigger] r@[i]) == cst_children(*self)[i],
    {
        let mut out: Vec<&Cst> = Vec::new();
        match self {
            Cst::Text { opening_quote, parts, closing_quote } => {
                out.push(opening_quote);
                push_children_refs(parts, &mut out);
                out.push(closing_quote);
                proof {
                    let cs = cst_children(*self);
                    assert forall|i: int| 0 <= i < out@.len() implies *(#[trigger] out@[i])
                        == cs[i] by {
                        if 1 <= i < 1 + parts@.len() {
                            assert(*out@[1 + (i - 1)] == parts@[i - 1]);
                        }
                    }
                }
            },
            Cst::Call { name, arguments } => {
                out.push(name);
                push_children_refs(arguments, &mut out);
                proof {
                    let cs = cst_children(*self);
                    assert forall|i: int| 0 <= i < out@.len() implies *(#[trigger] out@[i])
                        == cs[i] by {
                        if 1 <= i {
                            assert(*out@[1 + (i - 1)] == arguments@[i - 1]);
                        }
                    }
                }
            },
            Cst::Parenthesized { opening_parenthesis, inner, closing_parenthesis } => {
                out.push(opening_parenthesis);
                out.push(inner);
                out.push(closing_parenthesis);
            },
            Cst::Lambda {
                opening_curly_brace,
                parameters_and_arrow,
                body,
                closing_curly_brace,
            } => {
                out.push(opening_curly_brace);
                match parameters_and_arrow {
                    Some((parameters, arrow)) => {
                        push_children_refs(parameters, &mut out);
                        out.push(arrow);
                    },
                    None => {},
                }
                push_children_refs(body, &mut out);
                out.push(closing_curly_brace);
                proof {
                    let cs = cst_children(*self);
                    let params = (match *parameters_and_arrow {
                        Some((ref parameters, ref arrow)) => parameters@ + seq![**arrow],
                        None => Seq::empty(),
                    });
                    assert(cs =~= seq![**opening_curly_brace] + params + body@ + seq![
                        **closing_curly_brace,
                    ]);
                    assert forall|i: int| 0 <= i < out@.len() implies *(#[trigger] out@[i])
                        == cs[i] by {
                        let p = params.len() as int;
                        if 1 <= i < 1 + p {
                            if i < p {
                                assert(*out@[1 + (i - 1)] == params[i - 1]);
                            }
                        } else if 1 + p <= i < 1 + p + body@.len() {
                            assert(*out@[(1 + p) + (i - 1 - p)] == body@[i - 1 - p]);
                        }
                    }
                }
            },
            _ => {},
        }
        out
    }
}

/// Pushes a reference to each node of the sequence, in order.
fn push_children_refs<'a>(v: &'a Vec<Cst>, out: &mut Vec<&'a Cst>)
    ensures
        final(out)@.len() == old(out)@.len() + v@.len(),
        forall|j: int| 0 <= j < old(out)@.len() ==> #[trigger] final(out)@[j] == old(out)@[j],
        forall|j: int|
            0 <= j < v@.len() ==> *(#[trigger] final(out)@[old(out)@.len() + j]) == v@[j],
{
    let mut i: usize = 0;
    while i < v.len()
        invariant
            i <= v@.len(),
            out@.len() == old(out)@.len() + i,
            forall|j: int| 0 <= j < old(out)@.len() ==> #[trigger] out@[j] == old(out)@[j],
            forall|j: int| 0 <= j < i ==> *(#[trigger] out@[old(out)@.len() + j]) == v@[j],
        decreases v@.len() - i,
    {
        out.push(&v[i]);
        i = i + 1;
    }
}

fn push_cst_text(c: &Cst, out: &mut String)
    ensures
        final(out)@ == old(out)@ + cst_text(*c),
    decreases *c,
{
    let ghost start = out@;
    match c {
        Cst::OpeningParenthesis => push_char(out, '('),
        Cst::ClosingParenthesis => push_char(out, ')'),
        Cst::OpeningCurlyBrace => push_char(out, '{'),
        Cst::ClosingCurlyBrace => push_char(out, '}'),
        Cst::Arrow => {
            push_char(out, '-');
            push_char(out, '>');
            assert(start.push('-').push('>') =~= start + seq!['-', '>']);
        },
        Cst::DoubleQuote => push_char(out, '"'),
        Cst::Identifier(s) => out.append(s.as_str()),
        Cst::Symbol(s) => out.append(s.as_str()),
        Cst::Int(v) => {
            let digits = u64_to_digits(*v);
            let s = chars_to_string(digits.as_slice());
            out.append(s.as_str());
        },
        Cst::Text { opening_quote, parts, closing_quote } => {
            push_cst_text(opening_quote, out);
            push_csts_text(parts, out);
            push_cst_text(closing_quote, out);
        },
        Cst::TextPart(s) => out.append(s.as_str()),
        Cst::Call { name, arguments } => {
            push_cst_text(name, out);
            push_csts_text(arguments, out);
        },
        Cst::Whitespace(s) => out.append(s.as_str()),
        Cst::Newline => push_char(out, '\n'),
        Cst::Comment(s) => {
            push_char(out, '#');
            out.append(s.as_str());
            assert(start.push('#') =~= start + seq!['#']);
        },
        Cst::Parenthesized { opening_parenthesis, inner, closing_parenthesis } => {
            push_cst_text(opening_parenthesis, out);
            push_cst_text(inner, out);
            push_cst_text(closing_parenthesis, out);
        },
        Cst::Lambda { opening_curly_brace, parameters_and_arrow, body, closing_curly_brace } => {
            push_cst_text(opening_curly_brace, out);
            match parameters_and_arrow {
                Some((parameters, arrow)) => {
                    push_csts_text(parameters, out);
                    push_cst_text(arrow, out);
                },
                None => {},
            }
            push_csts_text(body, out);
            push_cst_text(closing_curly_brace, out);
        },
        Cst::Error { unparsable_input, error: _ } => out.append(unparsable_input.as_str()),
    }
}

fn push_csts_text(v: &Vec<Cst>, out: &mut String)
    ensures
        final(out)@ == old(out)@ + csts_text(v@),
    decreases v,
{
    let ghost start = out@;
    let mut i: usize = 0;
    while i < v.len()
        invariant
            i <= v.len(),
            out@ =~= start + csts_text(v@.subrange(0, i as int)),
        decreases v.len() - i,
    {
        push_cst_text(&v[i], out);
        proof {
            assert(v@.subrange(0, i + 1) =~= v@.subrange(0, i as int).push(v@[i as int]));
            lemma_csts_text_push(v@.subrange(0, i as int), v@[i as int]);
        }
        i = i + 1;
    }
    proof {
        assert(v@.subrange(0, v@.len() as int) =~= v@);
    }
}

/// A node's direct children, in source order; leaves and error nodes have
/// none.
pub open spec fn cst_children(c: Cst) -> Seq<Cst> {
    match c {
        Cst::Text { opening_quote, parts, closing_quote } => seq![*opening_quote] + parts@ + seq![
            *closing_quote,
        ],
        Cst::Call { name, arguments } => seq![*name] + arguments@,
        Cst::Parenthesized { opening_parenthesis, inner, closing_parenthesis } => seq![
            *opening_parenthesis,
            *inner,
            *closing_parenthesis,
        ],
        Cst::Lambda { opening_curly_brace, parameters_and_arrow, body, closing_curly_brace } => seq![
            *opening_curly_brace,
        ] + (match parameters_and_arrow {
            Some((parameters, arrow)) => parameters@ + seq![*arrow],
            None => Seq::empty(),
        }) + body@ + seq![*closing_curly_brace],
        _ => Seq::empty(),
    }
}

} // verus!
