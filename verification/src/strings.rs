//! Character classification and text helpers shared by the parser and the
//! diagnostic formatting of the compiler stages.

use vstd::prelude::*;

verus! {

/// The Unicode White_Space property, written out as the closed set of code
/// points it contains.
pub open spec fn spec_is_whitespace(c: char) -> bool {
    let u = c as int;
    u == 0x09 || u == 0x0A || u == 0x0B || u == 0x0C || u == 0x0D || u == 0x20 || u == 0x85
        || u == 0xA0 || u == 0x1680 || (0x2000 <= u && u <= 0x200A) || u == 0x2028 || u == 0x2029
        || u == 0x202F || u == 0x205F || u == 0x3000
}

pub fn is_whitespace_char(c: char) -> (r: bool)
    ensures
        r == spec_is_whitespace(c),
{
    let u = c as u32;
    u == 0x09 || u == 0x0A || u == 0x0B || u == 0x0C || u == 0x0D || u == 0x20 || u == 0x85
        || u == 0xA0 || u == 0x1680 || (0x2000 <= u && u <= 0x200A) || u == 0x2028 || u == 0x2029
        || u == 0x202F || u == 0x205F || u == 0x3000
}

pub open spec fn spec_is_ascii_digit(c: char) -> bool {
    0x30 <= c as int && c as int <= 0x39
}

pub fn is_ascii_digit_char(c: char) -> (r: bool)
    ensures
        r == spec_is_ascii_digit(c),
{
    let u = c as u32;
    0x30 <= u && u <= 0x39
}

pub open spec fn spec_is_ascii_alphanumeric(c: char) -> bool {
    let u = c as int;
    (0x30 <= u && u <= 0x39) || (0x41 <= u && u <= 0x5A) || (0x61 <= u && u <= 0x7A)
}

pub fn is_ascii_alphanumeric_char(c: char) -> (r: bool)
    ensures
        r == spec_is_ascii_alphanumeric(c),
{
    let u = c as u32;
    (0x30 <= u && u <= 0x39) || (0x41 <= u && u <= 0x5A) || (0x61 <= u && u <= 0x7A)
}

/// Whether `c` has the Unicode Lowercase property. The property's full
/// extent lives in the standard library's tables; only the ASCII rows are
/// pinned down here.
pub uninterp spec fn lowercase_property(c: char) -> bool;

/// Whether `c` has the Unicode Uppercase property, analogous to
/// `lowercase_property`.
pub uninterp spec fn uppercase_property(c: char) -> bool;

/// Relies on char::is_lowercase: true exactly for characters with the
/// Unicode Lowercase property; of the ASCII range, that is `a` to `z`.
#[verifier::external_body]
pub fn char_is_lowercase(c: char) -> (r: bool)
    ensures
        r == lowercase_property(c),
        0x61 <= c as int && c as int <= 0x7A ==> r,
        ((c as int) < 0x61) ==> !r,
{
    c.is_lowercase()
}

/// Relies on char::is_uppercase: true exactly for characters with the
/// Unicode Uppercase property; of the ASCII range, that is `A` to `Z`.
#[verifier::external_body]
pub fn char_is_uppercase(c: char) -> (r: bool)
    ensures
        r == uppercase_property(c),
        0x41 <= c as int && c as int <= 0x5A ==> r,
        ((c as int) < 0x41) ==> !r,
        0x61 <= c as int && c as int <= 0x7A ==> !r,
{
    c.is_uppercase()
}

/// Relies on String::push: appends exactly the one character.
#[verifier::external_body]
pub fn push_char(s: &mut String, c: char)
    ensures
        final(s)@ == old(s)@.push(c),
{
    s.push(c);
}

pub fn chars_to_string(v: &[char]) -> (s: String)
    ensures
        s@ == v@,
{
    let mut s = String::new();
    let mut i: usize = 0;
    while i < v.len()
        invariant
            i <= v.len(),
            s@ =~= v@.subrange(0, i as int),
        decreases v.len() - i,
    {
        push_char(&mut s, v[i]);
        i = i + 1;
    }
    assert(v@.subrange(0, v@.len() as int) =~= v@);
    s
}

pub fn str_to_chars(s: &str) -> (v: Vec<char>)
    ensures
        v@ == s@,
{
    let n = s.unicode_len();
    let mut v: Vec<char> = Vec::new();
    let mut i: usize = 0;
    while i < n
        invariant
            i <= n,
            n == s@.len(),
            v@ =~= s@.subrange(0, i as int),
        decreases n - i,
    {
        let c = s.get_char(i);
        v.push(c);
        i = i + 1;
    }
    assert(s@.subrange(0, s@.len() as int) =~= s@);
    v
}

/// Whether two texts hold the same characters.
pub fn str_eq(a: &str, b: &str) -> (r: bool)
    ensures
        r == (a@ == b@),
{
    let n = a.unicode_len();
    let m = b.unicode_len();
    if n != m {
        return false;
    }
    let mut i: usize = 0;
    while i < n
        invariant
            i <= n,
            n == a@.len(),
            n == b@.len(),
            forall|j: int| 0 <= j < i ==> a@[j] == b@[j],
        decreases n - i,
    {
        if a.get_char(i) != b.get_char(i) {
            return false;
        }
        i = i + 1;
    }
    proof {
        assert(a@ =~= b@);
    }
    true
}

/// The decimal digit character for a value below ten.
pub open spec fn digit_char(d: nat) -> char {
    if d == 0 { '0' }
    else if d == 1 { '1' }
    else if d == 2 { '2' }
    else if d == 3 { '3' }
    else if d == 4 { '4' }
    else if d == 5 { '5' }
    else if d == 6 { '6' }
    else if d == 7 { '7' }
    else if d == 8 { '8' }
    else { '9' }
}

/// The decimal digits of `n`, most significant first, without leading
/// zeros (`0` itself is the single digit `0`).
pub open spec fn dec_digits(n: nat) -> Seq<char>
    decreases n,
{
    if n < 10 {
        seq![digit_char(n)]
    } else {
        dec_digits(n / 10).push(digit_char(n % 10))
    }
}

/// The numeric value of a digit character.
pub open spec fn digit_val(c: char) -> nat {
    (c as int - 0x30) as nat
}

/// The numeric value of a sequence of decimal digit characters, most
/// significant first.
pub open spec fn digits_val(s: Seq<char>) -> nat
    decreases s.len(),
{
    if s.len() == 0 {
        0
    } else {
        digits_val(s.drop_last()) * 10 + digit_val(s.last())
    }
}

pub open spec fn all_digits(s: Seq<char>) -> bool {
    forall|i: int| 0 <= i < s.len() ==> spec_is_ascii_digit(#[trigger] s[i])
}

pub open spec fn all_ascii_alphanumeric(s: Seq<char>) -> bool {
    forall|i: int| 0 <= i < s.len() ==> spec_is_ascii_alphanumeric(#[trigger] s[i])
}

/// Reading the digits of `n` back yields `n`.
pub proof fn lemma_digits_val_of_dec_digits(n: nat)
    ensures
        digits_val(dec_digits(n)) == n,
        all_digits(dec_digits(n)),
        dec_digits(n).len() >= 1,
        n >= 10 ==> dec_digits(n)[0] == dec_digits((n / 10) as nat)[0],
        n < 10 ==> dec_digits(n) == seq![digit_char(n)],
    decreases n,
{
    if n < 10 {
        assert(digits_val(seq![digit_char(n)].drop_last()) == 0);
        assert(digits_val(seq![digit_char(n)]) == digit_val(digit_char(n)));
    } else {
        lemma_digits_val_of_dec_digits(n / 10);
        let d = dec_digits(n);
        assert(d.drop_last() =~= dec_digits(n / 10));
        assert(d.last() == digit_char(n % 10));
        assert(digit_val(digit_char(n % 10)) == n % 10);
    }
}

/// The first digit of `n`'s decimal form is `0` only for `n == 0`.
pub proof fn lemma_dec_digits_no_leading_zero(n: nat)
    ensures
        n > 0 ==> dec_digits(n)[0] != '0',
        n == 0 ==> dec_digits(n) == seq!['0'],
    decreases n,
{
    if n >= 10 {
        lemma_dec_digits_no_leading_zero(n / 10);
        lemma_digits_val_of_dec_digits(n / 10);
        assert(dec_digits(n)[0] == dec_digits(n / 10)[0]);
        if n / 10 == 0 {
            assert(false);
        }
    }
}

/// A digit string with value zero consists only of `0` characters.
pub proof fn lemma_digits_val_zero_all_zeros(s: Seq<char>)
    requires
        all_digits(s),
        digits_val(s) == 0,
    ensures
        forall|i: int| 0 <= i < s.len() ==> s[i] == '0',
    decreases s.len(),
{
    if s.len() > 0 {
        let prefix = s.drop_last();
        assert(digits_val(prefix) * 10 + digit_val(s.last()) == 0);
        assert(digits_val(prefix) == 0) by (nonlinear_arith)
            requires digits_val(prefix) * 10 + digit_val(s.last()) == 0;
        assert(all_digits(prefix)) by {
            assert(forall|i: int| 0 <= i < prefix.len() ==> prefix[i] == s[i]);
        }
        lemma_digits_val_zero_all_zeros(prefix);
        assert(digit_val(s.last()) == 0);
        assert(spec_is_ascii_digit(s.last()));
        assert(s.last() as int == 0x30);
        assert(s.last() == '0');
        assert(forall|i: int| 0 <= i < s.len() - 1 ==> s[i] == prefix[i] && s[i] == '0');
    }
}

/// A digit string without a leading zero is the decimal form of its value:
/// printing is the inverse of reading.
pub proof fn lemma_dec_digits_unique(s: Seq<char>)
    requires
        s.len() >= 1,
        all_digits(s),
        s.len() > 1 ==> s[0] != '0',
    ensures
        dec_digits(digits_val(s)) == s,
    decreases s.len(),
{
    if s.len() == 1 {
        let c = s[0];
        assert(spec_is_ascii_digit(c));
        assert(digits_val(s.drop_last()) == 0);
        assert(digits_val(s) == digit_val(c));
        assert(digit_char(digit_val(c)) == c);
        assert(dec_digits(digits_val(s)) =~= s);
    } else {
        let prefix = s.drop_last();
        assert(all_digits(prefix)) by {
            assert(forall|i: int| 0 <= i < prefix.len() ==> prefix[i] == s[i]);
        }
        assert(prefix[0] == s[0]);
        lemma_dec_digits_unique(prefix);
        let pv = digits_val(prefix);
        if pv == 0 {
            lemma_digits_val_zero_all_zeros(prefix);
            assert(prefix[0] == '0');
            assert(false);
        }
        let v = digits_val(s);
        assert(v == pv * 10 + digit_val(s.last()));
        assert(digit_val(s.last()) < 10);
        assert(v >= 10) by (nonlinear_arith)
            requires pv >= 1, v == pv * 10 + digit_val(s.last());
        assert(v / 10 == pv && v % 10 == digit_val(s.last())) by (nonlinear_arith)
            requires
                v == pv * 10 + digit_val(s.last()),
                digit_val(s.last()) < 10;
        let c = s.last();
        assert(digit_char(digit_val(c)) == c);
        assert(dec_digits(v) =~= dec_digits(pv).push(c));
        assert(dec_digits(pv).push(c) =~= s);
    }
}

/// The decimal digits of `v`, most significant first.
pub fn u64_to_digits(v: u64) -> (r: Vec<char>)
    ensures
        r@ == dec_digits(v as nat),
{
    let mut rev: Vec<char> = Vec::new();
    let mut rest: u64 = v;
    loop
        invariant_except_break
            (rev@.len() == 0 && rest == v) || (rev@.len() > 0 && rest > 0 && dec_digits(v as nat)
                =~= dec_digits(rest as nat) + rev@.reverse()),
        ensures
            rev@.len() > 0,
            dec_digits(v as nat) =~= rev@.reverse(),
        decreases rest, (if rev@.len() == 0 { 1int } else { 0int }),
    {
        let ghost old_rev = rev@;
        let ghost old_rest = rest as nat;
        let d = rest % 10;
        let c = digit_char_exec(d);
        rev.push(c);
        rest = rest / 10;
        proof {
            assert(rev@ =~= old_rev.push(c));
            assert(rev@.reverse() =~= seq![c] + old_rev.reverse()) by {
                assert forall|j: int| 0 <= j < rev@.len() implies rev@.reverse()[j] == (seq![c]
                    + old_rev.reverse())[j] by {
                    if j == 0 {
                        assert(rev@.reverse()[0] == rev@[rev@.len() - 1]);
                    } else {
                        assert(rev@.reverse()[j] == rev@[rev@.len() - 1 - j]);
                        assert(old_rev.reverse()[j - 1] == old_rev[old_rev.len() - 1 - (j - 1)]);
                    }
                }
            }
            if old_rev.len() == 0 {
                // The first digit peeled off: `dec_digits` of the original
                // value ends in it.
                if rest > 0 {
                    assert(old_rest >= 10);
                    assert(dec_digits(v as nat) =~= dec_digits(rest as nat).push(c));
                    assert(dec_digits(rest as nat).push(c) =~= dec_digits(rest as nat) + seq![c]);
                } else {
                    assert(old_rest < 10);
                    assert(dec_digits(v as nat) =~= seq![c]);
                }
            } else {
                if rest > 0 {
                    assert(old_rest >= 10);
                    assert(dec_digits(old_rest) =~= dec_digits(rest as nat).push(c));
                    assert(dec_digits(rest as nat).push(c) =~= dec_digits(rest as nat) + seq![c]);
                    assert(dec_digits(v as nat) =~= dec_digits(rest as nat) + (seq![c]
                        + old_rev.reverse()));
                    assert(dec_digits(rest as nat) + (seq![c] + old_rev.reverse()) =~= dec_digits(
                        rest as nat,
                    ) + rev@.reverse());
                } else {
                    assert(old_rest >= 1);
                    assert(old_rest < 10);
                    assert(dec_digits(old_rest) =~= seq![c]);
                    assert(dec_digits(v as nat) =~= seq![c] + old_rev.reverse());
                }
            }
        }
        if rest == 0 {
            proof {
                assert(dec_digits(v as nat) =~= rev@.reverse());
            }
            break;
        }
    }
    let mut r: Vec<char> = Vec::new();
    let mut i: usize = rev.len();
    while i > 0
        invariant
            i <= rev.len(),
            dec_digits(v as nat) =~= rev@.reverse(),
            r@ =~= rev@.reverse().subrange(0, rev@.len() - i),
        decreases i,
    {
        i = i - 1;
        let c = rev[i];
        r.push(c);
        proof {
            let n = rev@.len() as int;
            assert(rev@.reverse()[n - 1 - i] == rev@[i as int]);
            assert(r@ =~= rev@.reverse().subrange(0, n - i));
        }
    }
    proof {
        assert(r@ =~= rev@.reverse());
    }
    r
}

fn digit_char_exec(d: u64) -> (c: char)
    requires
        d < 10,
    ensures
        c == digit_char(d as nat),
{
    if d == 0 { '0' }
    else if d == 1 { '1' }
    else if d == 2 { '2' }
    else if d == 3 { '3' }
    else if d == 4 { '4' }
    else if d == 5 { '5' }
    else if d == 6 { '6' }
    else if d == 7 { '7' }
    else if d == 8 { '8' }
    else { '9' }
}

} // verus!
