//! Small text helpers for diagnostics.

use vstd::prelude::*;

verus! {

/// `a`, `a and b`, or `a, b, and c`: how a diagnostic lists names.
pub open spec fn joined_with_commas_and_and(parts: Seq<Seq<char>>) -> Seq<char> {
    if parts.len() == 1 {
        parts[0]
    } else if parts.len() == 2 {
        parts[0] + " and "@ + parts[1]
    } else {
        comma_joined(parts.drop_last()) + ", and "@ + parts.last()
    }
}

/// The parts separated by `, `.
pub open spec fn comma_joined(parts: Seq<Seq<char>>) -> Seq<char>
    decreases parts.len(),
{
    if parts.len() == 0 {
        Seq::empty()
    } else if parts.len() == 1 {
        parts[0]
    } else {
        parts[0] + ", "@ + comma_joined(parts.drop_first())
    }
}

pub trait JoinWithCommasAndAnd {
    /// The parts to join, as text.
    spec fn parts_to_join(&self) -> Seq<Seq<char>>;

    /// Joins at least one part the way prose lists them.
    fn join_with_commas_and_and(&self) -> (r: String)
        requires
            self.parts_to_join().len() >= 1,
        ensures
            r@ == joined_with_commas_and_and(self.parts_to_join()),
    ;
}

impl JoinWithCommasAndAnd for Vec<String> {
    open spec fn parts_to_join(&self) -> Seq<Seq<char>> {
        self.deep_view()
    }

    fn join_with_commas_and_and(&self) -> (r: String) {
        let n = self.len();
        if n == 1 {
            let r = self[0].clone();
            proof {
                assert(r@ == self.deep_view()[0]);
            }
            r
        } else if n == 2 {
            let mut r = self[0].clone();
            r.append(" and ");
            r.append(self[1].as_str());
            proof {
                assert(r@ == self.deep_view()[0] + " and "@ + self.deep_view()[1]);
            }
            r
        } else {
            let ghost firsts = self.deep_view().drop_last();
            let mut r = self[0].clone();
            let mut i: usize = 1;
            while i < n - 1
                invariant
                    1 <= i <= n - 1,
                    n == self@.len(),
                    n >= 3,
                    firsts == self.deep_view().drop_last(),
                    r@ =~= comma_joined(firsts.subrange(0, i as int)),
                decreases n - 1 - i,
            {
                r.append(", ");
                r.append(self[i].as_str());
                proof {
                    lemma_comma_joined_push(firsts.subrange(0, i as int), firsts[i as int]);
                    assert(firsts.subrange(0, i + 1) =~= firsts.subrange(0, i as int).push(
                        firsts[i as int],
                    ));
                    assert(self.deep_view()[i as int] == firsts[i as int]);
                }
                i = i + 1;
            }
            r.append(", and ");
            r.append(self[n - 1].as_str());
            proof {
                assert(firsts.subrange(0, n - 1) =~= firsts);
                assert(self.deep_view().last() == self.deep_view()[n - 1]);
            }
            r
        }
    }
}

/// Appending one more part appends a comma and the part.
pub proof fn lemma_comma_joined_push(parts: Seq<Seq<char>>, x: Seq<char>)
    requires
        parts.len() >= 1,
    ensures
        comma_joined(parts.push(x)) == comma_joined(parts) + ", "@ + x,
    decreases parts.len(),
{
    if parts.len() == 1 {
        assert(parts.push(x).drop_first() =~= seq![x]);
        assert(parts.push(x)[0] == parts[0]);
        assert(comma_joined(seq![x]) == x);
        assert(comma_joined(parts.push(x)) =~= comma_joined(parts) + ", "@ + x);
    } else {
        lemma_comma_joined_push(parts.drop_first(), x);
        assert(parts.push(x).drop_first() =~= parts.drop_first().push(x));
        assert(parts.push(x)[0] == parts[0]);
        assert(comma_joined(parts.push(x)) =~= comma_joined(parts) + ", "@ + x);
    }
}

} // verus!
