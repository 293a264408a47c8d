//! Lexicographic order of texts (character by character, as `str`
//! compares UTF-8: code point order).
use vstd::prelude::*;
use vstd::string::*;
use crate::text::chars_of;

verus! {

/// `a` sorts strictly before `b`.
pub open spec fn lex_lt(a: Seq<char>, b: Seq<char>) -> bool
    decreases a.len(),
{
    if a.len() == 0 {
        b.len() > 0
    } else if b.len() == 0 {
        false
    } else if a[0] != b[0] {
        a[0] < b[0]
    } else {
        lex_lt(a.drop_first(), b.drop_first())
    }
}

pub proof fn lemma_lex_irreflexive(a: Seq<char>)
    ensures
        !lex_lt(a, a),
    decreases a.len(),
{
    if a.len() > 0 {
        lemma_lex_irreflexive(a.drop_first());
    }
}

pub proof fn lemma_lex_total(a: Seq<char>, b: Seq<char>)
    ensures
        lex_lt(a, b) || lex_lt(b, a) || a == b,
    decreases a.len(),
{
    if a.len() > 0 && b.len() > 0 && a[0] == b[0] {
        lemma_lex_total(a.drop_first(), b.drop_first());
        if a.drop_first() == b.drop_first() {
            assert(a =~= seq![a[0]] + a.drop_first());
            assert(b =~= seq![b[0]] + b.drop_first());
        }
    } else if a.len() == 0 && b.len() == 0 {
        assert(a =~= b);
    } else if a.len() > 0 && b.len() > 0 {
        let x = a[0];
        let y = b[0];
        assert(x != y);

    }
}

pub proof fn lemma_lex_asymmetric(a: Seq<char>, b: Seq<char>)
    ensures
        !(lex_lt(a, b) && lex_lt(b, a)),
    decreases a.len(),
{
    if a.len() > 0 && b.len() > 0 && a[0] == b[0] {
        lemma_lex_asymmetric(a.drop_first(), b.drop_first());
    }
}

pub proof fn lemma_lex_transitive(a: Seq<char>, b: Seq<char>, c: Seq<char>)
    requires
        lex_lt(a, b),
        lex_lt(b, c),
    ensures
        lex_lt(a, c),
    decreases a.len(),
{
    if a.len() > 0 && b.len() > 0 && c.len() > 0 && a[0] == b[0] && b[0] == c[0] {
        lemma_lex_transitive(a.drop_first(), b.drop_first(), c.drop_first());
    }
}

/// A text sorts strictly before every longer text that extends it (as
/// `str::cmp` orders a prefix first).
pub proof fn prefixes_sort_first(a: Seq<char>, b: Seq<char>)
    requires
        b.len() > 0,
    ensures
        lex_lt(a, a + b),
        !lex_lt(a + b, a),
    decreases a.len(),
{
    if a.len() > 0 {
        assert((a + b).drop_first() =~= a.drop_first() + b);
        assert((a + b)[0] == a[0]);
        prefixes_sort_first(a.drop_first(), b);
    }
}

/// `a` sorts strictly before `b` exactly when `a` is a proper prefix of
/// `b`, or at the first position where they differ `a` has the smaller
/// character.
pub proof fn texts_sort_by_their_first_difference(a: Seq<char>, b: Seq<char>)
    ensures
        lex_lt(a, b) <==> ((a.len() < b.len() && a == b.take(a.len() as int)) || exists|i: int|
            0 <= i < a.len() && i < b.len() && a.take(i) == b.take(i) && #[trigger] a[i] < b[i]),
    decreases a.len(),
{
    if a.len() == 0 {
        assert(a =~= b.take(0));
        assert forall|i: int| !(0 <= i < a.len() && i < b.len() && a.take(i) == b.take(i) && #[trigger] a[i] < b[i]) by {}
    } else if b.len() == 0 {
    } else {
        let a1 = a.drop_first();
        let b1 = b.drop_first();
        texts_sort_by_their_first_difference(a1, b1);
        if a[0] != b[0] {
            if a[0] < b[0] {
                assert(a.take(0) =~= b.take(0));
                assert(0 < a.len() && 0 < b.len() && a.take(0) == b.take(0) && a[0] < b[0]);
            } else {
                if a.len() < b.len() && a == b.take(a.len() as int) {
                    assert(a[0] == b.take(a.len() as int)[0]);
                }
                if exists|i: int| 0 <= i < a.len() && i < b.len() && a.take(i) == b.take(i) && #[trigger] a[i] < b[i] {
                    let i = choose|i: int| 0 <= i < a.len() && i < b.len() && a.take(i) == b.take(i) && #[trigger] a[i] < b[i];
                    if i > 0 {
                        assert(a.take(i)[0] == b.take(i)[0]);
                    }
                }
            }
        } else {
            // same first character: both sides shift by one
            if a1.len() < b1.len() && a1 == b1.take(a1.len() as int) {
                assert forall|k: int| 0 <= k < a.len() implies a[k] == b.take(a.len() as int)[k] by {
                    if k > 0 {
                        assert(a[k] == a1[k - 1]);
                        assert(a1[k - 1] == b1.take(a1.len() as int)[k - 1]);
                        assert(b[k] == b1[k - 1]);
                    }
                }
                assert(a =~= b.take(a.len() as int));
            }
            if a.len() < b.len() && a == b.take(a.len() as int) {
                assert(a1 =~= b1.take(a1.len() as int));
            }
            if exists|i: int| 0 <= i < a1.len() && i < b1.len() && a1.take(i) == b1.take(i) && #[trigger] a1[i] < b1[i] {
                let i = choose|i: int| 0 <= i < a1.len() && i < b1.len() && a1.take(i) == b1.take(i) && #[trigger] a1[i] < b1[i];
                assert forall|k: int| 0 <= k < i + 1 implies #[trigger] a.take(i + 1)[k] == b.take(i + 1)[k] by {
                    if k > 0 {
                        assert(a[k] == a1[k - 1]);
                        assert(a1.take(i)[k - 1] == b1.take(i)[k - 1]);
                        assert(b[k] == b1[k - 1]);
                    }
                }
                assert(a.take(i + 1) =~= b.take(i + 1));
                assert(a[i + 1] == a1[i] && b[i + 1] == b1[i]);
            }
            if exists|i: int| 0 <= i < a.len() && i < b.len() && a.take(i) == b.take(i) && #[trigger] a[i] < b[i] {
                let i = choose|i: int| 0 <= i < a.len() && i < b.len() && a.take(i) == b.take(i) && #[trigger] a[i] < b[i];
                assert(i != 0);
                assert forall|k: int| 0 <= k < i - 1 implies #[trigger] a1.take(i - 1)[k] == b1.take(i - 1)[k] by {
                    assert(a1[k] == a[k + 1]);
                    assert(a.take(i)[k + 1] == b.take(i)[k + 1]);
                    assert(b1[k] == b[k + 1]);
                }
                assert(a1.take(i - 1) =~= b1.take(i - 1));
                assert(a1[i - 1] == a[i] && b1[i - 1] == b[i]);
            }
        }
    }
}

/// Whether `a` sorts strictly before `b`.
pub fn text_less(a: &str, b: &str) -> (r: bool)
    ensures
        r == lex_lt(a@, b@),
        a@.len() < b@.len() && a@ == b@.take(a@.len() as int) ==> r,
{
    proof {
        texts_sort_by_their_first_difference(a@, b@);
    }
    let x = chars_of(a);
    let y = chars_of(b);
    let mut i: usize = 0;
    proof {
        assert(x@.skip(0) =~= x@);
        assert(y@.skip(0) =~= y@);
    }
    while i < x.len() && i < y.len() && x[i] == y[i]
        invariant
            i <= x.len(),
            i <= y.len(),
            x@ == a@,
            y@ == b@,
            lex_lt(x@, y@) == lex_lt(x@.skip(i as int), y@.skip(i as int)),
        decreases x.len() - i,
    {
        proof {
            assert(x@.skip(i as int).drop_first() =~= x@.skip(i + 1));
            assert(y@.skip(i as int).drop_first() =~= y@.skip(i + 1));
        }
        i = i + 1;
    }
    if i == x.len() {
        i < y.len()
    } else if i == y.len() {
        false
    } else {
        x[i] < y[i]
    }
}

} // verus!
