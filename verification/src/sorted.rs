//! Ordered sets of strings, as a `BTreeSet<String>` iterates them.
use vstd::prelude::*;

use crate::model::strs_view;
use crate::text::{
    lemma_text_less_asymmetric, lemma_text_less_irreflexive, lemma_text_less_total,
    lemma_text_less_transitive, text_less, text_order, TextOrder,
};

verus! {

/// Strictly increasing in `str` order.
pub open spec fn sorted_strict(s: Seq<Seq<char>>) -> bool {
    forall|i: int, j: int| 0 <= i < j < s.len() ==> text_less(#[trigger] s[i], #[trigger] s[j])
}

/// The strictly increasing sequence holding exactly the elements of `set`.
pub open spec fn sorted_of(set: Set<Seq<char>>) -> Seq<Seq<char>> {
    choose|s: Seq<Seq<char>>| sorted_strict(s) && s.to_set() == set
}

pub proof fn lemma_sorted_no_dup(s: Seq<Seq<char>>)
    requires
        sorted_strict(s),
    ensures
        s.no_duplicates(),
{
    assert forall|i: int, j: int| 0 <= i < s.len() && 0 <= j < s.len() && i != j implies s[i] != s[j] by {
        if i < j {
            assert(text_less(s[i], s[j]));
            lemma_text_less_irreflexive(s[i]);
        } else {
            assert(text_less(s[j], s[i]));
            lemma_text_less_irreflexive(s[j]);
        }
    }
}

/// Two strictly sorted sequences with the same elements are equal.
pub proof fn lemma_sorted_unique(a: Seq<Seq<char>>, b: Seq<Seq<char>>)
    requires
        sorted_strict(a),
        sorted_strict(b),
        a.to_set() == b.to_set(),
    ensures
        a == b,
    decreases a.len(),
{
    if a.len() == 0 {
        if b.len() > 0 {
            assert(b.to_set().contains(b[0]));
            assert(!a.to_set().contains(b[0]));
        }
        assert(a =~= b);
    } else {
        assert(b.to_set().contains(a.last()));
        assert(b.len() > 0);
        assert(a.to_set().contains(b.last()));
        let x = a.last();
        let y = b.last();
        let ka = choose|k: int| 0 <= k < a.len() && a[k] == y;
        let kb = choose|k: int| 0 <= k < b.len() && b[k] == x;
        if x != y {
            lemma_text_less_total(x, y);
            if text_less(x, y) {
                // y sits in a before its last element x
                assert(ka < a.len() - 1);
                assert(text_less(a[ka], a[a.len() - 1]));
                lemma_text_less_asymmetric(x, y);
            } else {
                assert(kb < b.len() - 1);
                assert(text_less(b[kb], b[b.len() - 1]));
                lemma_text_less_asymmetric(x, y);
            }
        }
        let a2 = a.drop_last();
        let b2 = b.drop_last();
        lemma_sorted_no_dup(a);
        lemma_sorted_no_dup(b);
        assert forall|z: Seq<char>| a2.to_set().contains(z) <==> b2.to_set().contains(z) by {
            if a2.to_set().contains(z) {
                let k = choose|k: int| 0 <= k < a2.len() && a2[k] == z;
                assert(a[k] == z);
                assert(a.to_set().contains(z));
                assert(b.to_set().contains(z));
                let m = choose|m: int| 0 <= m < b.len() && b[m] == z;
                assert(z != x);
                if m == b.len() - 1 {
                    assert(b[m] == y);
                }
                assert(m < b.len() - 1);
                assert(b2[m] == z);
            }
            if b2.to_set().contains(z) {
                let k = choose|k: int| 0 <= k < b2.len() && b2[k] == z;
                assert(b[k] == z);
                assert(b.to_set().contains(z));
                assert(a.to_set().contains(z));
                let m = choose|m: int| 0 <= m < a.len() && a[m] == z;
                assert(z != y);
                if m == a.len() - 1 {
                    assert(a[m] == x);
                }
                assert(m < a.len() - 1);
                assert(a2[m] == z);
            }
        }
        assert(a2.to_set() =~= b2.to_set());
        lemma_sorted_unique(a2, b2);
        assert(a =~= a2.push(x));
        assert(b =~= b2.push(y));
    }
}

/// A strictly sorted sequence is the `sorted_of` its elements.
pub proof fn lemma_is_sorted_of(s: Seq<Seq<char>>)
    requires
        sorted_strict(s),
    ensures
        sorted_of(s.to_set()) == s,
{
    let t = sorted_of(s.to_set());
    assert(sorted_strict(t) && t.to_set() == s.to_set());
    lemma_sorted_unique(t, s);
}

/// Inserts `x` into a strictly sorted list unless already present.
pub fn sorted_insert(v: &mut Vec<String>, x: String) -> (pos: usize)
    requires
        sorted_strict(strs_view(old(v)@)),
    ensures
        sorted_strict(strs_view(final(v)@)),
        strs_view(final(v)@).to_set() == strs_view(old(v)@).to_set().insert(x@),
        pos <= old(v).len(),
        strs_view(old(v)@).contains(x@) ==> final(v)@ == old(v)@,
        !strs_view(old(v)@).contains(x@) ==> final(v)@ == old(v)@.insert(pos as int, x),
{
    let ghost old_s = strs_view(v@);
    let mut i: usize = 0;
    while i < v.len()
        invariant
            i <= v.len(),
            v@ == old(v)@,
            old_s == strs_view(v@),
            sorted_strict(old_s),
            forall|j: int| 0 <= j < i ==> text_less(#[trigger] old_s[j], x@),
        ensures
            i <= v.len(),
            v@ == old(v)@,
            forall|j: int| 0 <= j < i ==> text_less(#[trigger] old_s[j], x@),
            i < v.len() ==> text_less(x@, old_s[i as int]),
        decreases v.len() - i,
    {
        match text_order(v[i].as_str(), x.as_str()) {
            TextOrder::Less => {
                assert(old_s[i as int] == v@[i as int]@);
                i += 1;
            },
            TextOrder::Equal => {
                assert(old_s[i as int] == x@);
                assert(old_s.contains(x@));
                assert(old_s.to_set().insert(x@) =~= old_s.to_set());
                return i;
            },
            TextOrder::Greater => {
                assert(old_s[i as int] == v@[i as int]@);
                break;
            },
        }
    }
    // every element from i on is greater than x
    proof {
        assert forall|j: int| i <= j < old_s.len() implies text_less(x@, #[trigger] old_s[j]) by {
            if j > i {
                assert(text_less(old_s[i as int], old_s[j]));
                lemma_text_less_transitive(x@, old_s[i as int], old_s[j]);
            }
        }
        assert forall|j: int| 0 <= j < old_s.len() implies old_s[j] != x@ by {
            if j < i {
                lemma_text_less_irreflexive(x@);
            } else {
                lemma_text_less_irreflexive(x@);
            }
        }
    }
    let ghost xv = x@;
    v.insert(i, x);
    let ghost new_s = strs_view(v@);
    proof {
        assert(new_s =~= old_s.insert(i as int, xv));
        old_s.insert_ensures(i as int, xv);
        assert forall|a: int, b: int| 0 <= a < b < new_s.len() implies text_less(#[trigger] new_s[a], #[trigger] new_s[b]) by {
            if b < i {
            } else if b == i {
            } else if a < i {
                assert(new_s[b] == old_s[b - 1]);
                lemma_text_less_transitive(old_s[a], xv, old_s[b - 1]);
            } else if a == i {
                assert(new_s[b] == old_s[b - 1]);
            } else {
                assert(new_s[a] == old_s[a - 1]);
                assert(new_s[b] == old_s[b - 1]);
            }
        }
        assert forall|z: Seq<char>| new_s.to_set().contains(z) <==> old_s.to_set().insert(xv).contains(z) by {
            if new_s.to_set().contains(z) {
                let k = choose|k: int| 0 <= k < new_s.len() && new_s[k] == z;
                if k < i {
                    assert(old_s[k] == z);
                } else if k > i {
                    assert(old_s[k - 1] == z);
                }
            }
            if old_s.to_set().contains(z) {
                let k = choose|k: int| 0 <= k < old_s.len() && old_s[k] == z;
                if k < i {
                    assert(new_s[k] == z);
                } else {
                    assert(new_s[k + 1] == z);
                }
            }
            if z == xv {
                assert(new_s[i as int] == z);
            }
        }
        assert(new_s.to_set() =~= old_s.to_set().insert(xv));
    }
    i
}

} // verus!
