use vstd::prelude::*;

verus! {

use vstd::relations::{sorted_by, total_ordering};
use vstd::seq_lib::{group_to_multiset_ensures, lemma_sorted_unique};

/// The ascending order on score values; both strategies present their
/// outcomes in this order.
pub open spec fn leq_u8() -> spec_fn(u8, u8) -> bool {
    |x: u8, y: u8| x <= y
}

/// Holds when a sequence of score values runs from smallest to largest.
pub open spec fn sorted_asc(s: Seq<u8>) -> bool {
    sorted_by(s, leq_u8())
}

/// The ascending rearrangement of a sequence of score values.
pub open spec fn sort_spec(s: Seq<u8>) -> Seq<u8> {
    s.sort_by(leq_u8())
}

pub proof fn lemma_leq_u8_total_ordering()
    ensures
        total_ordering(leq_u8()),
{
    let leq = leq_u8();
    assert forall|x: u8| #[trigger] leq(x, x) by {}
    assert forall|x: u8, y: u8| #[trigger] leq(x, y) && #[trigger] leq(y, x) implies x == y by {}
    assert forall|x: u8, y: u8, z: u8| #[trigger] leq(x, y) && #[trigger] leq(y, z) implies leq(
        x,
        z,
    ) by {}
    assert forall|x: u8, y: u8| #[trigger] leq(x, y) || #[trigger] leq(y, x) by {}
}

/// The ascending rearrangement holds the same values, is sorted, and keeps
/// the length.
pub proof fn lemma_sort_spec_ensures(s: Seq<u8>)
    ensures
        sort_spec(s).to_multiset() == s.to_multiset(),
        sorted_asc(sort_spec(s)),
        sort_spec(s).len() == s.len(),
        forall|x: u8| s.contains(x) <==> #[trigger] sort_spec(s).contains(x),
{
    broadcast use group_to_multiset_ensures;

    lemma_leq_u8_total_ordering();
    s.lemma_sort_by_ensures(leq_u8());
    assert(s.to_multiset().len() == s.len());
    assert(sort_spec(s).to_multiset().len() == sort_spec(s).len());
    assert forall|x: u8| s.contains(x) implies #[trigger] sort_spec(s).contains(x) by {
        assert(s.to_multiset().count(x) > 0);
    }
    assert forall|x: u8| sort_spec(s).contains(x) implies s.contains(x) by {
        assert(sort_spec(s).to_multiset().count(x) > 0);
    }
}

/// A sorted sequence holding the same values as `s` is its ascending
/// rearrangement.
pub proof fn lemma_sorted_permutation_is_sort_spec(r: Seq<u8>, s: Seq<u8>)
    requires
        sorted_asc(r),
        r.to_multiset() == s.to_multiset(),
    ensures
        r == sort_spec(s),
{
    lemma_leq_u8_total_ordering();
    lemma_sort_spec_ensures(s);
    lemma_sorted_unique(r, sort_spec(s), leq_u8());
}

/// Inserting a value into a sequence adds exactly that value to the
/// sequence's multiset of values.
pub proof fn lemma_insert_to_multiset(s: Seq<u8>, i: int, v: u8)
    requires
        0 <= i <= s.len(),
    ensures
        s.insert(i, v).to_multiset() == s.to_multiset().insert(v),
{
    broadcast use group_to_multiset_ensures;

    let t = s.insert(i, v);
    s.insert_ensures(i, v);
    assert(t.remove(i) =~= s);
    assert(t.remove(i).to_multiset() =~= t.to_multiset().remove(t[i]));
    assert(t[i] == v);
    assert(t.contains(v));
    assert(t.to_multiset().count(v) > 0);
    assert(t.to_multiset() =~= s.to_multiset().insert(v));
}

/// Sorts a vector of score values ascending; the result is the ascending
/// rearrangement of the input.
#[verifier::loop_isolation(false)]
pub fn sort_vec(v: &mut Vec<u8>)
    ensures
        final(v)@ == sort_spec(old(v)@),
        sorted_asc(final(v)@),
        final(v)@.to_multiset() == old(v)@.to_multiset(),
        final(v)@.len() == old(v)@.len(),
{
    let ghost input = v@;
    proof {
        broadcast use group_to_multiset_ensures;

        assert(input.subrange(0, 0) =~= Seq::<u8>::empty());
    }
    let mut r: Vec<u8> = Vec::new();
    let mut idx: usize = 0;
    while idx < v.len()
        invariant
            idx <= v.len(),
            v@ == input,
            r@.len() == idx,
            sorted_asc(r@),
            r@.to_multiset() == input.subrange(0, idx as int).to_multiset(),
        decreases v.len() - idx,
    {
        let x = v[idx];
        let mut p: usize = 0;
        while p < r.len() && r[p] <= x
            invariant
                p <= r@.len(),
                forall|q: int| 0 <= q < p ==> r@[q] <= x,
            decreases r.len() - p,
        {
            p = p + 1;
        }
        let ghost r_before = r@;
        r.insert(p, x);
        proof {
            broadcast use group_to_multiset_ensures;

            r_before.insert_ensures(p as int, x);
            assert(sorted_asc(r@)) by {
                let leq = leq_u8();
                assert forall|i: int, j: int| 0 <= i < j < r@.len() implies #[trigger] leq(
                    r@[i],
                    r@[j],
                ) by {
                    if j < p {
                        assert(r@[i] == r_before[i] && r@[j] == r_before[j]);
                        assert(leq(r_before[i], r_before[j]));
                    } else if j == p {
                        assert(r@[i] == r_before[i] && r@[i] <= x);
                    } else {
                        assert(r@[j] == r_before[j - 1]);
                        assert(p < r_before.len());
                        assert(!(r_before[p as int] <= x));
                        if i < p {
                            assert(r@[i] == r_before[i]);
                            assert(leq(r_before[i], r_before[j - 1]));
                        } else if i == p {
                            if p < j - 1 {
                                assert(leq(r_before[p as int], r_before[j - 1]));
                            }
                        } else {
                            assert(r@[i] == r_before[i - 1]);
                            assert(leq(r_before[i - 1], r_before[j - 1]));
                        }
                    }
                }
            }
            lemma_insert_to_multiset(r_before, p as int, x);
            assert(input.subrange(0, idx + 1) =~= input.subrange(0, idx as int).push(
                input[idx as int],
            ));
            assert(input.subrange(0, idx as int).push(x).to_multiset() =~= input.subrange(
                0,
                idx as int,
            ).to_multiset().insert(x));
        }
        idx = idx + 1;
    }
    proof {
        assert(input.subrange(0, input.len() as int) =~= input);
        lemma_sorted_permutation_is_sort_spec(r@, input);
    }
    *v = r;
}

} // verus!
