//! Sorting by integer keys.

use vstd::prelude::*;

verus! {

/// A key and what it belongs to. The second part tells equal keys apart.
pub type Keyed = (i64, u64);

/// `a` may stand before `b`.
pub open spec fn keyed_le(a: Keyed, b: Keyed) -> bool {
    a.0 < b.0 || (a.0 == b.0 && a.1 <= b.1)
}

pub open spec fn keyed_sorted(list: Seq<Keyed>) -> bool {
    forall|i: int, j: int| 0 <= i < j < list.len() ==> keyed_le(#[trigger] list[i], #[trigger] list[j])
}

/// `slice::sort_unstable` on pairs of integers, which are ordered by their first
/// part and then by their second: the same pairs, in ascending order.
#[verifier::external_body]
pub(crate) fn sort_keyed(list: &mut Vec<Keyed>)
    ensures
        final(list)@.to_multiset() == old(list)@.to_multiset(),
        keyed_sorted(final(list)@),
{
    list.sort_unstable()
}

/// Two lists of the same pairs hold the same pairs.
pub proof fn lemma_same_pairs(a: Seq<Keyed>, b: Seq<Keyed>)
    requires
        a.to_multiset() == b.to_multiset(),
    ensures
        a.len() == b.len(),
        forall|k: Keyed| #[trigger] a.contains(k) <==> b.contains(k),
{
    broadcast use vstd::seq_lib::group_to_multiset_ensures;

    assert forall|k: Keyed| #[trigger] a.contains(k) <==> b.contains(k) by {
        assert(a.contains(k) <==> a.to_multiset().count(k) > 0);
        assert(b.contains(k) <==> b.to_multiset().count(k) > 0);
    }
    assert(a.len() == a.to_multiset().len());
    assert(b.len() == b.to_multiset().len());
}

/// Where the pairs of a list are all different, so are those of a list of the same
/// pairs.
pub proof fn lemma_no_duplicates(a: Seq<Keyed>, b: Seq<Keyed>)
    requires
        a.to_multiset() == b.to_multiset(),
        a.no_duplicates(),
    ensures
        b.no_duplicates(),
{
    broadcast use vstd::seq_lib::group_to_multiset_ensures;

    a.lemma_multiset_has_no_duplicates();
    assert forall|i: int, j: int| 0 <= i < b.len() && 0 <= j < b.len() && i != j implies b[i]
        != b[j] by {
        if b[i] == b[j] {
            let k = b[i];
            assert(a.to_multiset().contains(k));
            assert(b.to_multiset().count(k) == 1);
            let rest = b.remove(i);
            assert(b.to_multiset() == rest.to_multiset().insert(k)) by {
                assert(rest.to_multiset() == b.to_multiset().remove(k));
                assert(b.to_multiset().contains(k));
            }
            assert(rest.contains(k)) by {
                if j < i {
                    assert(rest[j] == k);
                } else {
                    assert(rest[j - 1] == k);
                }
            }
            assert(rest.to_multiset().count(k) > 0);
        }
    }
}

} // verus!
