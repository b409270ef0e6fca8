//! Sorting, as the standard library does it.

use vstd::prelude::*;
use crate::ratings::{Id, Rating};

verus! {

/// Whether `ids` ascends, equal neighbours allowed.
pub open spec fn ascending(ids: Seq<Id>) -> bool {
    forall|i: int, j: int| 0 <= i <= j < ids.len() ==> ids[i] <= ids[j]
}

/// Whether `ids` ascends with no id occurring twice.
pub open spec fn strictly_ascending(ids: Seq<Id>) -> bool {
    forall|i: int, j: int| 0 <= i < j < ids.len() ==> ids[i] < ids[j]
}

/// Whether `a` may stand before `b`: by row first, by column second.
pub open spec fn cell_le<T>(a: Rating<T>, b: Rating<T>) -> bool {
    a.animeidx < b.animeidx || (a.animeidx == b.animeidx && a.useridx <= b.useridx)
}

/// Whether the ratings are grouped by row and, within a row, ordered by column.
pub open spec fn cell_ordered<T>(ratings: Seq<Rating<T>>) -> bool {
    forall|i: int, j: int| 0 <= i <= j < ratings.len() ==> cell_le(ratings[i], ratings[j])
}

/// Calls `sort` of the standard library's slices on the ids.
///
/// Trusted: afterwards the vector holds the same ids as before, each as
/// often as before, in ascending order.
#[verifier::external_body]
pub(crate) fn sort_ids(ids: &mut Vec<Id>)
    ensures
        final(ids)@.to_multiset() == old(ids)@.to_multiset(),
        ascending(final(ids)@),
{
    ids.sort();
}

/// Calls `sort_unstable_by_key` of the standard library's slices on the
/// ratings, with the pair of row and column as the key.
///
/// Trusted: afterwards the vector holds the same ratings as before, each as
/// often as before, ordered by row and then by column; pairs compare as the
/// standard library documents for tuples, first component first.
#[verifier::external_body]
pub(crate) fn sort_ratings<T>(ratings: &mut Vec<Rating<T>>)
    ensures
        final(ratings)@.to_multiset() == old(ratings)@.to_multiset(),
        cell_ordered(final(ratings)@),
{
    ratings.sort_unstable_by_key(|r| r.cell());
}

/// An ascending sequence in which nothing occurs twice ascends strictly.
pub proof fn lemma_ascending_distinct(ids: Seq<Id>)
    requires
        ascending(ids),
        ids.no_duplicates(),
    ensures
        strictly_ascending(ids),
{
}

/// Reordering keeps distinct elements distinct.
pub proof fn lemma_reordered_distinct<A>(before: Seq<A>, after: Seq<A>)
    requires
        before.no_duplicates(),
        after.to_multiset() == before.to_multiset(),
    ensures
        after.no_duplicates(),
        after.to_set() == before.to_set(),
        after.len() == before.len(),
{
    broadcast use vstd::seq_lib::to_multiset_contains;
    before.lemma_multiset_has_no_duplicates();
    after.lemma_multiset_has_no_duplicates_conv();
    assert(after.to_set() =~= before.to_set()) by {
        assert forall|x: A| after.to_set().contains(x) <==> before.to_set().contains(x) by {
            assert(after.contains(x) <==> after.to_multiset().count(x) > 0);
            assert(before.contains(x) <==> before.to_multiset().count(x) > 0);
        }
    }
    vstd::seq_lib::to_multiset_len(before);
    vstd::seq_lib::to_multiset_len(after);
}

} // verus!
