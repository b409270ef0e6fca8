//! How often each item and each user was rated.

use vstd::prelude::*;
use crate::ratings::{Index, Rating, RatingContainer};

verus! {

/// One count per row (or per column), kept in a dynamically sized vector
/// of the linear-algebra crate.
///
/// Trusted: the verifier does not look inside; what the vector holds is
/// known only through [`counts_in`].
#[verifier::external_body]
pub struct RatingCounts {
    counts: nalgebra::DVector<usize>,
}

/// The counts that a vector holds, first to last.
pub uninterp spec fn counts_in(v: RatingCounts) -> Seq<usize>;

impl View for RatingCounts {
    type V = Seq<usize>;

    open spec fn view(&self) -> Seq<usize> {
        counts_in(*self)
    }
}

impl RatingCounts {
    /// Calls `DVector::from_element` with zero as the element.
    ///
    /// Trusted: the vector holds `len` counts, each of them zero. That
    /// there is memory for them is taken for granted, as it is for the
    /// vectors of the standard library.
    #[verifier::external_body]
    fn zeros(len: usize) -> (v: Self)
        ensures
            counts_in(v) == Seq::new(len as nat, |i: int| 0usize),
    {
        Self { counts: nalgebra::DVector::from_element(len, 0) }
    }

    /// Calls `Matrix::len`.
    ///
    /// Trusted: the result is the number of counts in the vector.
    #[verifier::external_body]
    fn vector_len(&self) -> (len: usize)
        ensures
            len == counts_in(*self).len(),
    {
        self.counts.len()
    }

    /// Reads one count through the vector's `Index<usize>`, which panics
    /// past the end: hence the bound.
    ///
    /// Trusted: the result is the count at place `i`.
    #[verifier::external_body]
    fn get(&self, i: usize) -> (count: usize)
        requires
            i < counts_in(*self).len(),
        ensures
            count == counts_in(*self)[i as int],
    {
        self.counts[i]
    }

    /// Writes one count through the vector's `IndexMut<usize>`, which
    /// panics past the end: hence the bound.
    ///
    /// Trusted: the count at place `i` is `count` afterwards, and every
    /// other count is what it was.
    #[verifier::external_body]
    fn set(&mut self, i: usize, count: usize)
        requires
            i < counts_in(*old(self)).len(),
        ensures
            counts_in(*final(self)) == counts_in(*old(self)).update(i as int, count),
    {
        self.counts[i] = count;
    }

    /// How many counts there are.
    pub fn len(&self) -> (len: usize)
        ensures
            len == self@.len(),
    {
        self.vector_len()
    }

    /// The count at place `i`, or nothing past the end.
    pub fn count_at(&self, i: usize) -> (count: Option<usize>)
        ensures
            count == (if i < self@.len() {
                Some(self@[i as int])
            } else {
                None
            }),
    {
        if i < self.vector_len() {
            Some(self.get(i))
        } else {
            None
        }
    }
}

/// How many of the ratings stand in row `row`.
pub open spec fn ratings_in_row<T>(ratings: Seq<Rating<T>>, row: Index) -> nat
    decreases ratings.len(),
{
    if ratings.len() == 0 {
        0
    } else {
        ratings_in_row(ratings.drop_last(), row) + (if ratings.last().animeidx == row {
            1nat
        } else {
            0nat
        })
    }
}

/// How many of the ratings stand in column `column`.
pub open spec fn ratings_in_column<T>(ratings: Seq<Rating<T>>, column: Index) -> nat
    decreases ratings.len(),
{
    if ratings.len() == 0 {
        0
    } else {
        ratings_in_column(ratings.drop_last(), column) + (if ratings.last().useridx == column {
            1nat
        } else {
            0nat
        })
    }
}

/// No row holds more ratings than there are, and no column either.
pub proof fn lemma_counts_bounded<T>(ratings: Seq<Rating<T>>, index: Index)
    ensures
        ratings_in_row(ratings, index) <= ratings.len(),
        ratings_in_column(ratings, index) <= ratings.len(),
    decreases ratings.len(),
{
    if ratings.len() > 0 {
        lemma_counts_bounded(ratings.drop_last(), index);
    }
}

/// The counts of all rows add up to the number of ratings, provided that
/// every rating stands in one of the `rows` rows.
pub proof fn lemma_row_counts_add_up<T>(ratings: Seq<Rating<T>>, rows: nat)
    requires
        rows <= usize::MAX,
        forall|i: int| 0 <= i < ratings.len() ==> (#[trigger] ratings[i]).animeidx < rows,
    ensures
        sum_of(Seq::new(rows, |r: int| ratings_in_row(ratings, r as Index))) == ratings.len(),
    decreases ratings.len(),
{
    let counts = Seq::new(rows, |r: int| ratings_in_row(ratings, r as Index));
    if ratings.len() == 0 {
        lemma_sum_of_zeros(counts);
    } else {
        let rest = ratings.drop_last();
        let before = Seq::new(rows, |r: int| ratings_in_row(rest, r as Index));
        let hit = ratings.last().animeidx as int;
        assert(ratings[ratings.len() - 1].animeidx < rows);
        assert forall|i: int| 0 <= i < rest.len() implies (#[trigger] rest[i]).animeidx < rows by {
            assert(rest[i] == ratings[i]);
        }
        lemma_row_counts_add_up(rest, rows);
        assert(counts =~= before.update(hit, before[hit] + 1));
        lemma_sum_of_update(before, hit, before[hit] + 1);
    }
}

/// The counts of all columns add up to the number of ratings, provided
/// that every rating stands in one of the `columns` columns.
pub proof fn lemma_column_counts_add_up<T>(ratings: Seq<Rating<T>>, columns: nat)
    requires
        columns <= usize::MAX,
        forall|i: int| 0 <= i < ratings.len() ==> (#[trigger] ratings[i]).useridx < columns,
    ensures
        sum_of(Seq::new(columns, |c: int| ratings_in_column(ratings, c as Index))) == ratings.len(),
    decreases ratings.len(),
{
    let counts = Seq::new(columns, |c: int| ratings_in_column(ratings, c as Index));
    if ratings.len() == 0 {
        lemma_sum_of_zeros(counts);
    } else {
        let rest = ratings.drop_last();
        let before = Seq::new(columns, |c: int| ratings_in_column(rest, c as Index));
        let hit = ratings.last().useridx as int;
        assert(ratings[ratings.len() - 1].useridx < columns);
        assert forall|i: int| 0 <= i < rest.len() implies (#[trigger] rest[i]).useridx < columns by {
            assert(rest[i] == ratings[i]);
        }
        lemma_column_counts_add_up(rest, columns);
        assert(counts =~= before.update(hit, before[hit] + 1));
        lemma_sum_of_update(before, hit, before[hit] + 1);
    }
}

/// The sum of a sequence of counts.
pub open spec fn sum_of(counts: Seq<nat>) -> nat
    decreases counts.len(),
{
    if counts.len() == 0 {
        0
    } else {
        sum_of(counts.drop_last()) + counts.last()
    }
}

proof fn lemma_sum_of_zeros(counts: Seq<nat>)
    requires
        forall|i: int| 0 <= i < counts.len() ==> counts[i] == 0,
    ensures
        sum_of(counts) == 0,
    decreases counts.len(),
{
    if counts.len() > 0 {
        lemma_sum_of_zeros(counts.drop_last());
    }
}

proof fn lemma_sum_of_update(counts: Seq<nat>, i: int, value: nat)
    requires
        0 <= i < counts.len(),
    ensures
        sum_of(counts.update(i, value)) + counts[i] == sum_of(counts) + value,
    decreases counts.len(),
{
    let updated = counts.update(i, value);
    if i == counts.len() - 1 {
        assert(updated.drop_last() =~= counts.drop_last());
    } else {
        assert(updated.drop_last() =~= counts.drop_last().update(i, value));
        lemma_sum_of_update(counts.drop_last(), i, value);
    }
}

/// Counts the ratings of each item.
///
/// The result has one count per row of the container: the number of
/// ratings that stand in that row.
pub fn anime_rating_counts<T>(container: &RatingContainer<T>) -> (counts: RatingCounts)
    ensures
        counts@.len() == container.anime_ids().len(),
        forall|row: Index|
            row < counts@.len() ==> #[trigger] counts@[row as int] == ratings_in_row(container@, row),
{
    let ratings = container.ratings();
    let rows = container.animes().len();
    let mut counts = RatingCounts::zeros(rows);
    let mut n: usize = 0;
    while n < ratings.len()
        invariant
            n <= ratings.len(),
            ratings@ == container@,
            container.well_formed(),
            rows == container.anime_ids().len(),
            counts@.len() == rows,
            forall|row: Index|
                row < rows ==> #[trigger] counts@[row as int] == ratings_in_row(
                    ratings@.take(n as int),
                    row,
                ),
        decreases ratings.len() - n,
    {
        let row = ratings[n].animeidx;
        let seen = counts.get(row);
        proof {
            lemma_counts_bounded(ratings@.take(n as int), row);
            assert(ratings@.take(n + 1).drop_last() =~= ratings@.take(n as int));
        }
        counts.set(row, seen + 1);
        n = n + 1;
    }
    proof {
        assert(ratings@.take(ratings@.len() as int) =~= ratings@);
    }
    counts
}

/// Counts the ratings of each user.
///
/// The result has one count per column of the container: the number of
/// ratings that stand in that column.
pub fn user_rating_counts<T>(container: &RatingContainer<T>) -> (counts: RatingCounts)
    ensures
        counts@.len() == container.user_ids().len(),
        forall|column: Index|
            column < counts@.len() ==> #[trigger] counts@[column as int] == ratings_in_column(
                container@,
                column,
            ),
{
    let ratings = container.ratings();
    let columns = container.users().len();
    let mut counts = RatingCounts::zeros(columns);
    let mut n: usize = 0;
    while n < ratings.len()
        invariant
            n <= ratings.len(),
            ratings@ == container@,
            container.well_formed(),
            columns == container.user_ids().len(),
            counts@.len() == columns,
            forall|column: Index|
                column < columns ==> #[trigger] counts@[column as int] == ratings_in_column(
                    ratings@.take(n as int),
                    column,
                ),
        decreases ratings.len() - n,
    {
        let column = ratings[n].useridx;
        let seen = counts.get(column);
        proof {
            lemma_counts_bounded(ratings@.take(n as int), column);
            assert(ratings@.take(n + 1).drop_last() =~= ratings@.take(n as int));
        }
        counts.set(column, seen + 1);
        n = n + 1;
    }
    proof {
        assert(ratings@.take(ratings@.len() as int) =~= ratings@);
    }
    counts
}

} // verus!
