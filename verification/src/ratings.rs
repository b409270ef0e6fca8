//! The rating container: external ids on the outside, dense matrix
//! coordinates on the inside.

use std::collections::HashMap;
use std::collections::HashSet;
use vstd::prelude::*;
use vstd::std_specs::iter::IteratorSpec;
use crate::sorting::{
    cell_ordered, lemma_ascending_distinct, lemma_reordered_distinct, sort_ids, sort_ratings,
    strictly_ascending,
};

verus! {

broadcast use vstd::std_specs::hash::group_hash_axioms;

/// External identifier of an item or of a user.
pub type Id = u64;

/// Dense row or column index.
pub type Index = usize;

/// An item that can be rated.
pub struct Anime {
    pub id: Id,
}

impl Anime {
    pub fn new(id: Id) -> (anime: Self)
        ensures
            anime.id == id,
    {
        Self { id }
    }
}

/// Somebody who rates items.
pub struct User {
    pub id: Id,
}

impl User {
    pub fn new(id: Id) -> (user: Self)
        ensures
            user.id == id,
    {
        Self { id }
    }
}

/// One rating in dense coordinates: the item's row, the user's column and
/// the value, which the container carries and never inspects.
pub struct Rating<T> {
    pub animeidx: Index,
    pub useridx: Index,
    pub rating: T,
}

impl<T> Rating<T> {
    /// The matrix cell that this rating fills.
    pub fn cell(&self) -> (cell: (Index, Index))
        ensures
            cell == (self.animeidx, self.useridx),
    {
        (self.animeidx, self.useridx)
    }
}

/// The item ids that occur in a sequence of `(item, user, value)` triples.
pub open spec fn anime_ids_of<T>(entries: Seq<(Id, Id, T)>) -> Set<Id> {
    entries.map_values(|e: (Id, Id, T)| e.0).to_set()
}

/// The user ids that occur in a sequence of `(item, user, value)` triples.
pub open spec fn user_ids_of<T>(entries: Seq<(Id, Id, T)>) -> Set<Id> {
    entries.map_values(|e: (Id, Id, T)| e.1).to_set()
}

/// Collects `(item, user, value)` triples in any order and turns them into
/// a [`RatingContainer`].
pub struct RatingContainerBuilder<T> {
    ratings: Vec<(Id, Id, T)>,
    anime_ids: HashSet<Id>,
    user_ids: HashSet<Id>,
}

impl<T> View for RatingContainerBuilder<T> {
    type V = Seq<(Id, Id, T)>;

    /// The triples added so far, in the order of their arrival.
    closed spec fn view(&self) -> Seq<(Id, Id, T)> {
        self.ratings@
    }
}

impl<T> RatingContainerBuilder<T> {
    /// The two id sets hold exactly the ids of the recorded triples.
    #[verifier::type_invariant]
    spec fn inv(&self) -> bool {
        &&& self.anime_ids@ == anime_ids_of(self.ratings@)
        &&& self.user_ids@ == user_ids_of(self.ratings@)
    }

    pub fn new() -> (builder: Self)
        ensures
            builder@ == Seq::<(Id, Id, T)>::empty(),
    {
        let ratings: Vec<(Id, Id, T)> = Vec::new();
        proof {
            assert(anime_ids_of(ratings@) =~= Set::<Id>::empty());
            assert(user_ids_of(ratings@) =~= Set::<Id>::empty());
        }
        Self { ratings, anime_ids: HashSet::new(), user_ids: HashSet::new() }
    }

    /// Records one rating.
    pub fn add_rating(&mut self, animeid: Id, userid: Id, rating: T)
        ensures
            final(self)@ == old(self)@.push((animeid, userid, rating)),
    {
        // The three fields change together: the builder is emptied, what it
        // held is extended, and the builder is filled again in one piece.
        let mut recorded = Self::new();
        core::mem::swap(self, &mut recorded);
        proof {
            use_type_invariant(&recorded);
            lemma_ids_of_push(recorded.ratings@, (animeid, userid, rating));
        }
        let mut ratings = recorded.ratings;
        let mut anime_ids = recorded.anime_ids;
        let mut user_ids = recorded.user_ids;
        anime_ids.insert(animeid);
        ratings.push((animeid, userid, rating));
        user_ids.insert(userid);
        *self = Self { ratings, anime_ids, user_ids };
    }
}

/// Recording one more triple adds its two ids to the id sets, and nothing else.
proof fn lemma_ids_of_push<T>(entries: Seq<(Id, Id, T)>, e: (Id, Id, T))
    ensures
        anime_ids_of(entries.push(e)) == anime_ids_of(entries).insert(e.0),
        user_ids_of(entries.push(e)) == user_ids_of(entries).insert(e.1),
{
    let by_anime = |e: (Id, Id, T)| e.0;
    let by_user = |e: (Id, Id, T)| e.1;
    assert(entries.push(e).map_values(by_anime) =~= entries.map_values(by_anime).push(e.0));
    assert(entries.push(e).map_values(by_user) =~= entries.map_values(by_user).push(e.1));
    entries.map_values(by_anime).lemma_push_to_set_commute(e.0);
    entries.map_values(by_user).lemma_push_to_set_commute(e.1);
}

/// The ids of a hash set, each once, in ascending order.
fn sorted_ids(set: &HashSet<Id>) -> (ids: Vec<Id>)
    ensures
        strictly_ascending(ids@),
        ids@.to_set() == set@,
        ids@.len() == set@.len(),
{
    let mut ids: Vec<Id> = Vec::new();
    for id in it: set.iter()
        invariant
            ids@.len() == it.index(),
            forall|i: int| 0 <= i < ids@.len() ==> ids@[i] == *it.seq()[i],
    {
        ids.push(*id);
    }
    proof {
        let keys = set.iter().remaining();
        assert(ids@ =~= keys.unref());
        assert(ids@.no_duplicates()) by {
            assert forall|i: int, j: int|
                0 <= i < ids@.len() && 0 <= j < ids@.len() && i != j implies ids@[i] != ids@[j] by {
                assert(keys[i] != keys[j]);
            }
        }
    }
    let ghost unsorted = ids@;
    sort_ids(&mut ids);
    proof {
        lemma_reordered_distinct(unsorted, ids@);
        lemma_ascending_distinct(ids@);
    }
    ids
}

/// The row (or column) of `id` in a list of ids, if the list holds it.
pub open spec fn index_of_id(ids: Seq<Id>, id: Id) -> Option<Index> {
    if ids.contains(id) {
        Some(ids.index_of(id) as Index)
    } else {
        None
    }
}

/// The id that stands at row (or column) `index`, if there is such a row.
pub open spec fn id_at_index(ids: Seq<Id>, index: Index) -> Option<Id> {
    if index < ids.len() {
        Some(ids[index as int])
    } else {
        None
    }
}

/// A triple in dense coordinates: each id replaced by its place in the
/// list of item ids and of user ids.
pub open spec fn dense<T>(e: (Id, Id, T), anime_ids: Seq<Id>, user_ids: Seq<Id>) -> Rating<T> {
    Rating {
        animeidx: anime_ids.index_of(e.0) as Index,
        useridx: user_ids.index_of(e.1) as Index,
        rating: e.2,
    }
}

/// A whole sequence of triples in dense coordinates, order kept.
pub open spec fn dense_all<T>(entries: Seq<(Id, Id, T)>, anime_ids: Seq<Id>, user_ids: Seq<Id>) -> Seq<
    Rating<T>,
> {
    entries.map_values(|e: (Id, Id, T)| dense(e, anime_ids, user_ids))
}

/// What the two maps of one axis have to say about a list of ids: the
/// first sends each id to its place, the second each place to its id, and
/// neither knows anything else.
spec fn maps_mirror(ids: Seq<Id>, to_index: Map<Id, Index>, to_id: Map<Index, Id>) -> bool {
    &&& forall|id: Id| #[trigger] to_index.contains_key(id) <==> ids.contains(id)
    &&& forall|id: Id| #[trigger]
        to_index.contains_key(id) ==> to_index[id] < ids.len() && ids[to_index[id] as int] == id
    &&& forall|i: Index| #[trigger] to_id.contains_key(i) <==> i < ids.len()
    &&& forall|i: Index| #[trigger] to_id.contains_key(i) ==> to_id[i] == ids[i as int]
}

/// A densely indexed, immutable set of ratings.
///
/// Item ids and user ids are listed in strictly ascending order; a rating
/// names its item and its user by their places in those lists, and the
/// ratings are grouped by item and, within one item, ordered by user.
pub struct RatingContainer<T> {
    ratings: Vec<Rating<T>>,
    animes: Vec<Anime>,
    users: Vec<User>,
    anime2row: HashMap<Id, Index>,
    row2anime: HashMap<Index, Id>,
    user2column: HashMap<Id, Index>,
    column2user: HashMap<Index, Id>,
}

impl<T> View for RatingContainer<T> {
    type V = Seq<Rating<T>>;

    /// The ratings, in the order in which the container keeps them.
    closed spec fn view(&self) -> Seq<Rating<T>> {
        self.ratings@
    }
}

impl<T> RatingContainer<T> {
    /// The item ids, by row.
    pub closed spec fn anime_ids(&self) -> Seq<Id> {
        self.animes@.map_values(|a: Anime| a.id)
    }

    /// The user ids, by column.
    pub closed spec fn user_ids(&self) -> Seq<Id> {
        self.users@.map_values(|u: User| u.id)
    }

    /// What holds of every container: both id lists ascend strictly, every
    /// rating points into them, and the ratings are ordered by row, then by
    /// column.
    pub open spec fn well_formed(&self) -> bool {
        &&& strictly_ascending(self.anime_ids())
        &&& strictly_ascending(self.user_ids())
        &&& forall|i: int|
            0 <= i < self@.len() ==> (#[trigger] self@[i]).animeidx < self.anime_ids().len()
                && self@[i].useridx < self.user_ids().len()
        &&& cell_ordered(self@)
    }

    /// Both id lists are short enough for every place in them to be an
    /// `Index`.
    pub proof fn lemma_indexable(self)
        ensures
            self.anime_ids().len() <= usize::MAX,
            self.user_ids().len() <= usize::MAX,
            self@.len() <= usize::MAX,
    {
        assert(self.animes@.len() == self.animes.len());
        assert(self.users@.len() == self.users.len());
        assert(self.ratings@.len() == self.ratings.len());
    }

    /// The lookups of a container undo each other, for items and for
    /// users: the id in the row of a known id is that id, and the row of
    /// the id in a row is that row; likewise for columns.
    pub proof fn lemma_lookups_are_inverse(self)
        requires
            self.well_formed(),
        ensures
            forall|row: Index|
                (#[trigger] id_at_index(self.anime_ids(), row)).is_some() ==> index_of_id(
                    self.anime_ids(),
                    id_at_index(self.anime_ids(), row).unwrap(),
                ) == Some(row),
            forall|id: Id|
                (#[trigger] index_of_id(self.anime_ids(), id)).is_some() ==> id_at_index(
                    self.anime_ids(),
                    index_of_id(self.anime_ids(), id).unwrap(),
                ) == Some(id),
            forall|column: Index|
                (#[trigger] id_at_index(self.user_ids(), column)).is_some() ==> index_of_id(
                    self.user_ids(),
                    id_at_index(self.user_ids(), column).unwrap(),
                ) == Some(column),
            forall|id: Id|
                (#[trigger] index_of_id(self.user_ids(), id)).is_some() ==> id_at_index(
                    self.user_ids(),
                    index_of_id(self.user_ids(), id).unwrap(),
                ) == Some(id),
    {
        self.lemma_indexable();
        lemma_places_and_ids(self.anime_ids());
        lemma_places_and_ids(self.user_ids());
    }

    /// A container that holds no triples knows nobody and nothing.
    pub proof fn lemma_empty(self)
        requires
            self.holds(Seq::<(Id, Id, T)>::empty()),
        ensures
            self@.len() == 0,
            self.anime_ids().len() == 0,
            self.user_ids().len() == 0,
            forall|id: Id| index_of_id(self.anime_ids(), id).is_none(),
            forall|id: Id| index_of_id(self.user_ids(), id).is_none(),
    {
        let entries = Seq::<(Id, Id, T)>::empty();
        assert(anime_ids_of(entries) =~= Set::<Id>::empty());
        assert(user_ids_of(entries) =~= Set::<Id>::empty());
        assert(dense_all(entries, self.anime_ids(), self.user_ids()) =~= Seq::<Rating<T>>::empty());
        vstd::seq_lib::to_multiset_len(self@);
        vstd::seq_lib::to_multiset_len(Seq::<Rating<T>>::empty());
    }

    /// Whether the container holds exactly the given triples: each item
    /// id and each user id of the triples is listed once, and the ratings
    /// are the triples in dense coordinates, each as often as it is given.
    pub open spec fn holds(&self, entries: Seq<(Id, Id, T)>) -> bool {
        &&& self.well_formed()
        &&& self.anime_ids().to_set() == anime_ids_of(entries)
        &&& self.anime_ids().len() == anime_ids_of(entries).len()
        &&& self.user_ids().to_set() == user_ids_of(entries)
        &&& self.user_ids().len() == user_ids_of(entries).len()
        &&& self@.to_multiset() == dense_all(entries, self.anime_ids(), self.user_ids()).to_multiset()
    }

    #[verifier::type_invariant]
    spec fn inv(&self) -> bool {
        &&& self.well_formed()
        &&& maps_mirror(self.anime_ids(), self.anime2row@, self.row2anime@)
        &&& maps_mirror(self.user_ids(), self.user2column@, self.column2user@)
    }

    /// The ratings, ordered by row and then by column.
    pub fn ratings(&self) -> (ratings: &Vec<Rating<T>>)
        ensures
            ratings@ == self@,
            self.well_formed(),
    {
        proof {
            use_type_invariant(self);
        }
        &self.ratings
    }

    /// The items, by row.
    pub fn animes(&self) -> (animes: &Vec<Anime>)
        ensures
            animes@.len() == self.anime_ids().len(),
            forall|i: int| 0 <= i < animes@.len() ==> (#[trigger] animes@[i]).id == self.anime_ids()[i],
            self.well_formed(),
    {
        proof {
            use_type_invariant(self);
        }
        &self.animes
    }

    /// The users, by column.
    pub fn users(&self) -> (users: &Vec<User>)
        ensures
            users@.len() == self.user_ids().len(),
            forall|i: int| 0 <= i < users@.len() ==> (#[trigger] users@[i]).id == self.user_ids()[i],
            self.well_formed(),
    {
        proof {
            use_type_invariant(self);
        }
        &self.users
    }

    /// The row of the item with this id.
    pub fn anime2row(&self, animeid: Id) -> (row: Option<Index>)
        ensures
            row == index_of_id(self.anime_ids(), animeid),
            match row {
                Some(r) => r < self.anime_ids().len() && self.anime_ids()[r as int] == animeid,
                None => !self.anime_ids().contains(animeid),
            },
    {
        proof {
            use_type_invariant(self);
            lemma_index_of_id(self.anime_ids());
        }
        match self.anime2row.get(&animeid) {
            Some(r) => Some(*r),
            None => None,
        }
    }

    /// The id of the item in this row.
    pub fn row2anime(&self, rowidx: Index) -> (id: Option<Id>)
        ensures
            id == id_at_index(self.anime_ids(), rowidx),
    {
        proof {
            use_type_invariant(self);
        }
        match self.row2anime.get(&rowidx) {
            Some(a) => Some(*a),
            None => None,
        }
    }

    /// The column of the user with this id.
    pub fn user2column(&self, userid: Id) -> (column: Option<Index>)
        ensures
            column == index_of_id(self.user_ids(), userid),
            match column {
                Some(c) => c < self.user_ids().len() && self.user_ids()[c as int] == userid,
                None => !self.user_ids().contains(userid),
            },
    {
        proof {
            use_type_invariant(self);
            lemma_index_of_id(self.user_ids());
        }
        match self.user2column.get(&userid) {
            Some(c) => Some(*c),
            None => None,
        }
    }

    /// The id of the user in this column.
    pub fn column2user(&self, columnidx: Index) -> (id: Option<Id>)
        ensures
            id == id_at_index(self.user_ids(), columnidx),
    {
        proof {
            use_type_invariant(self);
        }
        match self.column2user.get(&columnidx) {
            Some(u) => Some(*u),
            None => None,
        }
    }
}

/// In a strictly ascending list every id has exactly one place, and
/// `index_of_id` names it.
pub proof fn lemma_index_of_id(ids: Seq<Id>)
    requires
        strictly_ascending(ids),
    ensures
        ids.no_duplicates(),
        forall|i: int| 0 <= i < ids.len() ==> index_of_id(ids, #[trigger] ids[i]) == Some(i as Index),
        forall|id: Id| !ids.contains(id) ==> index_of_id(ids, id).is_none(),
{
    assert forall|i: int| 0 <= i < ids.len() implies index_of_id(ids, #[trigger] ids[i]) == Some(
        i as Index,
    ) by {
        let id = ids[i];
        assert(ids.contains(id));
        let k = ids.index_of(id);
        assert(0 <= k < ids.len() && ids[k] == id);
        if k < i {
            assert(ids[k] < ids[i]);
        }
        if i < k {
            assert(ids[i] < ids[k]);
        }
    }
}

/// The triple that a rating stands for: its row and column replaced by
/// the ids that are listed there.
pub open spec fn sparse<T>(r: Rating<T>, anime_ids: Seq<Id>, user_ids: Seq<Id>) -> (Id, Id, T) {
    (anime_ids[r.animeidx as int], user_ids[r.useridx as int], r.rating)
}

/// A container that holds the given triples holds nothing else and loses
/// nothing: there are as many ratings as triples, every rating stands for
/// one of the triples, with the ids and the value of that triple, and
/// every triple is found among the ratings.
pub proof fn lemma_ratings_are_the_entries<T>(container: RatingContainer<T>, entries: Seq<(Id, Id, T)>)
    requires
        container.holds(entries),
    ensures
        container@.len() == entries.len(),
        forall|i: int|
            0 <= i < container@.len() ==> entries.contains(
                sparse(#[trigger] container@[i], container.anime_ids(), container.user_ids()),
            ),
        forall|j: int|
            0 <= j < entries.len() ==> container@.contains(
                dense(#[trigger] entries[j], container.anime_ids(), container.user_ids()),
            ),
{
    broadcast use vstd::seq_lib::to_multiset_contains;
    container.lemma_indexable();
    let animes = container.anime_ids();
    let users = container.user_ids();
    let resolved = dense_all(entries, animes, users);
    vstd::seq_lib::to_multiset_len(container@);
    vstd::seq_lib::to_multiset_len(resolved);
    lemma_index_of_id(animes);
    lemma_index_of_id(users);
    assert forall|i: int| 0 <= i < container@.len() implies entries.contains(
        sparse(#[trigger] container@[i], animes, users),
    ) by {
        let r = container@[i];
        assert(container@.contains(r));
        assert(container@.to_multiset().count(r) > 0);
        assert(resolved.to_multiset().count(r) > 0);
        assert(resolved.contains(r));
        let j = resolved.index_of(r);
        assert(resolved[j] == dense(entries[j], animes, users));
        lemma_ids_of_contain(entries, j);
        assert(animes.to_set().contains(entries[j].0));
        assert(users.to_set().contains(entries[j].1));
        assert(animes.contains(entries[j].0));
        assert(users.contains(entries[j].1));
        let a = animes.index_of(entries[j].0);
        let u = users.index_of(entries[j].1);
        assert(animes[a] == entries[j].0);
        assert(users[u] == entries[j].1);
        assert(sparse(r, animes, users) == entries[j]);
    }
    assert forall|j: int| 0 <= j < entries.len() implies container@.contains(
        dense(#[trigger] entries[j], animes, users),
    ) by {
        let r = dense(entries[j], animes, users);
        assert(resolved[j] == r);
        assert(resolved.contains(r));
        assert(resolved.to_multiset().count(r) > 0);
        assert(container@.to_multiset().count(r) > 0);
    }
}

/// In a strictly ascending list that is short enough to be indexed,
/// looking an id up and looking a place up undo each other: the place of
/// the id at place `i` is `i`, and the id at the place of a listed id is
/// that id.
pub proof fn lemma_places_and_ids(ids: Seq<Id>)
    requires
        strictly_ascending(ids),
        ids.len() <= usize::MAX,
    ensures
        forall|i: Index|
            (#[trigger] id_at_index(ids, i)).is_some() ==> index_of_id(ids, id_at_index(ids, i).unwrap())
                == Some(i),
        forall|id: Id|
            (#[trigger] index_of_id(ids, id)).is_some() ==> id_at_index(
                ids,
                index_of_id(ids, id).unwrap(),
            ) == Some(id),
{
    lemma_index_of_id(ids);
    assert forall|id: Id| (#[trigger] index_of_id(ids, id)).is_some() implies id_at_index(
        ids,
        index_of_id(ids, id).unwrap(),
    ) == Some(id) by {
        assert(ids.contains(id));
        let k = ids.index_of(id);
        assert(0 <= k < ids.len() && ids[k] == id);
    }
}


/// The two maps of one axis, made from its ascending list of ids.
fn index_maps(ids: &Vec<Id>) -> (maps: (HashMap<Id, Index>, HashMap<Index, Id>))
    requires
        strictly_ascending(ids@),
    ensures
        maps_mirror(ids@, maps.0@, maps.1@),
{
    let mut to_index: HashMap<Id, Index> = HashMap::new();
    let mut to_id: HashMap<Index, Id> = HashMap::new();
    let mut i: usize = 0;
    while i < ids.len()
        invariant
            i <= ids.len(),
            strictly_ascending(ids@),
            maps_mirror(ids@.take(i as int), to_index@, to_id@),
        decreases ids.len() - i,
    {
        let id = ids[i];
        proof {
            let before = ids@.take(i as int);
            let after = ids@.take(i + 1);
            assert(after =~= before.push(id));
            assert(!before.contains(id)) by {
                if before.contains(id) {
                    let k = before.index_of(id);
                    assert(ids@[k] < ids@[i as int]);
                }
            }
            assert forall|other: Id| after.contains(other) <==> (other == id || before.contains(
                other,
            )) by {
                if before.contains(other) {
                    let k = before.index_of(other);
                    assert(after[k] == other);
                }
                if other == id {
                    assert(after[i as int] == id);
                }
            }
        }
        to_index.insert(id, i);
        to_id.insert(i, id);
        i = i + 1;
    }
    proof {
        assert(ids@.take(ids@.len() as int) =~= ids@);
    }
    (to_index, to_id)
}

/// The items that carry the given ids, in the same order.
fn animes_with(ids: &Vec<Id>) -> (animes: Vec<Anime>)
    ensures
        animes@.map_values(|a: Anime| a.id) == ids@,
{
    let mut animes: Vec<Anime> = Vec::new();
    let mut i: usize = 0;
    while i < ids.len()
        invariant
            i <= ids.len(),
            animes@.len() == i,
            forall|k: int| 0 <= k < i ==> (#[trigger] animes@[k]).id == ids@[k],
        decreases ids.len() - i,
    {
        animes.push(Anime::new(ids[i]));
        i = i + 1;
    }
    proof {
        assert(animes@.map_values(|a: Anime| a.id) =~= ids@);
    }
    animes
}

/// The users that carry the given ids, in the same order.
fn users_with(ids: &Vec<Id>) -> (users: Vec<User>)
    ensures
        users@.map_values(|u: User| u.id) == ids@,
{
    let mut users: Vec<User> = Vec::new();
    let mut i: usize = 0;
    while i < ids.len()
        invariant
            i <= ids.len(),
            users@.len() == i,
            forall|k: int| 0 <= k < i ==> (#[trigger] users@[k]).id == ids@[k],
        decreases ids.len() - i,
    {
        users.push(User::new(ids[i]));
        i = i + 1;
    }
    proof {
        assert(users@.map_values(|u: User| u.id) =~= ids@);
    }
    users
}

/// Every id of a triple is among the ids of the sequence that holds it.
proof fn lemma_ids_of_contain<T>(entries: Seq<(Id, Id, T)>, i: int)
    requires
        0 <= i < entries.len(),
    ensures
        anime_ids_of(entries).contains(entries[i].0),
        user_ids_of(entries).contains(entries[i].1),
{
    let by_anime = entries.map_values(|e: (Id, Id, T)| e.0);
    let by_user = entries.map_values(|e: (Id, Id, T)| e.1);
    assert(by_anime[i] == entries[i].0);
    assert(by_user[i] == entries[i].1);
    assert(by_anime.contains(entries[i].0));
    assert(by_user.contains(entries[i].1));
}

impl<T> RatingContainerBuilder<T> {
    /// Turns the recorded triples into a container.
    ///
    /// The container lists each item id and each user id of the triples
    /// once, in ascending order, and holds the triples themselves in dense
    /// coordinates: the same ratings, each as often as it was added, now
    /// ordered by row and then by column.
    pub fn build(self) -> (container: RatingContainer<T>)
        ensures
            container.holds(self@),
    {
        proof {
            use_type_invariant(&self);
        }
        let animeid_list = sorted_ids(&self.anime_ids);
        let (anime2row, row2anime) = index_maps(&animeid_list);
        let userid_list = sorted_ids(&self.user_ids);
        let (user2column, column2user) = index_maps(&userid_list);
        let animes = animes_with(&animeid_list);
        let users = users_with(&userid_list);

        let ghost entries = self.ratings@;
        let mut ratings: Vec<Rating<T>> = Vec::new();
        proof {
            lemma_index_of_id(animeid_list@);
            lemma_index_of_id(userid_list@);
        }
        for entry in it: self.ratings
            invariant
                it.seq() == entries,
                animeid_list@.to_set() == anime_ids_of(entries),
                userid_list@.to_set() == user_ids_of(entries),
                strictly_ascending(animeid_list@),
                strictly_ascending(userid_list@),
                maps_mirror(animeid_list@, anime2row@, row2anime@),
                maps_mirror(userid_list@, user2column@, column2user@),
                ratings@ == dense_all(entries.take(it.index() as int), animeid_list@, userid_list@),
                forall|k: int|
                    0 <= k < ratings@.len() ==> (#[trigger] ratings@[k]).animeidx < animeid_list@.len()
                        && ratings@[k].useridx < userid_list@.len(),
        {
            let (animeid, userid, rating) = entry;
            proof {
                lemma_ids_of_contain(entries, it.index() as int);
                assert(animeid_list@.contains(animeid));
                assert(userid_list@.contains(userid));
                lemma_index_of_id(animeid_list@);
                lemma_index_of_id(userid_list@);
            }
            let animeidx = match anime2row.get(&animeid) {
                Some(r) => *r,
                None => vstd::pervasive::unreached(),
            };
            let useridx = match user2column.get(&userid) {
                Some(c) => *c,
                None => vstd::pervasive::unreached(),
            };
            proof {
                let a = animeid_list@.index_of(animeid);
                let u = userid_list@.index_of(userid);
                assert(index_of_id(animeid_list@, animeid_list@[animeidx as int]) == Some(animeidx));
                assert(index_of_id(userid_list@, userid_list@[useridx as int]) == Some(useridx));
                assert(entries.take(it.index() + 1) =~= entries.take(it.index() as int).push(
                    (animeid, userid, rating),
                ));
                assert(dense_all(entries.take(it.index() + 1), animeid_list@, userid_list@)
                    =~= dense_all(entries.take(it.index() as int), animeid_list@, userid_list@).push(
                    dense((animeid, userid, rating), animeid_list@, userid_list@),
                ));
            }
            ratings.push(Rating { animeidx, useridx, rating });
        }
        proof {
            assert(entries.take(entries.len() as int) =~= entries);
        }
        let ghost unsorted = ratings@;
        sort_ratings(&mut ratings);
        proof {
            broadcast use vstd::seq_lib::to_multiset_contains;
            assert forall|k: int| 0 <= k < ratings@.len() implies (#[trigger] ratings@[k]).animeidx
                < animeid_list@.len() && ratings@[k].useridx < userid_list@.len() by {
                let r = ratings@[k];
                assert(ratings@.contains(r));
                assert(ratings@.to_multiset().count(r) > 0);
                assert(unsorted.to_multiset().count(r) > 0);
                assert(unsorted.contains(r));
                let j = unsorted.index_of(r);
                assert(unsorted[j] == r);
            }
        }
        RatingContainer { ratings, animes, users, anime2row, row2anime, user2column, column2user }
    }
}

} // verus!
