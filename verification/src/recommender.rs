//! The rules by which queries are answered from a trained model: which
//! error a query ends in, which item each predicted rating belongs to,
//! and which neighbours count as similar.

use vstd::prelude::*;
use crate::ratings::{Id, Index, RatingContainer, index_of_id};

verus! {

/// Why a query could not be answered.
#[derive(Clone, Copy, Debug, PartialEq, Eq, Structural)]
pub enum PredictionError {
    /// Something went wrong inside the engine.
    Unknown,
    /// No model has been trained yet.
    NotInitialized,
    /// The model knows no user with the given id.
    UnknownUser,
    /// The model knows no item with the given id.
    UnknownAnime,
}

impl PredictionError {
    /// The text that describes the error.
    pub open spec fn text(self) -> Seq<char> {
        match self {
            PredictionError::Unknown => "An unknown error occured during prediction."@,
            PredictionError::NotInitialized =>
                "RecommendationEngine needs to be initialized by calling retrain() first."@,
            PredictionError::UnknownUser => "Couldn't find a user with this id"@,
            PredictionError::UnknownAnime => "Couldn't find an anime with this id"@,
        }
    }

    /// The status with which a web service answers a query that ended in
    /// this error: not found for an unknown id, server error otherwise.
    pub open spec fn status(self) -> u16 {
        match self {
            PredictionError::UnknownUser | PredictionError::UnknownAnime => 404,
            PredictionError::Unknown | PredictionError::NotInitialized => 500,
        }
    }

    /// The text that describes the error.
    pub fn message(&self) -> (message: String)
        ensures
            message@ == self.text(),
    {
        match self {
            PredictionError::Unknown => "An unknown error occured during prediction.".to_owned(),
            PredictionError::NotInitialized =>
                "RecommendationEngine needs to be initialized by calling retrain() first.".to_owned(),
            PredictionError::UnknownUser => "Couldn't find a user with this id".to_owned(),
            PredictionError::UnknownAnime => "Couldn't find an anime with this id".to_owned(),
        }
    }

    /// The status with which a web service answers a query that ended in
    /// this error.
    pub fn http_status(&self) -> (status: u16)
        ensures
            status == self.status(),
    {
        match self {
            PredictionError::UnknownUser | PredictionError::UnknownAnime => 404,
            PredictionError::Unknown | PredictionError::NotInitialized => 500,
        }
    }
}

/// The rating that a user is predicted to give to an item.
pub struct UserRatingPrediction<T> {
    pub animeid: Id,
    pub rating: T,
}

pub type UserRatingPredictionResult<T> = Vec<UserRatingPrediction<T>>;

/// A user, and how similar they are to the user that was asked about.
pub struct SimilarUser<T> {
    pub userid: Id,
    pub similarity: T,
}

pub type SimilarUserResult<T> = Vec<SimilarUser<T>>;

/// An item, and how similar it is to the item that was asked about.
pub struct SimilarAnime<T> {
    pub animeid: Id,
    pub similarity: T,
}

pub type SimilarAnimeResult<T> = Vec<SimilarAnime<T>>;

/// The place of the model that queries are answered from: empty until
/// the first model is published, and from then on holding the model that
/// was published last.
pub struct EngineSlot<S> {
    model: Option<S>,
}

impl<S> View for EngineSlot<S> {
    type V = Option<S>;

    /// The model in the slot, if there is one.
    closed spec fn view(&self) -> Option<S> {
        self.model
    }
}

impl<S> EngineSlot<S> {
    /// An empty slot.
    pub fn new() -> (slot: Self)
        ensures
            slot@ == None::<S>,
    {
        EngineSlot { model: None }
    }

    /// Puts a model in the slot, in the place of the one that was there.
    pub fn publish(&mut self, model: S)
        ensures
            final(self)@ == Some(model),
    {
        self.model = Some(model);
    }

    /// The model that a query is answered from; a query that finds the
    /// slot empty ends in `NotInitialized`.
    pub fn model(&self) -> (model: Result<&S, PredictionError>)
        ensures
            match self@ {
                Some(current) => model == Ok::<&S, PredictionError>(&current),
                None => model == Err::<&S, PredictionError>(PredictionError::NotInitialized),
            },
    {
        match &self.model {
            Some(current) => Ok(current),
            None => Err(PredictionError::NotInitialized),
        }
    }
}

/// Where a query about a user ends: at the user's column, or in
/// `UnknownUser` if the ratings know no such user.
pub open spec fn user_place<T>(ratings: &RatingContainer<T>, userid: Id) -> Result<Index, PredictionError> {
    match index_of_id(ratings.user_ids(), userid) {
        Some(column) => Ok(column),
        None => Err(PredictionError::UnknownUser),
    }
}

/// Where a query about an item ends: at the item's row, or in
/// `UnknownAnime` if the ratings know no such item.
pub open spec fn anime_place<T>(ratings: &RatingContainer<T>, animeid: Id) -> Result<Index, PredictionError> {
    match index_of_id(ratings.anime_ids(), animeid) {
        Some(row) => Ok(row),
        None => Err(PredictionError::UnknownAnime),
    }
}

/// Finds the column of the user that a query asks about.
pub fn locate_user<T>(ratings: &RatingContainer<T>, userid: Id) -> (place: Result<Index, PredictionError>)
    ensures
        place == user_place(ratings, userid),
        place is Ok <==> ratings.user_ids().contains(userid),
        place matches Ok(column) ==> column < ratings.user_ids().len() && ratings.user_ids()[column as int]
            == userid,
{
    match ratings.user2column(userid) {
        Some(column) => Ok(column),
        None => Err(PredictionError::UnknownUser),
    }
}

/// Finds the row of the item that a query asks about.
pub fn locate_anime<T>(ratings: &RatingContainer<T>, animeid: Id) -> (place: Result<Index, PredictionError>)
    ensures
        place == anime_place(ratings, animeid),
        place is Ok <==> ratings.anime_ids().contains(animeid),
        place matches Ok(row) ==> row < ratings.anime_ids().len() && ratings.anime_ids()[row as int]
            == animeid,
{
    match ratings.anime2row(animeid) {
        Some(row) => Ok(row),
        None => Err(PredictionError::UnknownAnime),
    }
}

/// Pairs each predicted rating with the id of the item in its row.
///
/// There is one prediction per row, in the order of the rows. Predictions
/// that do not match the rows in number belong to another model, which is
/// an error inside the engine.
pub fn label_predictions<T, R>(container: &RatingContainer<T>, predictions: Vec<R>) -> (labelled:
    Result<UserRatingPredictionResult<R>, PredictionError>)
    ensures
        predictions@.len() != container.anime_ids().len() ==> labelled == Err::<
            UserRatingPredictionResult<R>,
            PredictionError,
        >(PredictionError::Unknown),
        predictions@.len() == container.anime_ids().len() ==> labelled is Ok && labelled.unwrap()@.len()
            == container.anime_ids().len() && forall|row: int|
            0 <= row < predictions@.len() ==> (#[trigger] labelled.unwrap()@[row]).animeid
                == container.anime_ids()[row] && labelled.unwrap()@[row].rating == predictions@[row],
{
    let animes = container.animes();
    if predictions.len() != animes.len() {
        return Err(PredictionError::Unknown);
    }
    let ghost given = predictions@;
    let mut labelled: Vec<UserRatingPrediction<R>> = Vec::new();
    for rating in it: predictions
        invariant
            it.seq() == given,
            given.len() == animes@.len(),
            labelled@.len() == it.index(),
            forall|row: int|
                0 <= row < labelled@.len() ==> (#[trigger] labelled@[row]).animeid == animes@[row].id
                    && labelled@[row].rating == given[row],
    {
        let row = labelled.len();
        labelled.push(UserRatingPrediction { animeid: animes[row].id, rating });
    }
    Ok(labelled)
}

/// The entries whose verdict is `true`, order kept.
pub open spec fn chosen<E>(entries: Seq<E>, verdicts: Seq<bool>) -> Seq<E>
    recommends
        verdicts.len() == entries.len(),
    decreases entries.len(),
{
    if entries.len() == 0 || verdicts.len() != entries.len() {
        Seq::<E>::empty()
    } else if verdicts.last() {
        chosen(entries.drop_last(), verdicts.drop_last()).push(entries.last())
    } else {
        chosen(entries.drop_last(), verdicts.drop_last())
    }
}

/// Where every verdict is `true`, everything is chosen.
pub proof fn lemma_all_chosen<E>(entries: Seq<E>, verdicts: Seq<bool>)
    requires
        verdicts.len() == entries.len(),
        forall|i: int| 0 <= i < verdicts.len() ==> verdicts[i],
    ensures
        chosen(entries, verdicts) == entries,
    decreases entries.len(),
{
    if entries.len() > 0 {
        lemma_all_chosen(entries.drop_last(), verdicts.drop_last());
        assert(entries.drop_last().push(entries.last()) =~= entries);
    }
}

/// Keeps the predictions that the filter lets through, in their order.
///
/// The filter is asked once about each prediction, first to last; the
/// result holds exactly the predictions to which it said yes.
pub fn keep_predictions<R, P>(predictions: UserRatingPredictionResult<R>, filter: P) -> (kept:
    UserRatingPredictionResult<R>) where P: Fn(&UserRatingPrediction<R>) -> bool
    requires
        forall|p: UserRatingPrediction<R>| call_requires(filter, (&p,)),
    ensures
        exists|verdicts: Seq<bool>|
            {
                &&& verdicts.len() == predictions@.len()
                &&& forall|i: int|
                    0 <= i < predictions@.len() ==> call_ensures(
                        filter,
                        (&predictions@[i],),
                        #[trigger] verdicts[i],
                    )
                &&& kept@ == chosen(predictions@, verdicts)
            },
{
    let ghost given = predictions@;
    let ghost mut verdicts = Seq::<bool>::empty();
    let mut kept: Vec<UserRatingPrediction<R>> = Vec::new();
    for prediction in it: predictions
        invariant
            it.seq() == given,
            forall|p: UserRatingPrediction<R>| call_requires(filter, (&p,)),
            verdicts.len() == it.index(),
            forall|i: int|
                0 <= i < verdicts.len() ==> call_ensures(filter, (&given[i],), #[trigger] verdicts[i]),
            kept@ == chosen(given.take(it.index() as int), verdicts),
    {
        let verdict = filter(&prediction);
        proof {
            let before = verdicts;
            verdicts = verdicts.push(verdict);
            assert(verdicts.drop_last() =~= before);
            assert(given.take(it.index() + 1).drop_last() =~= given.take(it.index() as int));
            assert(given.take(it.index() + 1).last() == prediction);
        }
        if verdict {
            kept.push(prediction);
        }
    }
    proof {
        assert(given.take(given.len() as int) =~= given);
    }
    kept
}

/// The neighbours without the one that was asked about, order kept;
/// `id_of` says whose neighbour an entry is.
pub open spec fn others<E>(neighbours: Seq<E>, id_of: spec_fn(E) -> Id, own: Id) -> Seq<E>
    decreases neighbours.len(),
{
    if neighbours.len() == 0 {
        neighbours
    } else if id_of(neighbours.last()) == own {
        others(neighbours.drop_last(), id_of, own)
    } else {
        others(neighbours.drop_last(), id_of, own).push(neighbours.last())
    }
}

/// The first `k` of the neighbours that are not the one asked about.
pub open spec fn nearest_others<E>(neighbours: Seq<E>, id_of: spec_fn(E) -> Id, own: Id, k: usize) -> Seq<
    E,
> {
    if others(neighbours, id_of, own).len() <= k {
        others(neighbours, id_of, own)
    } else {
        others(neighbours, id_of, own).take(k as int)
    }
}

/// The smaller of two numbers.
pub open spec fn at_most(a: int, b: int) -> int {
    if a <= b {
        a
    } else {
        b
    }
}

/// Removing the one asked about lengthens nothing, leaves no trace of it
/// and invents nobody.
pub proof fn lemma_others<E>(neighbours: Seq<E>, id_of: spec_fn(E) -> Id, own: Id)
    ensures
        others(neighbours, id_of, own).len() <= neighbours.len(),
        forall|i: int|
            0 <= i < others(neighbours, id_of, own).len() ==> id_of(
                #[trigger] others(neighbours, id_of, own)[i],
            ) != own,
        forall|i: int|
            0 <= i < others(neighbours, id_of, own).len() ==> neighbours.contains(
                #[trigger] others(neighbours, id_of, own)[i],
            ),
    decreases neighbours.len(),
{
    if neighbours.len() > 0 {
        let rest = neighbours.drop_last();
        lemma_others(rest, id_of, own);
        assert forall|i: int| 0 <= i < others(neighbours, id_of, own).len() implies neighbours.contains(
            #[trigger] others(neighbours, id_of, own)[i],
        ) by {
            if i < others(rest, id_of, own).len() {
                let n = others(rest, id_of, own)[i];
                assert(rest.contains(n));
                let j = rest.index_of(n);
                assert(neighbours[j] == n);
            } else {
                assert(neighbours[neighbours.len() - 1] == neighbours.last());
            }
        }
    }
}

/// Among neighbours with distinct ids, removing the one asked about
/// shortens the list by one if it is there, and not at all if it is not.
pub proof fn lemma_others_len<E>(neighbours: Seq<E>, id_of: spec_fn(E) -> Id, own: Id)
    requires
        neighbours.map_values(id_of).no_duplicates(),
    ensures
        others(neighbours, id_of, own).len() == neighbours.len() - (if neighbours.map_values(
            id_of,
        ).contains(own) {
            1int
        } else {
            0int
        }),
    decreases neighbours.len(),
{
    let ids = neighbours.map_values(id_of);
    if neighbours.len() > 0 {
        let rest = neighbours.drop_last();
        let rest_ids = rest.map_values(id_of);
        assert(rest_ids =~= ids.drop_last());
        lemma_others_len(rest, id_of, own);
        let last = neighbours.len() - 1;
        assert(ids[last] == id_of(neighbours.last()));
        if id_of(neighbours.last()) == own {
            assert(ids.contains(own));
            if rest_ids.contains(own) {
                let j = rest_ids.index_of(own);
                assert(ids[j] == ids[last]);
            }
        } else {
            if ids.contains(own) {
                let j = ids.index_of(own);
                assert(rest_ids[j] == own);
            }
            if rest_ids.contains(own) {
                let j = rest_ids.index_of(own);
                assert(ids[j] == own);
            }
        }
    }
}

/// How many similar ones a query names.
///
/// Let the neighbours carry distinct ids out of the `known` ones, let the
/// one asked about be known, and let there be `k + 1` neighbours, or as
/// many as are known if those are fewer. Then the query names `k` of
/// them, or all the known ones but the one asked about if those are
/// fewer, and never the one asked about.
pub proof fn lemma_similar_count<E>(
    neighbours: Seq<E>,
    id_of: spec_fn(E) -> Id,
    own: Id,
    k: usize,
    known: Set<Id>,
)
    requires
        known.finite(),
        known.contains(own),
        neighbours.map_values(id_of).no_duplicates(),
        forall|i: int| 0 <= i < neighbours.len() ==> known.contains(#[trigger] id_of(neighbours[i])),
        neighbours.len() == at_most(k + 1, known.len() as int),
    ensures
        nearest_others(neighbours, id_of, own, k).len() == at_most(k as int, known.len() - 1),
        forall|i: int|
            0 <= i < nearest_others(neighbours, id_of, own, k).len() ==> id_of(
                #[trigger] nearest_others(neighbours, id_of, own, k)[i],
            ) != own,
{
    let ids = neighbours.map_values(id_of);
    lemma_others(neighbours, id_of, own);
    lemma_others_len(neighbours, id_of, own);
    if known.len() <= k + 1 {
        ids.unique_seq_to_set();
        assert(ids.to_set().subset_of(known)) by {
            assert forall|id: Id| ids.to_set().contains(id) implies known.contains(id) by {
                let j = ids.index_of(id);
                assert(ids[j] == id_of(neighbours[j]));
            }
        }
        vstd::set_lib::lemma_subset_equality(ids.to_set(), known);
        assert(ids.to_set().contains(own));
        assert(ids.contains(own));
    }
}

/// The first `k` of the users that are not the one asked about, as near
/// as they were found.
pub fn similar_users_among<T>(neighbours: SimilarUserResult<T>, userid: Id, k: usize) -> (similar:
    SimilarUserResult<T>)
    ensures
        similar@ == nearest_others(neighbours@, |u: SimilarUser<T>| u.userid, userid, k),
{
    let ghost given = neighbours@;
    let ghost id_of = |u: SimilarUser<T>| u.userid;
    let mut similar: Vec<SimilarUser<T>> = Vec::new();
    for neighbour in it: neighbours
        invariant
            it.seq() == given,
            id_of == |u: SimilarUser<T>| u.userid,
            similar@ == nearest_others(given.take(it.index() as int), id_of, userid, k),
    {
        proof {
            assert(given.take(it.index() + 1).drop_last() =~= given.take(it.index() as int));
            assert(given.take(it.index() + 1).last() == neighbour);
        }
        if neighbour.userid != userid && similar.len() < k {
            similar.push(neighbour);
        }
    }
    proof {
        assert(given.take(given.len() as int) =~= given);
    }
    similar
}

/// The first `k` of the items that are not the one asked about, as near
/// as they were found.
pub fn similar_animes_among<T>(neighbours: SimilarAnimeResult<T>, animeid: Id, k: usize) -> (similar:
    SimilarAnimeResult<T>)
    ensures
        similar@ == nearest_others(neighbours@, |a: SimilarAnime<T>| a.animeid, animeid, k),
{
    let ghost given = neighbours@;
    let ghost id_of = |a: SimilarAnime<T>| a.animeid;
    let mut similar: Vec<SimilarAnime<T>> = Vec::new();
    for neighbour in it: neighbours
        invariant
            it.seq() == given,
            id_of == |a: SimilarAnime<T>| a.animeid,
            similar@ == nearest_others(given.take(it.index() as int), id_of, animeid, k),
    {
        proof {
            assert(given.take(it.index() + 1).drop_last() =~= given.take(it.index() as int));
            assert(given.take(it.index() + 1).last() == neighbour);
        }
        if neighbour.animeid != animeid && similar.len() < k {
            similar.push(neighbour);
        }
    }
    proof {
        assert(given.take(given.len() as int) =~= given);
    }
    similar
}

} // verus!
