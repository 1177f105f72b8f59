//! Dense per-movie rating vectors built from sparse observations.
use vstd::prelude::*;
use std::collections::HashMap;
use crate::model::{Movie, Rating, RecommendError};

verus! {

broadcast use vstd::std_specs::hash::group_hash_axioms;

/// The number of user slots: the largest user identifier observed, or zero
/// when no identifier is positive.
pub open spec fn max_user(ratings: Seq<Rating>) -> int
    decreases ratings.len(),
{
    if ratings.len() == 0 {
        0
    } else {
        let rest = max_user(ratings.drop_last());
        let u = ratings.last().user_id as int;
        if u > rest {
            u
        } else {
            rest
        }
    }
}

/// The rating that `user` gave `movie`: the last such observation in input
/// order, or zero when there is none.
pub open spec fn rating_of(ratings: Seq<Rating>, user: int, movie: i32) -> u16
    decreases ratings.len(),
{
    if ratings.len() == 0 {
        0
    } else if ratings.last().user_id as int == user && ratings.last().movie_id == movie {
        ratings.last().rating
    } else {
        rating_of(ratings.drop_last(), user, movie)
    }
}

/// The dense vector of `movie`: slot `s` holds the rating of user `s + 1`.
pub open spec fn rating_vector(ratings: Seq<Rating>, movie: i32) -> Seq<u16> {
    Seq::new(max_user(ratings) as nat, |s: int| rating_of(ratings, s + 1, movie))
}

proof fn lemma_max_user_bounds(ratings: Seq<Rating>)
    ensures
        0 <= max_user(ratings) <= i32::MAX,
        forall|i: int| 0 <= i < ratings.len() ==> ratings[i].user_id <= max_user(ratings),
    decreases ratings.len(),
{
    if ratings.len() > 0 {
        lemma_max_user_bounds(ratings.drop_last());
        assert forall|i: int| 0 <= i < ratings.len() implies ratings[i].user_id <= max_user(
            ratings,
        ) by {
            if i < ratings.len() - 1 {
                assert(ratings.drop_last()[i] == ratings[i]);
            }
        }
    }
}

/// The number of user slots every vector has; fails on an empty rating list.
pub fn user_count(ratings: &Vec<Rating>) -> (r: Result<usize, RecommendError>)
    ensures
        r == if ratings@.len() == 0 {
            Err(RecommendError::EmptyInput)
        } else {
            Ok::<usize, RecommendError>(max_user(ratings@) as usize)
        },
{
    if ratings.len() == 0 {
        return Err(RecommendError::EmptyInput);
    }
    let mut m: i32 = 0;
    let mut i: usize = 0;
    while i < ratings.len()
        invariant
            i <= ratings@.len(),
            m as int == max_user(ratings@.subrange(0, i as int)),
        decreases ratings@.len() - i,
    {
        assert(ratings@.subrange(0, i + 1).drop_last() =~= ratings@.subrange(0, i as int));
        if ratings[i].user_id > m {
            m = ratings[i].user_id;
        }
        i = i + 1;
    }
    assert(ratings@.subrange(0, i as int) =~= ratings@);
    proof {
        lemma_max_user_bounds(ratings@);
    }
    Ok(m as usize)
}

fn zero_row(n: usize) -> (r: Vec<u16>)
    ensures
        r@ == Seq::new(n as nat, |s: int| 0u16),
{
    let mut r: Vec<u16> = Vec::with_capacity(n);
    while r.len() < n
        invariant
            r.len() <= n,
            forall|s: int| 0 <= s < r.len() ==> r@[s] == 0u16,
        decreases n - r.len(),
    {
        r.push(0);
    }
    assert(r@ =~= Seq::new(n as nat, |s: int| 0u16));
    r
}

proof fn lemma_rating_of_unrated(ratings: Seq<Rating>, user: int, movie: i32)
    requires
        forall|i: int| 0 <= i < ratings.len() ==> (#[trigger] ratings[i]).movie_id != movie,
    ensures
        rating_of(ratings, user, movie) == 0,
    decreases ratings.len(),
{
    if ratings.len() > 0 {
        assert(ratings.last() == ratings[ratings.len() - 1]);
        lemma_rating_of_unrated(ratings.drop_last(), user, movie);
    }
}

/// A movie that no observation mentions has a vector of zeros, one per user
/// slot.
pub proof fn lemma_unrated_movie_is_zero(ratings: Seq<Rating>, movie: i32)
    requires
        forall|i: int| 0 <= i < ratings.len() ==> (#[trigger] ratings[i]).movie_id != movie,
    ensures
        rating_vector(ratings, movie) == Seq::new(max_user(ratings) as nat, |s: int| 0u16),
{
    lemma_max_user_bounds(ratings);
    assert forall|s: int| 0 <= s < max_user(ratings) implies #[trigger] rating_of(
        ratings,
        s + 1,
        movie,
    ) == 0 by {
        lemma_rating_of_unrated(ratings, s + 1, movie);
    }
    assert(rating_vector(ratings, movie) =~= Seq::new(max_user(ratings) as nat, |s: int| 0u16));
}

/// `first` sends each identifier of the first `p` catalog entries to a
/// position among them that holds it, and knows no other identifier.
spec fn positions_of(first: Map<i32, usize>, movies: Seq<Movie>, p: int) -> bool {
    &&& forall|id: i32|
        #[trigger] first.contains_key(id) <==> exists|q: int|
            0 <= q < p && #[trigger] movies[q].movie_id == id
    &&& forall|id: i32| #[trigger]
        first.contains_key(id) ==> first[id] < p && movies[first[id] as int].movie_id == id
}

/// Builds the dense rating vector of every catalog movie, in catalog order.
/// Slot `s` of a vector holds the last rating that user `s + 1` gave the
/// movie, or zero; every vector has `max_user` slots. Fails with `EmptyInput`
/// when there are no ratings.
pub fn get_rating_index(ratings: &Vec<Rating>, movies: &Vec<Movie>) -> (r: Result<
    Vec<Vec<u16>>,
    RecommendError,
>)
    ensures
        ratings@.len() == 0 <==> r is Err,
        r is Err ==> r == Err::<Vec<Vec<u16>>, RecommendError>(RecommendError::EmptyInput),
        r is Ok ==> {
            &&& r->Ok_0.len() == movies.len()
            &&& forall|p: int|
                0 <= p < movies.len() ==> (#[trigger] r->Ok_0[p])@.len() == max_user(ratings@)
            &&& forall|p: int|
                0 <= p < movies.len() ==> (#[trigger] r->Ok_0[p])@ == rating_vector(
                    ratings@,
                    movies[p].movie_id,
                )
        },
{
    let n = match user_count(ratings) {
        Ok(n) => n,
        Err(e) => return Err(e),
    };
    proof {
        lemma_max_user_bounds(ratings@);
    }
    let mut first: HashMap<i32, usize> = HashMap::new();
    let mut rows: Vec<Vec<u16>> = Vec::with_capacity(movies.len());
    let mut p: usize = 0;
    while p < movies.len()
        invariant
            p <= movies@.len(),
            rows.len() == p,
            positions_of(first@, movies@, p as int),
            forall|q: int| 0 <= q < p ==> (#[trigger] rows[q])@ == Seq::new(n as nat, |s: int| 0u16),
        decreases movies@.len() - p,
    {
        let id = movies[p].movie_id;
        if !first.contains_key(&id) {
            first.insert(id, p);
        }
        rows.push(zero_row(n));
        p = p + 1;
        assert(movies@[p - 1].movie_id == id);
    }
    let mut i: usize = 0;
    while i < ratings.len()
        invariant
            i <= ratings@.len(),
            n == max_user(ratings@),
            forall|j: int| 0 <= j < ratings@.len() ==> ratings@[j].user_id <= n,
            rows.len() == movies@.len(),
            positions_of(first@, movies@, movies@.len() as int),
            forall|q: int| 0 <= q < rows.len() ==> (#[trigger] rows[q])@.len() == n,
            forall|q: int, s: int|
                0 <= q < rows.len() && first@[movies@[q].movie_id] == q && 0 <= s < n ==> (
                #[trigger] rows[q]@[s]) == rating_of(
                    ratings@.subrange(0, i as int),
                    s + 1,
                    movies@[q].movie_id,
                ),
        decreases ratings@.len() - i,
    {
        let rt = ratings[i];
        let ghost before = ratings@.subrange(0, i as int);
        assert(ratings@.subrange(0, i + 1).drop_last() =~= before);
        if rt.user_id >= 1 {
            match first.get(&rt.movie_id) {
                Some(pos) => {
                    let pos = *pos;
                    let slot = (rt.user_id - 1) as usize;
                    rows[pos].set(slot, rt.rating);
                },
                None => {},
            }
        }
        i = i + 1;
    }
    assert(ratings@.subrange(0, i as int) =~= ratings@);
    let mut p: usize = 0;
    while p < movies.len()
        invariant
            p <= movies@.len(),
            n == max_user(ratings@),
            rows.len() == movies@.len(),
            positions_of(first@, movies@, movies@.len() as int),
            forall|q: int| 0 <= q < rows.len() ==> (#[trigger] rows[q])@.len() == n,
            forall|q: int, s: int|
                0 <= q < rows.len() && first@[movies@[q].movie_id] == q && 0 <= s < n ==> (
                #[trigger] rows[q]@[s]) == rating_of(ratings@, s + 1, movies@[q].movie_id),
            forall|q: int| 0 <= q < p ==> (#[trigger] rows[q])@ == rating_vector(
                ratings@,
                movies@[q].movie_id,
            ),
        decreases movies@.len() - p,
    {
        let id = movies[p].movie_id;
        assert(first@.contains_key(id));
        let q = *first.get(&id).unwrap();
        if q != p {
            let copy = rows[q].clone();
            rows.set(p, copy);
        }
        assert(rows[p as int]@ =~= rating_vector(ratings@, id));
        p = p + 1;
    }
    Ok(rows)
}

} // verus!
