//! From a catalog, its ratings and a title to the catalog positions of the
//! most similar movies.
use vstd::prelude::*;
use crate::distance::sq_dist;
use crate::index::{get_rating_index, rating_vector};
use crate::lookup::{find_movie_id_from_name, find_movie_offset_from_id, is_first_titled};
use crate::model::{Movie, Rating, RecommendError};
use crate::scan::{distances, is_nearest, nearest};

verus! {

/// Distances from the vector of movie `query` to the vector of each catalog
/// movie, in catalog order.
pub open spec fn catalog_distances(ratings: Seq<Rating>, movies: Seq<Movie>, query: i32) -> Seq<
    u128,
> {
    Seq::new(
        movies.len(),
        |p: int|
            sq_dist(rating_vector(ratings, movies[p].movie_id), rating_vector(ratings, query))
                as u128,
    )
}

/// The catalog positions of the `k` movies whose rating vectors are nearest
/// to that of the first movie titled `title`, nearest first, ties in catalog
/// order. The queried movie itself takes part in the ranking, so it comes
/// first whenever no other movie ties with it at distance zero earlier in
/// the catalog. Fails with `NotFound` when no movie has that title, and
/// otherwise with `EmptyInput` when there are no ratings.
pub fn recommend(movies: &Vec<Movie>, ratings: &Vec<Rating>, title: &str, k: usize) -> (r: Result<
    Vec<usize>,
    RecommendError,
>)
    ensures
        (forall|p: int| 0 <= p < movies.len() ==> (#[trigger] movies@[p]).title@ != title@) ==> r
            == Err::<Vec<usize>, RecommendError>(RecommendError::NotFound),
        (exists|p: int| #[trigger] is_first_titled(movies@, title@, p)) && ratings@.len() == 0 ==> r
            == Err::<Vec<usize>, RecommendError>(RecommendError::EmptyInput),
        forall|p: int|
            #[trigger] is_first_titled(movies@, title@, p) && ratings@.len() > 0 ==> r is Ok
                && is_nearest(
                catalog_distances(ratings@, movies@, movies@[p].movie_id),
                k as int,
                r->Ok_0@,
            ),
{
    let target = match find_movie_id_from_name(title, movies) {
        Some(id) => id,
        None => return Err(RecommendError::NotFound),
    };
    let ghost tp = choose|p: int| #[trigger]
        is_first_titled(movies@, title@, p) && movies@[p].movie_id == target;
    assert forall|p: int| #[trigger] is_first_titled(movies@, title@, p) implies p == tp by {
        if p < tp {
            assert(movies@[p].title@ != title@);
        } else if tp < p {
            assert(movies@[tp].title@ != title@);
        }
    }
    let rows = match get_rating_index(ratings, movies) {
        Ok(rows) => rows,
        Err(e) => return Err(e),
    };
    let offset = match find_movie_offset_from_id(target, movies) {
        Ok(p) => p,
        Err(e) => {
            assert(movies@[tp].movie_id == target);
            return Err(e);
        },
    };
    let r = nearest(&rows, &rows[offset], k);
    proof {
        let query = rating_vector(ratings@, target);
        assert(rows[offset as int]@ == query);
        assert forall|i: int| 0 <= i < rows.len() implies (#[trigger] rows@[i]).len()
            == rows[offset as int].len() by {
            assert(rows@[i]@ == rating_vector(ratings@, movies@[i].movie_id));
        }
        assert(distances(rows@, query) =~= catalog_distances(ratings@, movies@, target));
    }
    r
}

} // verus!
