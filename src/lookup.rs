//! Resolving a title to a movie identifier, and an identifier to its row.
use vstd::prelude::*;
use crate::model::{Movie, RecommendError};

verus! {

/// `p` is the first catalog position whose title is `name`.
pub open spec fn is_first_titled(movies: Seq<Movie>, name: Seq<char>, p: int) -> bool {
    &&& 0 <= p < movies.len()
    &&& movies[p].title@ == name
    &&& forall|q: int| 0 <= q < p ==> (#[trigger] movies[q]).title@ != name
}

/// `p` is the first catalog position whose identifier is `id`.
pub open spec fn is_first_with_id(movies: Seq<Movie>, id: i32, p: int) -> bool {
    &&& 0 <= p < movies.len()
    &&& movies[p].movie_id == id
    &&& forall|q: int| 0 <= q < p ==> (#[trigger] movies[q]).movie_id != id
}

/// The identifier of the first movie titled exactly `name`, if any.
pub fn find_movie_id_from_name(name: &str, movies: &Vec<Movie>) -> (r: Option<i32>)
    ensures
        match r {
            None => forall|p: int| 0 <= p < movies.len() ==> (#[trigger] movies@[p]).title@ != name@,
            Some(id) => exists|p: int|
                #[trigger] is_first_titled(movies@, name@, p) && movies@[p].movie_id == id,
        },
{
    let wanted = name.to_owned();
    let mut p: usize = 0;
    while p < movies.len()
        invariant
            p <= movies@.len(),
            wanted@ == name@,
            forall|q: int| 0 <= q < p ==> (#[trigger] movies@[q]).title@ != name@,
        decreases movies@.len() - p,
    {
        if movies[p].title == wanted {
            assert(is_first_titled(movies@, name@, p as int));
            return Some(movies[p].movie_id);
        }
        p = p + 1;
    }
    None
}

/// The catalog position of the first movie with identifier `id`; fails with
/// `NotFound` when no movie has it.
pub fn find_movie_offset_from_id(id: i32, movies: &Vec<Movie>) -> (r: Result<
    usize,
    RecommendError,
>)
    ensures
        match r {
            Err(e) => e == RecommendError::NotFound && forall|p: int|
                0 <= p < movies.len() ==> (#[trigger] movies@[p]).movie_id != id,
            Ok(p) => is_first_with_id(movies@, id, p as int),
        },
{
    let mut p: usize = 0;
    while p < movies.len()
        invariant
            p <= movies@.len(),
            forall|q: int| 0 <= q < p ==> (#[trigger] movies@[q]).movie_id != id,
        decreases movies@.len() - p,
    {
        if movies[p].movie_id == id {
            return Ok(p);
        }
        p = p + 1;
    }
    Err(RecommendError::NotFound)
}

} // verus!
