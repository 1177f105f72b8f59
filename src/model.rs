//! The records the library consumes and the errors it reports.
use vstd::prelude::*;

verus! {

/// A catalog entry. Identifiers are expected to be unique; titles are matched
/// exactly when a query names a movie.
#[derive(Debug, Clone)]
pub struct Movie {
    pub movie_id: i32,
    pub title: String,
}

/// One observation: `user_id` gave `movie_id` the score `rating`, expressed in
/// tenths of a star (a rating of 4.5 stars is held as 45).
#[derive(Debug, Clone, Copy, PartialEq, Eq, Structural)]
pub struct Rating {
    pub user_id: i32,
    pub movie_id: i32,
    pub rating: u16,
}

/// Why a computation could not produce a result.
#[derive(Debug, Clone, Copy, PartialEq, Eq, Structural)]
pub enum RecommendError {
    /// No ratings were provided, so no user count can be derived.
    EmptyInput,
    /// A movie identifier or title has no entry in the catalog.
    NotFound,
    /// Vectors of different lengths were compared.
    InvalidArgument,
}

impl Movie {
    pub fn new(movie_id: i32, title: String) -> (r: Movie)
        ensures
            r.movie_id == movie_id,
            r.title@ == title@,
    {
        Movie { movie_id, title }
    }
}

impl Rating {
    pub fn new(user_id: i32, movie_id: i32, rating: u16) -> (r: Rating)
        ensures
            r == (Rating { user_id, movie_id, rating }),
    {
        Rating { user_id, movie_id, rating }
    }
}

} // verus!
