//! Item-based movie recommendations: dense per-movie rating vectors built from
//! sparse observations, and an exact nearest-neighbour scan over them.

pub mod model;
pub mod index;
pub mod distance;
pub mod scan;
pub mod lookup;
pub mod recommend;
