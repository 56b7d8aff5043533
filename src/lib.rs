//! Builds a playlist whose total play time approaches a target duration:
//! random seeding followed by randomized local-search swaps.

pub mod track;
pub mod random;
pub mod heuristic;
pub mod parallel;
pub mod playlist;
pub mod metadata;
