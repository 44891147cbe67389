//! A verified Thistlethwaite solver for the 3x3x3 Rubik's cube.
//!
//! The crate models the cube as 27 cubies (a permutation of identities plus
//! per-cubie orientation data), applies face moves, projects cube states onto
//! the four phase keys of Thistlethwaite's decomposition, builds the
//! pattern-database tables that map each key to a shortest recorded move
//! sequence, and packs those tables into a bit stream for storage.

pub mod compressor;
pub mod cube;
pub mod extractor;
pub mod keys;
pub mod solver;
pub mod table;
pub mod utils;
