//! A cubie-level Rubik's cube simulator that classifies last-layer
//! algorithms by the case they solve.
pub mod model;
pub mod faces;
pub mod moves;
pub mod cube;
pub mod lemmas;
pub mod laws;
pub mod counting;
pub mod parse;
pub mod normalize;
pub mod lex;
pub mod case_laws;
pub mod orientation;
pub mod zbll_laws;
pub mod rotations;
pub mod move_meaning;
pub mod fingerprint_laws;
