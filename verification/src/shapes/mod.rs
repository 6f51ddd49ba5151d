//! Contradiction shapes: for every tested fact, a planted note that a
//! contradiction judge must tell from a trap, with the graph context a
//! judge may read around the pair.

pub mod forms;
pub mod catalog;
pub mod make;
pub mod graph;
pub mod plant;
pub mod judging;
