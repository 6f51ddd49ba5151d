//! Typed decisions for the Laya encoder (prompt layout, state serialisation,
//! batch packing) and the contradiction-shape planter of the evaluation
//! harness, with their contracts proved by Verus.

pub mod laya;
pub mod batch;
pub mod state;
pub mod encoder;
pub mod text;
pub mod corpus;
pub mod shapes;
