//! The corpus the shape planter reads: facts (one subject, one claim each)
//! and typed edges between them, keyed by the facts' keys.

use vstd::prelude::*;

verus! {

/// The five kinds of fact the corpus generator writes.
#[derive(Debug, Clone, Copy, PartialEq, Eq, Structural)]
pub enum Kind {
    Decision,
    Caution,
    Principle,
    Problem,
    Insight,
}

/// One generated fact.
#[derive(Debug, Clone)]
pub struct Fact {
    pub key: String,
    pub kind: Kind,
    pub subject: String,
    pub predicate: String,
    pub answer: String,
    pub title: String,
    pub body: String,
    /// Whether the benchmark questions this fact.
    pub tested: bool,
}

/// A typed edge `from --verb--> to` between two fact keys.
#[derive(Debug, Clone)]
pub struct Edge {
    pub from: String,
    pub verb: String,
    pub to: String,
}

/// The facts and edges of one generated world.
#[derive(Debug, Clone)]
pub struct Corpus {
    pub facts: Vec<Fact>,
    pub edges: Vec<Edge>,
}

} // verus!
