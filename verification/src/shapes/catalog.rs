//! The shape rotation.

use vstd::prelude::*;

verus! {

/// The rotation: name, tier, and whether the planted note contradicts.
pub const SHAPES: [(&'static str, u8, bool); 18] = [
    ("value", 1, true),
    ("reworded", 1, true),
    ("negation", 2, true),
    ("paraphrase", 2, false),
    ("synonym", 2, false),
    ("unit", 2, true),
    ("clause", 2, true),
    ("coreference", 2, false),
    ("transitive", 3, true),
    ("quantifier", 2, true),
    ("collider", 2, false),
    ("compound", 3, true),
    ("unit_agree", 2, false),
    ("historical", 3, false),
    ("bridge_collider", 3, false),
    ("transitive_chain", 3, true),
    ("chain_collider", 3, false),
    ("chain_paraphrase", 3, false),
];

/// No two shapes share a name.
pub proof fn lemma_shape_names_distinct()
    ensures
        forall|i: int, j: int| 0 <= i < 18 && 0 <= j < 18 && i != j ==> #[trigger] SHAPES@[i].0@ != #[trigger] SHAPES@[j].0@,
{
    reveal_strlit("value");
    reveal_strlit("reworded");
    reveal_strlit("negation");
    reveal_strlit("paraphrase");
    reveal_strlit("synonym");
    reveal_strlit("unit");
    reveal_strlit("clause");
    reveal_strlit("coreference");
    reveal_strlit("transitive");
    reveal_strlit("quantifier");
    reveal_strlit("collider");
    reveal_strlit("compound");
    reveal_strlit("unit_agree");
    reveal_strlit("historical");
    reveal_strlit("bridge_collider");
    reveal_strlit("transitive_chain");
    reveal_strlit("chain_collider");
    reveal_strlit("chain_paraphrase");
    assert forall|i: int, j: int| 0 <= i < 18 && 0 <= j < 18 && i != j implies #[trigger] SHAPES@[i].0@ != #[trigger] SHAPES@[j].0@ by {
        let a = SHAPES@[i].0@;
        let b = SHAPES@[j].0@;
        if a.len() == b.len() {
            assert(a[0] != b[0] || a[1] != b[1] || a[2] != b[2] || a[a.len() - 1] != b[b.len() - 1] || a[3] != b[3]);
        }
    }
}

} // verus!
