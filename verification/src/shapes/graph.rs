//! The graph the planter keeps: note titles by key, and every edge seen
//! from both ends with its verb phrase, in insertion order.

use vstd::prelude::*;

use crate::shapes::forms::{cut_title_chars, spec_cut_title, verb_in, verb_in_exec, verb_out, verb_out_exec};
use crate::text::{chars_of, eq_chars, eq_str, push_all, push_str, slice_copy, vvc};

verus! {

/// A node key, the text of a title, an edge phrase.
pub type Text = Seq<char>;

/// (key, title) in the order the nodes were added; a later entry for a
/// key replaces an earlier one.
pub type TitleLog = Seq<(Text, Text)>;

/// (node, phrase, neighbour): every edge is kept once from each end.
pub type EdgeLog = Seq<(Text, Text, Text)>;

// ------------------------------------------------------------ specification

/// Stands for the other side of the pair inside a context line.
pub open spec fn partner_mark() -> Text {
    "\u{1}PARTNER"@
}

/// The title of `k`: the one added last.
pub open spec fn lookup(t: TitleLog, k: Text) -> Option<Text>
    decreases t.len(),
{
    if t.len() == 0 {
        None
    } else if t.last().0 == k {
        Some(t.last().1)
    } else {
        lookup(t.drop_last(), k)
    }
}

/// The (phrase, neighbour) entries of `k`, in insertion order.
pub open spec fn adj_of(e: EdgeLog, k: Text) -> Seq<(Text, Text)>
    decreases e.len(),
{
    if e.len() == 0 {
        seq![]
    } else if e.last().0 == k {
        adj_of(e.drop_last(), k).push((e.last().1, e.last().2))
    } else {
        adj_of(e.drop_last(), k)
    }
}

/// The edge `from --verb--> to`, read from both ends.
pub open spec fn with_edge(e: EdgeLog, from: Text, verb: Text, to: Text) -> EdgeLog {
    e.push((from, verb_out(verb), to)).push((to, verb_in(verb), from))
}

/// Every edge between `a` and `b` dropped, both directions.
pub open spec fn without_edges(e: EdgeLog, a: Text, b: Text) -> EdgeLog
    decreases e.len(),
{
    if e.len() == 0 {
        seq![]
    } else {
        let r = without_edges(e.drop_last(), a, b);
        let x = e.last();
        if (x.0 == a && x.2 == b) || (x.0 == b && x.2 == a) {
            r
        } else {
            r.push(x)
        }
    }
}

/// A neighbour as context text: the pair partner is never quoted, it is the
/// partner mark; any other neighbour is its cut title.
pub open spec fn name(t: TitleLog, k: Text, partner: Text) -> Text {
    if k == partner {
        partner_mark()
    } else {
        spec_cut_title(lookup(t, k).unwrap())
    }
}

/// The 1-hop lines of `key`: `"<phrase>: <neighbour>"`.
pub open spec fn hop1_lines(t: TitleLog, hop: Seq<(Text, Text)>, partner: Text) -> Seq<Text> {
    hop.map_values(|x: (Text, Text)| x.0 + ": "@ + name(t, x.1, partner))
}

/// The 2-hop lines through neighbour `k1` (reached by `p1`), never back to `key`.
pub open spec fn via_lines(t: TitleLog, p1: Text, k1: Text, hop2: Seq<(Text, Text)>, key: Text, partner: Text) -> Seq<Text>
    decreases hop2.len(),
{
    if hop2.len() == 0 {
        seq![]
    } else {
        let r = via_lines(t, p1, k1, hop2.drop_last(), key, partner);
        let x = hop2.last();
        if x.1 == key {
            r
        } else {
            r.push(p1 + " "@ + name(t, k1, partner) + " which "@ + x.0 + ": "@ + name(t, x.1, partner))
        }
    }
}

/// The 2-hop lines of `key`, neighbour by neighbour.
pub open spec fn hop2_lines(t: TitleLog, e: EdgeLog, hop: Seq<(Text, Text)>, key: Text, partner: Text) -> Seq<Text>
    decreases hop.len(),
{
    if hop.len() == 0 {
        seq![]
    } else {
        let x = hop.last();
        hop2_lines(t, e, hop.drop_last(), key, partner) + via_lines(t, x.0, x.1, adj_of(e, x.1), key, partner)
    }
}

/// 1-hop lines, then 2-hop lines (through a neighbour, never back).
pub open spec fn spec_links(t: TitleLog, e: EdgeLog, key: Text, partner: Text) -> (Seq<Text>, Seq<Text>) {
    let hop = adj_of(e, key);
    (hop1_lines(t, hop, partner), hop2_lines(t, e, hop, key, partner))
}

/// The phrases of the edges a note depends on: `builds-on`, `needs` and
/// `because` read from their source.
pub open spec fn is_dep_phrase(p: Text) -> bool {
    p == "builds on"@ || p == "needs"@ || p == "holds because"@
}

/// Titles of what `key` depends on (its outgoing builds-on / needs /
/// because), the partner excluded.
pub open spec fn deps_of(t: TitleLog, hop: Seq<(Text, Text)>, partner: Text) -> Seq<Text>
    decreases hop.len(),
{
    if hop.len() == 0 {
        seq![]
    } else {
        let r = deps_of(t, hop.drop_last(), partner);
        let x = hop.last();
        if is_dep_phrase(x.0) && x.1 != partner {
            r.push(lookup(t, x.1).unwrap())
        } else {
            r
        }
    }
}

/// `k` can be named: it is the partner, or it has a title.
pub open spec fn named(t: TitleLog, k: Text, partner: Text) -> bool {
    k == partner || lookup(t, k) is Some
}

/// Every 2-hop line through `k1` can be written: `k1` and each neighbour
/// other than `key` can be named.
pub open spec fn via_defined(t: TitleLog, k1: Text, hop2: Seq<(Text, Text)>, key: Text, partner: Text) -> bool {
    forall|j: int| 0 <= j < hop2.len() && (#[trigger] hop2[j]).1 != key ==> named(t, k1, partner) && named(t, hop2[j].1, partner)
}

/// Every context line of `key` can be written: each neighbour can be named,
/// and so can everything two hops out.
pub open spec fn links_defined(t: TitleLog, e: EdgeLog, key: Text, partner: Text) -> bool {
    let hop = adj_of(e, key);
    forall|j: int|
        0 <= j < hop.len() ==> named(t, (#[trigger] hop[j]).1, partner) && via_defined(t, hop[j].1, adj_of(e, hop[j].1), key, partner)
}

/// Every dependency other than the partner has a title.
pub open spec fn deps_defined(t: TitleLog, hop: Seq<(Text, Text)>, partner: Text) -> bool {
    forall|j: int| 0 <= j < hop.len() && is_dep_phrase((#[trigger] hop[j]).0) && hop[j].1 != partner ==> lookup(t, hop[j].1) is Some
}


// ------------------------------------------------------------ lemmas

/// No entry of the edge log joins `a` and `b`, in either direction.
pub open spec fn unlinked_pair(e: EdgeLog, a: Text, b: Text) -> bool {
    forall|i: int| 0 <= i < e.len() ==> !(((#[trigger] e[i]).0 == a && e[i].2 == b) || (e[i].0 == b && e[i].2 == a))
}

proof fn lemma_without_unlinked(e: EdgeLog, a: Text, b: Text)
    requires
        unlinked_pair(e, a, b),
    ensures
        without_edges(e, a, b) == e,
    decreases e.len(),
{
    if e.len() > 0 {
        let d = e.drop_last();
        assert(unlinked_pair(d, a, b)) by {
            assert forall|i: int| 0 <= i < d.len() implies !(((#[trigger] d[i]).0 == a && d[i].2 == b) || (d[i].0 == b
                && d[i].2 == a)) by {
                assert(d[i] == e[i]);
            }
        }
        lemma_without_unlinked(d, a, b);
        assert(e[e.len() - 1] == e.last());
        assert(d.push(e.last()) =~= e);
    }
}

/// After dropping the edges between `a` and `b`, none is left.
proof fn lemma_without_leaves_unlinked(e: EdgeLog, a: Text, b: Text)
    ensures
        unlinked_pair(without_edges(e, a, b), a, b),
    decreases e.len(),
{
    if e.len() > 0 {
        lemma_without_leaves_unlinked(e.drop_last(), a, b);
        let r = without_edges(e.drop_last(), a, b);
        let w = without_edges(e, a, b);
        assert forall|i: int| 0 <= i < w.len() implies !(((#[trigger] w[i]).0 == a && w[i].2 == b) || (w[i].0 == b
            && w[i].2 == a)) by {
            if i < r.len() {
                assert(w[i] == r[i]);
            }
        }
    }
}

/// Dropping the edges between `a` and `b` undoes adding an edge between
/// them where there was none before.
pub proof fn law_remove_undoes_add(e: EdgeLog, a: Text, verb: Text, b: Text)
    requires
        unlinked_pair(e, a, b),
    ensures
        without_edges(with_edge(e, a, verb, b), a, b) == e,
{
    let x = (a, verb_out(verb), b);
    let y = (b, verb_in(verb), a);
    let e1 = with_edge(e, a, verb, b);
    assert(e1.drop_last() =~= e.push(x));
    assert(e.push(x).drop_last() =~= e);
    assert(e1.last() == y);
    assert(e.push(x).last() == x);
    lemma_without_unlinked(e, a, b);
    assert(without_edges(e.push(x), a, b) == without_edges(e, a, b));
    assert(without_edges(e1, a, b) == without_edges(e.push(x), a, b));
}

/// Dropping the edges between `a` and `b` a second time changes nothing.
pub proof fn law_remove_idempotent(e: EdgeLog, a: Text, b: Text)
    ensures
        without_edges(without_edges(e, a, b), a, b) == without_edges(e, a, b),
{
    lemma_without_leaves_unlinked(e, a, b);
    lemma_without_unlinked(without_edges(e, a, b), a, b);
}


/// A note depends on what it builds on, needs, or holds because of: adding
/// an edge from `key` to a titled node `k` (not the partner) appends that
/// node's title to `key`'s dependencies exactly when the edge's verb is
/// `builds-on`, `needs` or `because`, and leaves them as they were for any
/// other verb.
pub proof fn law_dependency_edges(t: TitleLog, e: EdgeLog, key: Text, verb: Text, k: Text, partner: Text)
    requires
        k != key,
        k != partner,
        lookup(t, k) is Some,
    ensures
        deps_of(t, adj_of(with_edge(e, key, verb, k), key), partner) == if verb == "builds-on"@ || verb == "needs"@
            || verb == "because"@ {
            deps_of(t, adj_of(e, key), partner).push(lookup(t, k).unwrap())
        } else {
            deps_of(t, adj_of(e, key), partner)
        },
{
    let e1 = e.push((key, verb_out(verb), k));
    let e2 = e1.push((k, verb_in(verb), key));
    assert(with_edge(e, key, verb, k) == e2);
    assert(e2.drop_last() =~= e1);
    assert(e1.drop_last() =~= e);
    assert(adj_of(e2, key) == adj_of(e1, key));
    assert(adj_of(e1, key) == adj_of(e, key).push((verb_out(verb), k)));
    let h = adj_of(e, key).push((verb_out(verb), k));
    assert(h.drop_last() =~= adj_of(e, key));
    reveal_strlit("builds-on");
    reveal_strlit("needs");
    reveal_strlit("because");
    reveal_strlit("about");
    reveal_strlit("answers");
    reveal_strlit("replaces");
    reveal_strlit("conflicts-with");
    reveal_strlit("is about");
    reveal_strlit("holds because");
    reveal_strlit("builds on");
    reveal_strlit("conflicts with");
    reveal_strlit("relates to");
    if verb == "builds-on"@ || verb == "needs"@ || verb == "because"@ {
        if verb == "because"@ {
            assert(verb[0] != "about"@[0]);
            assert(verb_out(verb) == "holds because"@);
        } else if verb == "builds-on"@ {
            assert(verb[0] != "about"@[0]);
            assert(verb.len() != "because"@.len());
            assert(verb[0] != "answers"@[0]);
            assert(verb_out(verb) == "builds on"@);
        } else {
            assert(verb[0] != "about"@[0]);
            assert(verb[0] != "because"@[0]);
            assert(verb[0] != "answers"@[0]);
            assert(verb[0] != "builds-on"@[0]);
            assert(verb[0] != "replaces"@[0]);
            assert(verb[0] != "conflicts-with"@[0]);
            assert(verb_out(verb) == "needs"@);
        }
        assert(is_dep_phrase(verb_out(verb)));
    } else {
        let v = verb_out(verb);
        assert(v == "is about"@ || v == "answers"@ || v == "replaces"@ || v == "conflicts with"@ || v == "relates to"@);
        assert(v != "builds on"@ && v != "needs"@ && v != "holds because"@) by {
            if v == "answers"@ {
                assert(v.len() != "needs"@.len() || v[0] != 'n');
            }
        }
        assert(!is_dep_phrase(v));
    }
}

// ------------------------------------------------------------ execution

pub open spec fn pairs_model(v: Seq<(Vec<char>, Vec<char>)>) -> Seq<(Text, Text)> {
    v.map_values(|x: (Vec<char>, Vec<char>)| (x.0@, x.1@))
}

pub open spec fn triples_model(v: Seq<(Vec<char>, Vec<char>, Vec<char>)>) -> EdgeLog {
    v.map_values(|x: (Vec<char>, Vec<char>, Vec<char>)| (x.0@, x.1@, x.2@))
}

fn copy(v: &Vec<char>) -> (r: Vec<char>)
    ensures
        r@ == v@,
{
    proof {
        assert(v@.subrange(0, v@.len() as int) =~= v@);
    }
    slice_copy(v.as_slice(), 0, v.len())
}

/// An adjacency list over titles: node -> (edge phrase, neighbour).
pub struct Graph {
    pub titles: Vec<(Vec<char>, Vec<char>)>,
    pub edges: Vec<(Vec<char>, Vec<char>, Vec<char>)>,
}

impl Graph {
    pub open spec fn title_log(&self) -> TitleLog {
        pairs_model(self.titles@)
    }

    pub open spec fn edge_log(&self) -> EdgeLog {
        triples_model(self.edges@)
    }

    pub fn new() -> (g: Graph)
        ensures
            g.title_log() == Seq::<(Text, Text)>::empty(),
            g.edge_log() == Seq::<(Text, Text, Text)>::empty(),
    {
        let g = Graph { titles: Vec::new(), edges: Vec::new() };
        proof {
            assert(g.title_log() =~= Seq::<(Text, Text)>::empty());
            assert(g.edge_log() =~= Seq::<(Text, Text, Text)>::empty());
        }
        g
    }

    pub fn add_node(&mut self, key: &[char], title: &[char])
        ensures
            final(self).title_log() == old(self).title_log().push((key@, title@)),
            final(self).edge_log() == old(self).edge_log(),
    {
        let k = slice_copy(key, 0, key.len());
        let t = slice_copy(title, 0, title.len());
        proof {
            assert(key@.subrange(0, key@.len() as int) =~= key@);
            assert(title@.subrange(0, title@.len() as int) =~= title@);
        }
        self.titles.push((k, t));
        proof {
            assert(self.title_log() =~= old(self).title_log().push((key@, title@)));
        }
    }

    pub fn add_edge(&mut self, from: &[char], verb: &[char], to: &[char])
        ensures
            final(self).edge_log() == with_edge(old(self).edge_log(), from@, verb@, to@),
            final(self).title_log() == old(self).title_log(),
    {
        proof {
            assert(from@.subrange(0, from@.len() as int) =~= from@);
            assert(to@.subrange(0, to@.len() as int) =~= to@);
        }
        let vo = verb_out_exec(verb);
        let vi = verb_in_exec(verb);
        self.edges.push((slice_copy(from, 0, from.len()), vo, slice_copy(to, 0, to.len())));
        self.edges.push((slice_copy(to, 0, to.len()), vi, slice_copy(from, 0, from.len())));
        proof {
            assert(self.edge_log() =~= with_edge(old(self).edge_log(), from@, verb@, to@));
        }
    }

    /// The title of `k`, when it has one.
    pub fn lookup_exec(&self, k: &[char]) -> (r: Option<Vec<char>>)
        ensures
            r matches Some(v) ==> lookup(self.title_log(), k@) == Some(v@),
            r is None ==> lookup(self.title_log(), k@) is None,
    {
        let ghost t = self.title_log();
        let mut j: usize = self.titles.len();
        proof {
            assert(t.take(j as int) =~= t);
        }
        while j > 0
            invariant
                j <= self.titles@.len(),
                t == self.title_log(),
                lookup(t, k@) == lookup(t.take(j as int), k@),
            decreases j,
        {
            let e = &self.titles[j - 1];
            proof {
                assert(t.take(j as int).drop_last() =~= t.take(j - 1));
                assert(t.take(j as int).last() == (e.0@, e.1@));
            }
            if eq_chars(e.0.as_slice(), k) {
                return Some(copy(&e.1));
            }
            j = j - 1;
        }
        None
    }

    /// The (phrase, neighbour) entries of `k`, in insertion order.
    pub fn adj_exec(&self, k: &[char]) -> (r: Vec<(Vec<char>, Vec<char>)>)
        ensures
            pairs_model(r@) == adj_of(self.edge_log(), k@),
    {
        let ghost e = self.edge_log();
        let mut r: Vec<(Vec<char>, Vec<char>)> = Vec::new();
        let mut i: usize = 0;
        while i < self.edges.len()
            invariant
                i <= self.edges@.len(),
                e == self.edge_log(),
                pairs_model(r@) == adj_of(e.take(i as int), k@),
            decreases self.edges@.len() - i,
        {
            let x = &self.edges[i];
            proof {
                assert(e.take(i + 1).drop_last() =~= e.take(i as int));
                assert(e.take(i + 1).last() == (x.0@, x.1@, x.2@));
            }
            if eq_chars(x.0.as_slice(), k) {
                let ghost r0 = r@;
                r.push((copy(&x.1), copy(&x.2)));
                proof {
                    assert(pairs_model(r@) =~= pairs_model(r0).push((x.1@, x.2@)));
                }
            }
            i = i + 1;
        }
        proof {
            assert(e.take(self.edges@.len() as int) =~= e);
        }
        r
    }

    /// A neighbour as context text.
    pub fn name_exec(&self, k: &[char], partner: &[char]) -> (r: Vec<char>)
        requires
            k@ == partner@ || lookup(self.title_log(), k@) is Some,
        ensures
            r@ == name(self.title_log(), k@, partner@),
    {
        if eq_chars(k, partner) {
            chars_of("\u{1}PARTNER")
        } else {
            match self.lookup_exec(k) {
                Some(t) => cut_title_chars(t.as_slice()),
                None => Vec::new(),
            }
        }
    }

    /// 1-hop lines, then 2-hop lines (through a neighbour, never back).
    pub fn links_exec(&self, key: &[char], partner: &[char]) -> (r: (Vec<Vec<char>>, Vec<Vec<char>>))
        requires
            links_defined(self.title_log(), self.edge_log(), key@, partner@),
        ensures
            (vvc(r.0@), vvc(r.1@)) == spec_links(self.title_log(), self.edge_log(), key@, partner@),
    {
        let ghost t = self.title_log();
        let ghost e = self.edge_log();
        let hop1 = self.adj_exec(key);
        let ghost hop = pairs_model(hop1@);
        let mut l1: Vec<Vec<char>> = Vec::new();
        let mut l2: Vec<Vec<char>> = Vec::new();
        let mut i: usize = 0;
        while i < hop1.len()
            invariant
                i <= hop1@.len(),
                t == self.title_log(),
                e == self.edge_log(),
                links_defined(t, e, key@, partner@),
                hop == pairs_model(hop1@),
                hop == adj_of(e, key@),
                vvc(l1@) == hop1_lines(t, hop.take(i as int), partner@),
                vvc(l2@) == hop2_lines(t, e, hop.take(i as int), key@, partner@),
            decreases hop1@.len() - i,
        {
            let x = &hop1[i];
            proof {
                assert(hop[i as int] == (x.0@, x.1@));
                assert(named(t, hop[i as int].1, partner@));
                assert(via_defined(t, hop[i as int].1, adj_of(e, hop[i as int].1), key@, partner@));
            }
            let n1 = self.name_exec(x.1.as_slice(), partner);
            let mut line = copy(&x.0);
            push_str(&mut line, ": ");
            push_all(&mut line, n1.as_slice());
            let ghost l10 = l1@;
            l1.push(line);
            proof {
                assert(hop.take(i + 1) =~= hop.take(i as int).push(hop[i as int]));
                assert(hop1_lines(t, hop.take(i + 1), partner@) =~= hop1_lines(t, hop.take(i as int), partner@).push(
                    x.0@ + ": "@ + name(t, x.1@, partner@),
                ));
                assert(vvc(l1@) =~= vvc(l10).push(line@));
            }
            let through = self.via_exec(&x.0, x.1.as_slice(), key, partner);
            let ghost l20 = l2@;
            let mut k: usize = 0;
            while k < through.len()
                invariant
                    k <= through@.len(),
                    vvc(l2@) == vvc(l20) + vvc(through@).take(k as int),
                decreases through@.len() - k,
            {
                let ghost l2k = l2@;
                l2.push(copy(&through[k]));
                k = k + 1;
                proof {
                    assert(vvc(l2@) =~= vvc(l2k).push(through@[k - 1]@));
                    assert(vvc(through@).take(k as int) =~= vvc(through@).take(k - 1).push(through@[k - 1]@));
                }
            }
            proof {
                assert(vvc(through@).take(through@.len() as int) =~= vvc(through@));
                assert(hop.take(i + 1).drop_last() =~= hop.take(i as int));
            }
            i = i + 1;
        }
        proof {
            assert(hop.take(hop1@.len() as int) =~= hop);
        }
        (l1, l2)
    }

    /// The 2-hop lines through neighbour `k1`, reached by phrase `p1`.
    fn via_exec(&self, p1: &Vec<char>, k1: &[char], key: &[char], partner: &[char]) -> (r: Vec<Vec<char>>)
        requires
            named(self.title_log(), k1@, partner@),
            via_defined(self.title_log(), k1@, adj_of(self.edge_log(), k1@), key@, partner@),
        ensures
            vvc(r@) == via_lines(self.title_log(), p1@, k1@, adj_of(self.edge_log(), k1@), key@, partner@),
    {
        let ghost t = self.title_log();
        let ghost e = self.edge_log();
        let hop2 = self.adj_exec(k1);
        let ghost h = pairs_model(hop2@);
        let n1 = self.name_exec(k1, partner);
        let mut r: Vec<Vec<char>> = Vec::new();
        let mut i: usize = 0;
        while i < hop2.len()
            invariant
                i <= hop2@.len(),
                t == self.title_log(),
                h == pairs_model(hop2@),
                h == adj_of(e, k1@),
                n1@ == name(t, k1@, partner@),
                via_defined(t, k1@, h, key@, partner@),
                vvc(r@) == via_lines(t, p1@, k1@, h.take(i as int), key@, partner@),
            decreases hop2@.len() - i,
        {
            let x = &hop2[i];
            proof {
                assert(h[i as int] == (x.0@, x.1@));
                assert(h.take(i + 1).drop_last() =~= h.take(i as int));
                assert(h.take(i + 1).last() == h[i as int]);
            }
            if !eq_chars(x.1.as_slice(), key) {
                proof {
                    assert(named(t, h[i as int].1, partner@));
                }
                let n2 = self.name_exec(x.1.as_slice(), partner);
                let mut line = copy(p1);
                push_str(&mut line, " ");
                push_all(&mut line, n1.as_slice());
                push_str(&mut line, " which ");
                push_all(&mut line, x.0.as_slice());
                push_str(&mut line, ": ");
                push_all(&mut line, n2.as_slice());
                let ghost r0 = r@;
                r.push(line);
                proof {
                    assert(vvc(r@) =~= vvc(r0).push(line@));
                }
            }
            i = i + 1;
        }
        proof {
            assert(h.take(hop2@.len() as int) =~= h);
        }
        r
    }

    /// Whether `k` can be named.
    fn named_exec(&self, k: &[char], partner: &[char]) -> (r: bool)
        ensures
            r == named(self.title_log(), k@, partner@),
    {
        eq_chars(k, partner) || self.lookup_exec(k).is_some()
    }

    /// Whether every 2-hop line through `k1` can be written.
    fn via_ok(&self, k1: &[char], key: &[char], partner: &[char]) -> (r: bool)
        ensures
            r == via_defined(self.title_log(), k1@, adj_of(self.edge_log(), k1@), key@, partner@),
    {
        let ghost t = self.title_log();
        let ghost e = self.edge_log();
        let hop2 = self.adj_exec(k1);
        let ghost h = pairs_model(hop2@);
        let k1n = self.named_exec(k1, partner);
        let mut i: usize = 0;
        while i < hop2.len()
            invariant
                i <= hop2@.len(),
                t == self.title_log(),
                e == self.edge_log(),
                h == pairs_model(hop2@),
                h == adj_of(e, k1@),
                k1n == named(t, k1@, partner@),
                forall|j: int| 0 <= j < i && (#[trigger] h[j]).1 != key@ ==> named(t, k1@, partner@) && named(t, h[j].1, partner@),
            decreases hop2@.len() - i,
        {
            let x = &hop2[i];
            proof {
                assert(h[i as int] == (x.0@, x.1@));
            }
            if !eq_chars(x.1.as_slice(), key) {
                if !k1n || !self.named_exec(x.1.as_slice(), partner) {
                    proof {
                        assert(h[i as int].1 != key@);
                        assert(!(named(t, k1@, partner@) && named(t, h[i as int].1, partner@)));
                        assert(0 <= i < h.len());
                        assert(!via_defined(t, k1@, h, key@, partner@));
                    }
                    return false;
                }
            }
            i = i + 1;
        }
        true
    }

    /// Whether every context line of `key` can be written.
    pub fn links_ok(&self, key: &[char], partner: &[char]) -> (r: bool)
        ensures
            r == links_defined(self.title_log(), self.edge_log(), key@, partner@),
    {
        let ghost t = self.title_log();
        let ghost e = self.edge_log();
        let hop1 = self.adj_exec(key);
        let ghost hop = pairs_model(hop1@);
        let mut i: usize = 0;
        while i < hop1.len()
            invariant
                i <= hop1@.len(),
                t == self.title_log(),
                e == self.edge_log(),
                hop == pairs_model(hop1@),
                hop == adj_of(e, key@),
                forall|j: int|
                    0 <= j < i ==> named(t, (#[trigger] hop[j]).1, partner@) && via_defined(t, hop[j].1, adj_of(e, hop[j].1), key@, partner@),
            decreases hop1@.len() - i,
        {
            let x = &hop1[i];
            proof {
                assert(hop[i as int] == (x.0@, x.1@));
            }
            if !self.named_exec(x.1.as_slice(), partner) {
                return false;
            }
            if !self.via_ok(x.1.as_slice(), key, partner) {
                return false;
            }
            i = i + 1;
        }
        true
    }

    /// Whether every dependency of `key` other than the partner has a title.
    pub fn deps_ok(&self, key: &[char], partner: &[char]) -> (r: bool)
        ensures
            r == deps_defined(self.title_log(), adj_of(self.edge_log(), key@), partner@),
    {
        let ghost t = self.title_log();
        let ghost e = self.edge_log();
        let hop1 = self.adj_exec(key);
        let ghost h = pairs_model(hop1@);
        let mut i: usize = 0;
        while i < hop1.len()
            invariant
                i <= hop1@.len(),
                t == self.title_log(),
                e == self.edge_log(),
                h == pairs_model(hop1@),
                h == adj_of(e, key@),
                forall|j: int|
                    0 <= j < i && is_dep_phrase((#[trigger] h[j]).0) && h[j].1 != partner@ ==> lookup(t, h[j].1) is Some,
            decreases hop1@.len() - i,
        {
            let x = &hop1[i];
            proof {
                assert(h[i as int] == (x.0@, x.1@));
            }
            let p = x.0.as_slice();
            let dep = eq_str(p, "builds on") || eq_str(p, "needs") || eq_str(p, "holds because");
            if dep && !eq_chars(x.1.as_slice(), partner) && self.lookup_exec(x.1.as_slice()).is_none() {
                proof {
                    assert(is_dep_phrase(h[i as int].0));
                    assert(h[i as int].1 != partner@);
                    assert(lookup(t, h[i as int].1) is None);
                    assert(0 <= i < h.len());
                    assert(!deps_defined(t, h, partner@));
                }
                return false;
            }
            i = i + 1;
        }
        true
    }

    /// Titles `key` depends on: its outgoing builds-on / needs / because.
    pub fn deps_exec(&self, key: &[char], partner: &[char]) -> (r: Vec<Vec<char>>)
        requires
            deps_defined(self.title_log(), adj_of(self.edge_log(), key@), partner@),
        ensures
            vvc(r@) == deps_of(self.title_log(), adj_of(self.edge_log(), key@), partner@),
    {
        let ghost t = self.title_log();
        let ghost e = self.edge_log();
        let hop1 = self.adj_exec(key);
        let ghost h = pairs_model(hop1@);
        let mut r: Vec<Vec<char>> = Vec::new();
        let mut i: usize = 0;
        while i < hop1.len()
            invariant
                i <= hop1@.len(),
                t == self.title_log(),
                h == pairs_model(hop1@),
                h == adj_of(e, key@),
                deps_defined(t, h, partner@),
                vvc(r@) == deps_of(t, h.take(i as int), partner@),
            decreases hop1@.len() - i,
        {
            let x = &hop1[i];
            proof {
                assert(h[i as int] == (x.0@, x.1@));
                assert(h.take(i + 1).drop_last() =~= h.take(i as int));
                assert(h.take(i + 1).last() == h[i as int]);
            }
            let p = x.0.as_slice();
            let dep = eq_str(p, "builds on") || eq_str(p, "needs") || eq_str(p, "holds because");
            if dep && !eq_chars(x.1.as_slice(), partner) {
                match self.lookup_exec(x.1.as_slice()) {
                    Some(title) => {
                        let ghost r0 = r@;
                        r.push(title);
                        proof {
                            assert(vvc(r@) =~= vvc(r0).push(lookup(t, x.1@).unwrap()));
                        }
                    },
                    None => {},
                }
            }
            i = i + 1;
        }
        proof {
            assert(h.take(hop1@.len() as int) =~= h);
        }
        r
    }

    /// Drop every edge between `a` and `b`, both directions.
    pub fn remove_edges(&mut self, a: &[char], b: &[char])
        ensures
            final(self).edge_log() == without_edges(old(self).edge_log(), a@, b@),
            final(self).title_log() == old(self).title_log(),
    {
        let ghost e = self.edge_log();
        let mut kept: Vec<(Vec<char>, Vec<char>, Vec<char>)> = Vec::new();
        let mut i: usize = 0;
        while i < self.edges.len()
            invariant
                i <= self.edges@.len(),
                e == self.edge_log(),
                triples_model(kept@) == without_edges(e.take(i as int), a@, b@),
            decreases self.edges@.len() - i,
        {
            let x = &self.edges[i];
            proof {
                assert(e.take(i + 1).drop_last() =~= e.take(i as int));
                assert(e.take(i + 1).last() == (x.0@, x.1@, x.2@));
            }
            let between = (eq_chars(x.0.as_slice(), a) && eq_chars(x.2.as_slice(), b)) || (eq_chars(
                x.0.as_slice(),
                b,
            ) && eq_chars(x.2.as_slice(), a));
            if !between {
                let ghost k0 = kept@;
                kept.push((copy(&x.0), copy(&x.1), copy(&x.2)));
                proof {
                    assert(triples_model(kept@) =~= triples_model(k0).push((x.0@, x.1@, x.2@)));
                }
            }
            i = i + 1;
        }
        proof {
            assert(e.take(self.edges@.len() as int) =~= e);
        }
        self.edges = kept;
    }
}

} // verus!
