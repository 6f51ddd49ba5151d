//! Planting: one case per tested fact, the least-planted shape that applies
//! to it (ties broken by rotation), with the graph context around the pair.

use vstd::prelude::*;

use crate::corpus::{Corpus, Edge, Fact, Kind};
use crate::shapes::catalog::{lemma_shape_names_distinct, SHAPES};
use crate::shapes::graph::{
    adj_of, deps_defined, deps_of, links_defined, lookup, spec_links, with_edge, without_edges, EdgeLog, Graph, Text,
    TitleLog,
};
use crate::shapes::make::{
    applies_exec, lemma_shape_applies, make_exec, make_fits, make_fits_exec, note_model, opt_str, shape_applies, spec_make, Bridge, BridgeModel,
};
use crate::shapes::forms::{verb_in, verb_out};
use crate::text::{chars_of, decimal, decimal_exec, eq_chars, push_all, rsplit_once, rsplit_once_exec, string_of, vvc};

verus! {

/// One note as the judge may see it.
#[derive(Debug, Clone)]
pub struct NoteText {
    pub title: String,
    pub body: String,
}

/// A [`NoteText`] as text.
pub struct NoteModel {
    pub title: Text,
    pub body: Text,
}

impl View for NoteText {
    type V = NoteModel;

    open spec fn view(&self) -> NoteModel {
        NoteModel { title: self.title@, body: self.body@ }
    }
}

/// One planted pair: the truth (premise side) against the planted note.
#[derive(Debug, Clone)]
pub struct Case {
    pub shape: &'static str,
    pub tier: u8,
    pub positive: bool,
    pub truth: NoteText,
    pub planted: NoteText,
    /// Cut-title context lines per side, 1-hop and 2-hop.
    pub truth_links1: Vec<String>,
    pub truth_links2: Vec<String>,
    pub planted_links1: Vec<String>,
    pub planted_links2: Vec<String>,
    /// Titles the truth depends on (`builds-on`, `needs`, `because` out of
    /// it), the pair partner excluded: what the propagation rule walks.
    pub truth_deps: Vec<String>,
}

/// A [`Case`] as text.
pub struct CaseModel {
    pub shape: Text,
    pub tier: u8,
    pub positive: bool,
    pub truth: NoteModel,
    pub planted: NoteModel,
    pub truth_links1: Seq<Text>,
    pub truth_links2: Seq<Text>,
    pub planted_links1: Seq<Text>,
    pub planted_links2: Seq<Text>,
    pub truth_deps: Seq<Text>,
}

impl View for Case {
    type V = CaseModel;

    open spec fn view(&self) -> CaseModel {
        CaseModel {
            shape: self.shape@,
            tier: self.tier,
            positive: self.positive,
            truth: self.truth@,
            planted: self.planted@,
            truth_links1: self.truth_links1.deep_view(),
            truth_links2: self.truth_links2.deep_view(),
            planted_links1: self.planted_links1.deep_view(),
            planted_links2: self.planted_links2.deep_view(),
            truth_deps: self.truth_deps.deep_view(),
        }
    }
}

// ------------------------------------------------------------ specification

/// The component a subject names: its last word (empty for a one-word subject).
pub open spec fn component(f: Fact) -> Text {
    match rsplit_once(f.subject@, " "@) {
        Some((_head, c)) => c,
        None => seq![],
    }
}

/// The first fact from `i` on with another key and another kind than `f`,
/// in `f`'s component when `same` holds, outside it otherwise.
pub open spec fn first_other(facts: Seq<Fact>, f: Fact, same: bool, i: int) -> Option<int>
    decreases facts.len() - i,
{
    if i < 0 || i >= facts.len() {
        None
    } else if facts[i].key@ != f.key@ && facts[i].kind != f.kind && (component(facts[i]) == component(f))
        == same {
        Some(i)
    } else {
        first_other(facts, f, same, i + 1)
    }
}

/// The subject of the first fact of another kind in `f`'s component.
pub open spec fn other_subject(facts: Seq<Fact>, f: Fact) -> Option<Text> {
    match first_other(facts, f, true, 0) {
        Some(j) => Some(facts[j].subject@),
        None => None,
    }
}

/// The predicate of the first fact of another kind outside `f`'s component.
pub open spec fn other_predicate(facts: Seq<Fact>, f: Fact) -> Option<Text> {
    match first_other(facts, f, false, 0) {
        Some(j) => Some(facts[j].predicate@),
        None => None,
    }
}

/// Fact `o` may lend `f` a subject (`same`) or a predicate (`!same`): it is
/// another fact, of another kind, inside `f`'s component or outside it.
pub open spec fn lends_to(o: Fact, f: Fact, same: bool) -> bool {
    &&& o.key@ != f.key@
    &&& o.kind != f.kind
    &&& (component(o) == component(f)) == same
}

proof fn lemma_first_other_is_first(facts: Seq<Fact>, f: Fact, same: bool, i: int)
    requires
        0 <= i,
    ensures
        first_other(facts, f, same, i) matches Some(j) ==> i <= j < facts.len() && lends_to(facts[j], f, same)
            && forall|k: int| i <= k < j ==> !lends_to(#[trigger] facts[k], f, same),
        first_other(facts, f, same, i) is None ==> forall|k: int| i <= k < facts.len() ==> !lends_to(#[trigger] facts[k], f, same),
    decreases facts.len() - i,
{
    if i < facts.len() {
        lemma_first_other_is_first(facts, f, same, i + 1);
    }
}

/// The other subject of a fact is that of the first fact of another kind
/// (and key) inside its component, and the other predicate that of the
/// first such fact outside it; either is absent exactly when there is no
/// such fact.
pub proof fn law_borrowed_from_another_kind(facts: Seq<Fact>, f: Fact)
    ensures
        other_subject(facts, f) matches Some(s) ==> exists|j: int|
            0 <= j < facts.len() && #[trigger] lends_to(facts[j], f, true) && facts[j].subject@ == s && forall|k: int|
                0 <= k < j ==> !lends_to(#[trigger] facts[k], f, true),
        other_subject(facts, f) is None <==> forall|k: int| 0 <= k < facts.len() ==> !lends_to(#[trigger] facts[k], f, true),
        other_predicate(facts, f) matches Some(p) ==> exists|j: int|
            0 <= j < facts.len() && #[trigger] lends_to(facts[j], f, false) && facts[j].predicate@ == p && forall|k: int|
                0 <= k < j ==> !lends_to(#[trigger] facts[k], f, false),
        other_predicate(facts, f) is None <==> forall|k: int| 0 <= k < facts.len() ==> !lends_to(#[trigger] facts[k], f, false),
{
    lemma_first_other_is_first(facts, f, true, 0);
    lemma_first_other_is_first(facts, f, false, 0);
    match first_other(facts, f, true, 0) {
        Some(j) => {
            assert(lends_to(facts[j], f, true));
        },
        None => {},
    }
    match first_other(facts, f, false, 0) {
        Some(j) => {
            assert(lends_to(facts[j], f, false));
        },
        None => {},
    }
}

/// Where shape `i` stands in the rotation that starts at `n % 18`.
pub open spec fn rotation(n: int, i: int) -> int {
    (i + 18 - n % 18) % 18
}

/// Shape `i` is tried before shape `j`: it was planted less often, or as
/// often and it comes first in the rotation.
pub open spec fn tried_before(planted: Seq<int>, n: int, i: int, j: int) -> bool {
    planted[i] < planted[j] || (planted[i] == planted[j] && rotation(n, i) < rotation(n, j))
}

/// Shape `i` applies to the fact.
pub open spec fn applies(i: int, f: Fact, salt: int, os: Option<Text>, op: Option<Text>) -> bool {
    spec_make(i, f, salt, os, op) is Some
}

/// Shape `i` is the first applicable shape in the planting order.
pub open spec fn is_chosen(planted: Seq<int>, n: int, i: int, f: Fact, salt: int, os: Option<Text>, op: Option<Text>) -> bool {
    &&& 0 <= i < 18
    &&& applies(i, f, salt, os, op)
    &&& forall|j: int| 0 <= j < 18 && j != i && applies(j, f, salt, os, op) ==> tried_before(planted, n, i, j)
}

/// The least-planted shape that applies to the fact (ties broken by
/// rotation), if any applies.
pub open spec fn chosen_shape(planted: Seq<int>, n: int, f: Fact, salt: int, os: Option<Text>, op: Option<Text>) -> Option<int> {
    if exists|i: int| is_chosen(planted, n, i, f, salt, os, op) {
        Some(choose|i: int| is_chosen(planted, n, i, f, salt, os, op))
    } else {
        None
    }
}

/// The state the planter carries from fact to fact.
pub struct PlantState {
    pub titles: TitleLog,
    pub edges: EdgeLog,
    pub planted: Seq<int>,
    pub cases: Seq<CaseModel>,
}

pub open spec fn initial_titles(facts: Seq<Fact>) -> TitleLog {
    facts.map_values(|f: Fact| (f.key@, f.title@))
}

pub open spec fn initial_edges(edges: Seq<Edge>) -> EdgeLog
    decreases edges.len(),
{
    if edges.len() == 0 {
        seq![]
    } else {
        let e = edges.last();
        with_edge(initial_edges(edges.drop_last()), e.from@, e.verb@, e.to@)
    }
}

pub open spec fn initial_state(c: Corpus) -> PlantState {
    PlantState {
        titles: initial_titles(c.facts@),
        edges: initial_edges(c.edges@),
        planted: Seq::new(18, |i: int| 0int),
        cases: seq![],
    }
}

/// The tested facts, in corpus order.
pub open spec fn tested(facts: Seq<Fact>) -> Seq<Fact>
    decreases facts.len(),
{
    if facts.len() == 0 {
        seq![]
    } else if facts.last().tested {
        tested(facts.drop_last()).push(facts.last())
    } else {
        tested(facts.drop_last())
    }
}

/// The key of the note planted for the `n`-th tested fact.
pub open spec fn planted_key(n: int) -> Text {
    "planted-"@ + decimal(n as nat)
}

/// The key of the upstream note of the `n`-th tested fact.
pub open spec fn upstream_key(n: int) -> Text {
    "upstream-"@ + decimal(n as nat)
}

/// The case for `f` once its planted note (and upstream note) hang in the
/// graph `(t, e)`.
pub open spec fn case_of(t: TitleLog, e: EdgeLog, f: Fact, idx: int, title: Text, body: Text, pkey: Text) -> CaseModel {
    let truth_links = spec_links(t, e, f.key@, pkey);
    let planted_links = spec_links(t, e, pkey, f.key@);
    CaseModel {
        shape: SHAPES@[idx].0@,
        tier: SHAPES@[idx].1,
        positive: SHAPES@[idx].2,
        truth: NoteModel { title: f.title@, body: f.body@ },
        planted: NoteModel { title, body },
        truth_links1: truth_links.0,
        truth_links2: truth_links.1,
        planted_links1: planted_links.0,
        planted_links2: planted_links.1,
        truth_deps: deps_of(t, adj_of(e, f.key@), pkey),
    }
}

/// Planting the `n`-th tested fact `f`.
pub open spec fn plant_step(st: PlantState, c: Corpus, n: int, f: Fact) -> PlantState {
    let salt = n + 17;
    let os = other_subject(c.facts@, f);
    let op = other_predicate(c.facts@, f);
    match chosen_shape(st.planted, n, f, salt, os, op) {
        None => st,
        Some(idx) => {
            let note = spec_make(idx, f, salt, os, op).unwrap();
            let pkey = planted_key(n);
            let gkey = upstream_key(n);
            let t1 = st.titles.push((pkey, note.0));
            let t2 = match note.2 {
                BridgeModel::Upstream(u) => t1.push((gkey, u)),
                _ => t1,
            };
            let e1 = match note.2 {
                BridgeModel::Unlinked => st.edges,
                BridgeModel::Direct => with_edge(st.edges, f.key@, "builds-on"@, pkey),
                BridgeModel::Upstream(_u) => with_edge(st.edges, f.key@, "builds-on"@, gkey),
            };
            PlantState {
                titles: t2,
                edges: without_edges(without_edges(e1, f.key@, pkey), f.key@, gkey),
                planted: st.planted.update(idx, st.planted[idx] + 1),
                cases: st.cases.push(case_of(t2, e1, f, idx, note.0, note.1, pkey)),
            }
        },
    }
}

/// The state after planting each of `ts`, in order.
pub open spec fn plant_fold(c: Corpus, ts: Seq<Fact>) -> PlantState
    decreases ts.len(),
{
    if ts.len() == 0 {
        initial_state(c)
    } else {
        plant_step(plant_fold(c, ts.drop_last()), c, ts.len() - 1, ts.last())
    }
}

/// The cases planted for a corpus.
pub open spec fn spec_plant(c: Corpus) -> Seq<CaseModel> {
    plant_fold(c, tested(c.facts@)).cases
}

/// The numbers the shape chosen for the fact states, with `planted` the
/// counts so far and `n` the fact's place among the tested facts, fit in a
/// `u64`.
pub open spec fn chosen_fits(planted: Seq<int>, n: int, f: Fact, facts: Seq<Fact>) -> bool {
    let os = other_subject(facts, f);
    let op = other_predicate(facts, f);
    chosen_shape(planted, n, f, n + 17, os, op) matches Some(i) ==> make_fits(i, f, n + 17, os, op)
}

/// The graph once the note planted for `f` (and its upstream note) hang in
/// it, before the scaffolding is dropped: the titles and edges the case's
/// context is read from.
pub open spec fn step_graph(st: PlantState, f: Fact, n: int, note: (Text, Text, BridgeModel)) -> (TitleLog, EdgeLog) {
    let pkey = planted_key(n);
    let gkey = upstream_key(n);
    let t1 = st.titles.push((pkey, note.0));
    let t2 = match note.2 {
        BridgeModel::Upstream(u) => t1.push((gkey, u)),
        _ => t1,
    };
    let e1 = match note.2 {
        BridgeModel::Unlinked => st.edges,
        BridgeModel::Direct => with_edge(st.edges, f.key@, "builds-on"@, pkey),
        BridgeModel::Upstream(_u) => with_edge(st.edges, f.key@, "builds-on"@, gkey),
    };
    (t2, e1)
}

/// Planting the `n`-th tested fact `f` from state `st` reads a title for
/// every node its context lines and dependencies name.
pub open spec fn step_defined(st: PlantState, c: Corpus, n: int, f: Fact) -> bool {
    let os = other_subject(c.facts@, f);
    let op = other_predicate(c.facts@, f);
    match chosen_shape(st.planted, n, f, n + 17, os, op) {
        None => true,
        Some(idx) => {
            let g = step_graph(st, f, n, spec_make(idx, f, n + 17, os, op).unwrap());
            let pkey = planted_key(n);
            &&& links_defined(g.0, g.1, f.key@, pkey)
            &&& links_defined(g.0, g.1, pkey, f.key@)
            &&& deps_defined(g.0, adj_of(g.1, f.key@), pkey)
        },
    }
}

/// Planting the `n`-th tested fact `f` from state `st` neither overflows
/// nor names a node without a title.
pub open spec fn step_ok(st: PlantState, c: Corpus, n: int, f: Fact) -> bool {
    chosen_fits(st.planted, n, f, c.facts@) && step_defined(st, c, n, f)
}

/// Planting the `n`-th tested fact of the corpus goes through.
pub open spec fn planted_ok(c: Corpus, n: int) -> bool {
    let ts = tested(c.facts@);
    step_ok(plant_fold(c, ts.take(n)), c, n, ts[n])
}

/// What planting needs of a corpus: every step goes through (the numbers
/// the chosen shapes compute fit, and every node a context line or
/// dependency names has a title), and the salt does not overflow.
pub open spec fn plantable(c: Corpus) -> bool {
    &&& forall|n: int| 0 <= n < tested(c.facts@).len() ==> #[trigger] planted_ok(c, n)
    &&& c.facts@.len() + 18 <= usize::MAX
}


// ------------------------------------------------------------ lemmas

pub proof fn lemma_rotation_distinct(n: int, i: int, j: int)
    requires
        0 <= i < 18,
        0 <= j < 18,
        i != j,
        0 <= n,
    ensures
        rotation(n, i) != rotation(n, j),
        0 <= rotation(n, i) < 18,
{
    let m = n % 18;
    assert(0 <= m < 18);
}

pub proof fn lemma_chosen_unique(planted: Seq<int>, n: int, i: int, f: Fact, salt: int, os: Option<Text>, op: Option<Text>)
    requires
        is_chosen(planted, n, i, f, salt, os, op),
        0 <= n,
    ensures
        chosen_shape(planted, n, f, salt, os, op) == Some(i),
{
    let c = choose|k: int| is_chosen(planted, n, k, f, salt, os, op);
    assert(is_chosen(planted, n, c, f, salt, os, op));
    if c != i {
        lemma_rotation_distinct(n, i, c);
        assert(tried_before(planted, n, i, c));
        assert(tried_before(planted, n, c, i));
    }
}

pub proof fn lemma_no_choice(planted: Seq<int>, n: int, f: Fact, salt: int, os: Option<Text>, op: Option<Text>)
    requires
        forall|j: int| 0 <= j < 18 ==> !applies(j, f, salt, os, op),
    ensures
        chosen_shape(planted, n, f, salt, os, op) is None,
{
}

pub proof fn lemma_first_other_range(facts: Seq<Fact>, f: Fact, same: bool, i: int)
    ensures
        first_other(facts, f, same, i) matches Some(k) ==> 0 <= k < facts.len(),
    decreases facts.len() - i,
{
    if 0 <= i < facts.len() {
        lemma_first_other_range(facts, f, same, i + 1);
    }
}

// ------------------------------------------------------------ laws

/// Shape `best` leads the planting order among the applicable shapes below `k`.
pub open spec fn leads_below(planted: Seq<int>, n: int, best: int, k: int, f: Fact, salt: int, os: Option<Text>, op: Option<Text>) -> bool {
    &&& 0 <= best < k
    &&& applies(best, f, salt, os, op)
    &&& forall|j: int| 0 <= j < k && j != best && applies(j, f, salt, os, op) ==> tried_before(planted, n, best, j)
}

proof fn lemma_leader(planted: Seq<int>, n: int, f: Fact, salt: int, os: Option<Text>, op: Option<Text>, k: int) -> (best: int)
    requires
        1 <= k <= 18,
        0 <= n,
        applies(0, f, salt, os, op),
    ensures
        leads_below(planted, n, best, k, f, salt, os, op),
    decreases k,
{
    if k == 1 {
        0
    } else {
        let b = lemma_leader(planted, n, f, salt, os, op, k - 1);
        let c = k - 1;
        if applies(c, f, salt, os, op) {
            lemma_rotation_distinct(n, b, c);
            if tried_before(planted, n, c, b) {
                assert forall|j: int| 0 <= j < k && j != c && applies(j, f, salt, os, op) implies tried_before(
                    planted,
                    n,
                    c,
                    j,
                ) by {
                    if j != b {
                        assert(tried_before(planted, n, b, j));
                    }
                }
                c
            } else {
                b
            }
        } else {
            b
        }
    }
}

/// The `value` shape applies to every fact, so some shape is always chosen.
proof fn lemma_some_shape(planted: Seq<int>, n: int, f: Fact, salt: int, os: Option<Text>, op: Option<Text>)
    requires
        0 <= n,
    ensures
        chosen_shape(planted, n, f, salt, os, op) is Some,
{
    assert(applies(0, f, salt, os, op));
    let b = lemma_leader(planted, n, f, salt, os, op, 18);
    lemma_chosen_unique(planted, n, b, f, salt, os, op);
}

proof fn lemma_fold_cases(c: Corpus, ts: Seq<Fact>)
    ensures
        plant_fold(c, ts).cases.len() == ts.len(),
        forall|m: int|
            0 <= m < ts.len() ==> (#[trigger] plant_fold(c, ts).cases[m]).truth == (NoteModel {
                title: ts[m].title@,
                body: ts[m].body@,
            }),
    decreases ts.len(),
{
    if ts.len() > 0 {
        let prev = plant_fold(c, ts.drop_last());
        lemma_fold_cases(c, ts.drop_last());
        let n = ts.len() - 1;
        let f = ts.last();
        lemma_some_shape(prev.planted, n, f, n + 17, other_subject(c.facts@, f), other_predicate(c.facts@, f));
        assert forall|m: int| 0 <= m < ts.len() implies (#[trigger] plant_fold(c, ts).cases[m]).truth == (NoteModel {
            title: ts[m].title@,
            body: ts[m].body@,
        }) by {
            if m < n {
                assert(plant_fold(c, ts).cases[m] == prev.cases[m]);
                assert(ts.drop_last()[m] == ts[m]);
            }
        }
    }
}

/// Planting yields one case per tested fact, in corpus order: case `m` has
/// the `m`-th tested fact as its truth.
pub proof fn law_one_case_per_tested_fact(c: Corpus)
    ensures
        spec_plant(c).len() == tested(c.facts@).len(),
        forall|m: int|
            0 <= m < spec_plant(c).len() ==> (#[trigger] spec_plant(c)[m]).truth == (NoteModel {
                title: tested(c.facts@)[m].title@,
                body: tested(c.facts@)[m].body@,
            }),
{
    lemma_fold_cases(c, tested(c.facts@));
}

/// How many of the cases carry the shape `name`.
pub open spec fn shape_count(cs: Seq<CaseModel>, name: Text) -> int
    decreases cs.len(),
{
    if cs.len() == 0 {
        0
    } else {
        shape_count(cs.drop_last(), name) + if cs.last().shape == name {
            1int
        } else {
            0int
        }
    }
}

/// How often each shape of the rotation was planted, as the cases show it.
pub open spec fn counts_of(cs: Seq<CaseModel>) -> Seq<int> {
    Seq::new(18, |k: int| shape_count(cs, SHAPES@[k].0@))
}

proof fn lemma_fold_counts(c: Corpus, ts: Seq<Fact>)
    ensures
        plant_fold(c, ts).planted == counts_of(plant_fold(c, ts).cases),
    decreases ts.len(),
{
    if ts.len() == 0 {
        assert(initial_state(c).planted =~= counts_of(Seq::<CaseModel>::empty()));
    } else {
        lemma_fold_counts(c, ts.drop_last());
        let prev = plant_fold(c, ts.drop_last());
        let n = ts.len() - 1;
        let f = ts.last();
        let salt = n + 17;
        let os = other_subject(c.facts@, f);
        let op = other_predicate(c.facts@, f);
        lemma_some_shape(prev.planted, n, f, salt, os, op);
        let idx = chosen_shape(prev.planted, n, f, salt, os, op).unwrap();
        assert(exists|i: int| is_chosen(prev.planted, n, i, f, salt, os, op));
        assert(is_chosen(prev.planted, n, idx, f, salt, os, op));
        lemma_shape_names_distinct();
        let st = plant_fold(c, ts);
        assert(st.cases.drop_last() =~= prev.cases);
        assert(st.cases.last().shape == SHAPES@[idx].0@);
        assert forall|k: int| 0 <= k < 18 implies st.planted[k] == shape_count(st.cases, SHAPES@[k].0@) by {
            assert(prev.planted[k] == shape_count(prev.cases, SHAPES@[k].0@));
            if k != idx {
                assert(SHAPES@[idx].0@ != SHAPES@[k].0@);
            }
        }
        assert(st.planted =~= counts_of(st.cases));
    }
}

proof fn lemma_fold_prefix(c: Corpus, ts: Seq<Fact>, m: int)
    requires
        0 <= m <= ts.len(),
    ensures
        plant_fold(c, ts.take(m)).cases == plant_fold(c, ts).cases.take(m),
    decreases ts.len(),
{
    lemma_fold_cases(c, ts);
    if m == ts.len() {
        assert(ts.take(m) =~= ts);
        assert(plant_fold(c, ts).cases.take(m) =~= plant_fold(c, ts).cases);
    } else {
        let d = ts.drop_last();
        lemma_fold_prefix(c, d, m);
        assert(d.take(m) =~= ts.take(m));
        let prev = plant_fold(c, d);
        lemma_fold_cases(c, d);
        let n = ts.len() - 1;
        let f = ts.last();
        lemma_some_shape(prev.planted, n, f, n + 17, other_subject(c.facts@, f), other_predicate(c.facts@, f));
        assert(plant_fold(c, ts).cases.drop_last() =~= prev.cases);
        assert(plant_fold(c, ts).cases.take(m) =~= prev.cases.take(m));
    }
}

/// Case `n` carries the least-planted shape that applies to its fact, ties
/// broken by the rotation that starts at `n`, counting the shapes of the
/// cases before it.
pub open spec fn least_planted_at(c: Corpus, n: int) -> bool {
    let f = tested(c.facts@)[n];
    let counts = counts_of(spec_plant(c).take(n));
    let os = other_subject(c.facts@, f);
    let op = other_predicate(c.facts@, f);
    let chosen = chosen_shape(counts, n, f, n + 17, os, op);
    &&& chosen is Some
    &&& is_chosen(counts, n, chosen.unwrap(), f, n + 17, os, op)
    &&& spec_plant(c)[n].shape == SHAPES@[chosen.unwrap()].0@
}

/// Each case's shape is the least-planted shape that applies to its fact,
/// ties broken by the rotation that starts at the case's index, counting
/// the shapes of the cases planted before it.
pub proof fn law_least_planted_shape(c: Corpus)
    ensures
        forall|n: int| 0 <= n < spec_plant(c).len() ==> #[trigger] least_planted_at(c, n),
{
    let ts = tested(c.facts@);
    lemma_fold_cases(c, ts);
    assert forall|n: int| 0 <= n < spec_plant(c).len() implies #[trigger] least_planted_at(c, n) by {
        let f = ts[n];
        let salt = n + 17;
        let os = other_subject(c.facts@, f);
        let op = other_predicate(c.facts@, f);
        let st = plant_fold(c, ts.take(n));
        lemma_fold_counts(c, ts.take(n));
        lemma_fold_prefix(c, ts, n);
        lemma_fold_prefix(c, ts, n + 1);
        assert(ts.take(n + 1).drop_last() =~= ts.take(n));
        assert(ts.take(n + 1).last() == f);
        lemma_some_shape(st.planted, n, f, salt, os, op);
        let idx = chosen_shape(st.planted, n, f, salt, os, op).unwrap();
        assert(exists|i: int| is_chosen(st.planted, n, i, f, salt, os, op));
        assert(is_chosen(st.planted, n, idx, f, salt, os, op));
        let next = plant_fold(c, ts.take(n + 1));
        lemma_fold_cases(c, ts.take(n));
        assert(next.cases[n] == spec_plant(c)[n]);
        assert(next.cases[n].shape == SHAPES@[idx].0@);
        assert(st.planted == counts_of(spec_plant(c).take(n)));
    }
}

/// A key that no planted or upstream note is given.
pub open spec fn unnumbered(k: Text) -> bool {
    forall|n: int| 0 <= n ==> k != #[trigger] planted_key(n) && k != upstream_key(n)
}

/// No entry of the edge log has `k` at either end.
pub open spec fn untouched(e: EdgeLog, k: Text) -> bool {
    forall|i: int| 0 <= i < e.len() ==> (#[trigger] e[i]).0 != k && e[i].2 != k
}

proof fn lemma_without_untouched(e: EdgeLog, a: Text, b: Text)
    requires
        untouched(e, b),
    ensures
        without_edges(e, a, b) == e,
    decreases e.len(),
{
    if e.len() > 0 {
        let d = e.drop_last();
        assert(untouched(d, b)) by {
            assert forall|i: int| 0 <= i < d.len() implies (#[trigger] d[i]).0 != b && d[i].2 != b by {
                assert(d[i] == e[i]);
            }
        }
        lemma_without_untouched(d, a, b);
        assert(e[e.len() - 1] == e.last());
        assert(d.push(e.last()) =~= e);
    }
}

proof fn lemma_initial_edges_ends(edges: Seq<Edge>)
    requires
        forall|i: int| 0 <= i < edges.len() ==> unnumbered((#[trigger] edges[i]).from@) && unnumbered(edges[i].to@),
    ensures
        forall|n: int| 0 <= n ==> untouched(initial_edges(edges), #[trigger] planted_key(n)) && untouched(
            initial_edges(edges),
            upstream_key(n),
        ),
    decreases edges.len(),
{
    if edges.len() > 0 {
        let d = edges.drop_last();
        assert forall|i: int| 0 <= i < d.len() implies unnumbered((#[trigger] d[i]).from@) && unnumbered(d[i].to@) by {
            assert(d[i] == edges[i]);
        }
        lemma_initial_edges_ends(d);
        let x = edges[edges.len() - 1];
        assert(x == edges.last());
        assert(unnumbered(x.from@) && unnumbered(x.to@));
        let e = initial_edges(edges);
        let e0 = initial_edges(d);
        assert forall|n: int| 0 <= n implies untouched(e, #[trigger] planted_key(n)) && untouched(e, upstream_key(n)) by {
            assert(x.from@ != planted_key(n) && x.to@ != planted_key(n));
            assert(x.from@ != upstream_key(n) && x.to@ != upstream_key(n));
            assert forall|i: int| 0 <= i < e.len() implies (#[trigger] e[i]).0 != planted_key(n) && e[i].2 != planted_key(n)
                && e[i].0 != upstream_key(n) && e[i].2 != upstream_key(n) by {
                if i < e0.len() {
                    assert(e[i] == e0[i]);
                    assert(untouched(e0, planted_key(n)));
                    assert(untouched(e0, upstream_key(n)));
                }
            }
        }
    }
}

proof fn lemma_planted_upstream_differ(n: int)
    requires
        0 <= n,
    ensures
        planted_key(n) != upstream_key(n),
{
    reveal_strlit("planted-");
    reveal_strlit("upstream-");
    assert(planted_key(n)[0] == 'p');
    assert(upstream_key(n)[0] == 'u');
}

proof fn lemma_step_edges(st: PlantState, c: Corpus, n: int, f: Fact)
    requires
        0 <= n,
        untouched(st.edges, planted_key(n)),
        untouched(st.edges, upstream_key(n)),
    ensures
        plant_step(st, c, n, f).edges == st.edges,
{
    let salt = n + 17;
    let os = other_subject(c.facts@, f);
    let op = other_predicate(c.facts@, f);
    let k = f.key@;
    let p = planted_key(n);
    let g = upstream_key(n);
    let e = st.edges;
    lemma_planted_upstream_differ(n);
    match chosen_shape(st.planted, n, f, salt, os, op) {
        None => {},
        Some(idx) => {
            let note = spec_make(idx, f, salt, os, op).unwrap();
            lemma_without_untouched(e, k, p);
            lemma_without_untouched(e, k, g);
            match note.2 {
                BridgeModel::Unlinked => {},
                BridgeModel::Direct => {
                    let e1 = with_edge(e, k, "builds-on"@, p);
                    assert(e1.drop_last().drop_last() =~= e);
                    assert(without_edges(e1, k, p) == without_edges(e1.drop_last(), k, p));
                    assert(without_edges(e1.drop_last(), k, p) == without_edges(e, k, p));
                },
                BridgeModel::Upstream(_u) => {
                    let e1 = with_edge(e, k, "builds-on"@, g);
                    let x = (k, verb_out("builds-on"@), g);
                    let y = (g, verb_in("builds-on"@), k);
                    assert(e1 =~= e.push(x).push(y));
                    assert(e1.drop_last() =~= e.push(x));
                    assert(e.push(x).drop_last() =~= e);
                    assert(e.push(x).last() == x);
                    assert(without_edges(e.push(x), k, p) == without_edges(e, k, p).push(x));
                    assert(e1.last() == y);
                    assert(without_edges(e1, k, p) == without_edges(e.push(x), k, p).push(y));
                    let w = without_edges(e1, k, p);
                    assert(w == e.push(x).push(y));
                    assert(w.drop_last() =~= e.push(x));
                    assert(without_edges(w, k, g) == without_edges(e.push(x), k, g));
                    assert(without_edges(e.push(x), k, g) == without_edges(e, k, g));
                },
            }
        },
    }
}

/// Each case's scaffolding stays out of every other case's context: once a
/// tested fact is planted, the graph holds the corpus's own edges again,
/// provided no corpus edge touches a `planted-<n>` or `upstream-<n>` key.
pub proof fn law_scaffolding_removed(c: Corpus, ts: Seq<Fact>)
    requires
        forall|i: int| 0 <= i < c.edges@.len() ==> unnumbered((#[trigger] c.edges@[i]).from@) && unnumbered(c.edges@[i].to@),
    ensures
        plant_fold(c, ts).edges == initial_edges(c.edges@),
    decreases ts.len(),
{
    if ts.len() > 0 {
        law_scaffolding_removed(c, ts.drop_last());
        lemma_initial_edges_ends(c.edges@);
        let n = ts.len() - 1;
        lemma_step_edges(plant_fold(c, ts.drop_last()), c, n, ts.last());
    }
}

// ------------------------------------------------------------ execution

pub open spec fn cases_model(cs: Seq<Case>) -> Seq<CaseModel> {
    cs.map_values(|c: Case| c@)
}

pub open spec fn counts_model(p: Seq<usize>) -> Seq<int> {
    p.map_values(|x: usize| x as int)
}

pub open spec fn state_model(g: Graph, planted: Seq<usize>, cases: Seq<Case>) -> PlantState {
    PlantState {
        titles: g.title_log(),
        edges: g.edge_log(),
        planted: counts_model(planted),
        cases: cases_model(cases),
    }
}

/// The strings of a list of char vectors.
fn strings_of(v: &Vec<Vec<char>>) -> (r: Vec<String>)
    ensures
        r.deep_view() == vvc(v@),
{
    let mut r: Vec<String> = Vec::new();
    let mut i: usize = 0;
    while i < v.len()
        invariant
            i <= v@.len(),
            r.deep_view() == vvc(v@).take(i as int),
        decreases v@.len() - i,
    {
        let ghost r0 = r.deep_view();
        r.push(string_of(v[i].as_slice()));
        i = i + 1;
        proof {
            assert(r.deep_view() =~= r0.push(v@[i - 1]@));
            assert(vvc(v@).take(i as int) =~= vvc(v@).take(i - 1).push(v@[i - 1]@));
        }
    }
    proof {
        assert(vvc(v@).take(v@.len() as int) =~= vvc(v@));
    }
    r
}

/// The component a subject names.
fn component_exec(f: &Fact) -> (r: Vec<char>)
    ensures
        r@ == component(*f),
{
    let s = chars_of(f.subject.as_str());
    let sp = chars_of(" ");
    match rsplit_once_exec(s.as_slice(), sp.as_slice()) {
        Some((_head, c)) => c,
        None => Vec::new(),
    }
}

/// The keys and components of the facts.
fn keys_and_components(facts: &Vec<Fact>) -> (r: (Vec<Vec<char>>, Vec<Vec<char>>))
    ensures
        r.0@.len() == facts@.len(),
        r.1@.len() == facts@.len(),
        forall|j: int| 0 <= j < facts@.len() ==> #[trigger] r.0@[j]@ == facts@[j].key@,
        forall|j: int| 0 <= j < facts@.len() ==> #[trigger] r.1@[j]@ == component(facts@[j]),
{
    let mut keys: Vec<Vec<char>> = Vec::new();
    let mut comps: Vec<Vec<char>> = Vec::new();
    let mut j: usize = 0;
    while j < facts.len()
        invariant
            j <= facts@.len(),
            keys@.len() == j,
            comps@.len() == j,
            forall|k: int| 0 <= k < j ==> #[trigger] keys@[k]@ == facts@[k].key@,
            forall|k: int| 0 <= k < j ==> #[trigger] comps@[k]@ == component(facts@[k]),
        decreases facts@.len() - j,
    {
        keys.push(chars_of(facts[j].key.as_str()));
        comps.push(component_exec(&facts[j]));
        j = j + 1;
    }
    (keys, comps)
}

/// The first fact of another key and kind than `facts[me]`, inside its
/// component when `same` holds, outside it otherwise.
fn first_other_exec(
    facts: &Vec<Fact>,
    keys: &Vec<Vec<char>>,
    comps: &Vec<Vec<char>>,
    me: usize,
    same: bool,
) -> (r: Option<usize>)
    requires
        me < facts@.len(),
        keys@.len() == facts@.len(),
        comps@.len() == facts@.len(),
        forall|j: int| 0 <= j < facts@.len() ==> #[trigger] keys@[j]@ == facts@[j].key@,
        forall|j: int| 0 <= j < facts@.len() ==> #[trigger] comps@[j]@ == component(facts@[j]),
    ensures
        r matches Some(k) ==> first_other(facts@, facts@[me as int], same, 0) == Some(k as int),
        r is None ==> first_other(facts@, facts@[me as int], same, 0) is None,
{
    let ghost f = facts@[me as int];
    let mut i: usize = 0;
    while i < facts.len()
        invariant
            i <= facts@.len(),
            me < facts@.len(),
            f == facts@[me as int],
            keys@.len() == facts@.len(),
            comps@.len() == facts@.len(),
            forall|j: int| 0 <= j < facts@.len() ==> #[trigger] keys@[j]@ == facts@[j].key@,
            forall|j: int| 0 <= j < facts@.len() ==> #[trigger] comps@[j]@ == component(facts@[j]),
            first_other(facts@, f, same, 0) == first_other(facts@, f, same, i as int),
        decreases facts@.len() - i,
    {
        let o = &facts[i];
        let other_key = !eq_chars(keys[i].as_slice(), keys[me].as_slice());
        let other_kind = o.kind != facts[me].kind;
        let in_comp = eq_chars(comps[i].as_slice(), comps[me].as_slice());
        proof {
            assert(keys@[i as int]@ == facts@[i as int].key@);
            assert(keys@[me as int]@ == f.key@);
            assert(comps@[i as int]@ == component(facts@[i as int]));
            assert(comps@[me as int]@ == component(f));
        }
        if other_key && other_kind && in_comp == same {
            return Some(i);
        }
        i = i + 1;
    }
    None
}

/// The graph of the corpus: every fact a node, every edge read from both ends.
fn corpus_graph(c: &Corpus, keys: &Vec<Vec<char>>) -> (g: Graph)
    requires
        keys@.len() == c.facts@.len(),
        forall|j: int| 0 <= j < c.facts@.len() ==> #[trigger] keys@[j]@ == c.facts@[j].key@,
    ensures
        g.title_log() == initial_titles(c.facts@),
        g.edge_log() == initial_edges(c.edges@),
{
    let mut g = Graph::new();
    let mut j: usize = 0;
    while j < c.facts.len()
        invariant
            j <= c.facts@.len(),
            keys@.len() == c.facts@.len(),
            forall|k: int| 0 <= k < c.facts@.len() ==> #[trigger] keys@[k]@ == c.facts@[k].key@,
            g.title_log() == initial_titles(c.facts@.take(j as int)),
            g.edge_log() == Seq::<(Text, Text, Text)>::empty(),
        decreases c.facts@.len() - j,
    {
        let t = chars_of(c.facts[j].title.as_str());
        g.add_node(keys[j].as_slice(), t.as_slice());
        j = j + 1;
        proof {
            assert(keys@[j - 1]@ == c.facts@[j - 1].key@);
            assert(initial_titles(c.facts@.take(j as int)) =~= initial_titles(c.facts@.take(j - 1)).push(
                (c.facts@[j - 1].key@, c.facts@[j - 1].title@),
            ));
        }
    }
    proof {
        assert(c.facts@.take(c.facts@.len() as int) =~= c.facts@);
        assert(initial_edges(c.edges@.take(0)) == Seq::<(Text, Text, Text)>::empty());
    }
    let mut i: usize = 0;
    while i < c.edges.len()
        invariant
            i <= c.edges@.len(),
            g.title_log() == initial_titles(c.facts@),
            g.edge_log() == initial_edges(c.edges@.take(i as int)),
        decreases c.edges@.len() - i,
    {
        let e = &c.edges[i];
        let from = chars_of(e.from.as_str());
        let verb = chars_of(e.verb.as_str());
        let to = chars_of(e.to.as_str());
        g.add_edge(from.as_slice(), verb.as_slice(), to.as_slice());
        i = i + 1;
        proof {
            assert(c.edges@.take(i as int).drop_last() =~= c.edges@.take(i - 1));
            assert(c.edges@.take(i as int).last() == c.edges@[i - 1]);
        }
    }
    proof {
        assert(c.edges@.take(c.edges@.len() as int) =~= c.edges@);
    }
    g
}

/// Whether shape `i` is tried before shape `j`.
fn tried_before_exec(planted: &Vec<usize>, n: usize, i: usize, j: usize) -> (r: bool)
    requires
        i < 18,
        j < 18,
        planted@.len() == 18,
    ensures
        r == tried_before(counts_model(planted@), n as int, i as int, j as int),
{
    let ri = (i + 18 - n % 18) % 18;
    let rj = (j + 18 - n % 18) % 18;
    planted[i] < planted[j] || (planted[i] == planted[j] && ri < rj)
}

/// The first applicable shape in the planting order.
fn choose_shape(planted: &Vec<usize>, n: usize, f: &Fact, salt: usize, os: Option<&str>, op: Option<&str>) -> (r:
    Option<usize>)
    requires
        planted@.len() == 18,
    ensures
        r matches Some(i) ==> chosen_shape(counts_model(planted@), n as int, *f, salt as int, opt_str(os), opt_str(op))
            == Some(i as int),
        r is None ==> chosen_shape(counts_model(planted@), n as int, *f, salt as int, opt_str(os), opt_str(op)) is None,
{
    let ghost p = counts_model(planted@);
    let ghost sos = opt_str(os);
    let ghost sop = opt_str(op);
    proof {
        assert forall|j: int| #[trigger] applies(j, *f, salt as int, sos, sop) == shape_applies(j, *f, sos, sop) by {
            lemma_shape_applies(j, *f, salt as int, sos, sop);
        }
    }
    let mut best: Option<usize> = None;
    let mut idx: usize = 0;
    while idx < 18
        invariant
            idx <= 18,
            planted@.len() == 18,
            p == counts_model(planted@),
            sos == opt_str(os),
            sop == opt_str(op),
            forall|j: int| #[trigger] applies(j, *f, salt as int, sos, sop) == shape_applies(j, *f, sos, sop),
            best matches Some(b) ==> {
                &&& b < idx
                &&& applies(b as int, *f, salt as int, sos, sop)
                &&& forall|j: int| 0 <= j < idx && j != b && applies(j, *f, salt as int, sos, sop) ==> tried_before(p, n as int, b as int, j)
            },
            best is None ==> forall|j: int| 0 <= j < idx ==> !applies(j, *f, salt as int, sos, sop),
        decreases 18 - idx,
    {
        if applies_exec(idx, f, os, op) {
            assert(applies(idx as int, *f, salt as int, sos, sop));
            match best {
                None => {
                    best = Some(idx);
                },
                Some(b) => {
                    proof {
                        lemma_rotation_distinct(n as int, idx as int, b as int);
                    }
                    if tried_before_exec(planted, n, idx, b) {
                        proof {
                            assert forall|j: int|
                                0 <= j < idx + 1 && j != idx && applies(j, *f, salt as int, sos, sop) implies tried_before(
                                p,
                                n as int,
                                idx as int,
                                j,
                            ) by {
                                if j != b {
                                    assert(tried_before(p, n as int, b as int, j));
                                }
                            }
                        }
                        best = Some(idx);
                    } else {
                        proof {
                            assert(tried_before(p, n as int, b as int, idx as int));
                        }
                    }
                },
            }
        } else {
            assert(!applies(idx as int, *f, salt as int, sos, sop));
        }
        idx = idx + 1;
    }
    proof {
        match best {
            Some(b) => {
                lemma_chosen_unique(p, n as int, b as int, *f, salt as int, sos, sop);
            },
            None => {
                lemma_no_choice(p, n as int, *f, salt as int, sos, sop);
            },
        }
    }
    best
}


/// The key of a planted or upstream note: `prefix` then the decimal `n`.
fn numbered_key(prefix: &str, n: usize) -> (r: Vec<char>)
    ensures
        r@ == prefix@ + decimal(n as nat),
{
    let mut r = chars_of(prefix);
    let d = decimal_exec(n as u64);
    push_all(&mut r, d.as_slice());
    r
}

/// Plant the `n`-th tested fact, `c.facts[j]`; false where that step does
/// not go through (`step_ok`).
fn plant_one(
    g: &mut Graph,
    planted: &mut Vec<usize>,
    cases: &mut Vec<Case>,
    c: &Corpus,
    keys: &Vec<Vec<char>>,
    comps: &Vec<Vec<char>>,
    j: usize,
    n: usize,
) -> (ok: bool)
    requires
        j < c.facts@.len(),
        n <= j,
        c.facts@.len() + 18 <= usize::MAX,
        keys@.len() == c.facts@.len(),
        comps@.len() == c.facts@.len(),
        forall|k: int| 0 <= k < c.facts@.len() ==> #[trigger] keys@[k]@ == c.facts@[k].key@,
        forall|k: int| 0 <= k < c.facts@.len() ==> #[trigger] comps@[k]@ == component(c.facts@[k]),
        old(planted)@.len() == 18,
        forall|i: int| 0 <= i < 18 ==> #[trigger] old(planted)@[i] <= n,
    ensures
        ok == step_ok(state_model(*old(g), old(planted)@, old(cases)@), *c, n as int, c.facts@[j as int]),
        ok ==> state_model(*final(g), final(planted)@, final(cases)@) == plant_step(
            state_model(*old(g), old(planted)@, old(cases)@),
            *c,
            n as int,
            c.facts@[j as int],
        ),
        final(planted)@.len() == 18,
        forall|i: int| 0 <= i < 18 ==> #[trigger] final(planted)@[i] <= n + 1,
{
    let f = &c.facts[j];
    let ghost sf = c.facts@[j as int];
    let salt = n + 17;
    proof {
        lemma_first_other_range(c.facts@, sf, true, 0);
        lemma_first_other_range(c.facts@, sf, false, 0);
    }
    let os: Option<&str> = match first_other_exec(&c.facts, keys, comps, j, true) {
        Some(k) => Some(c.facts[k].subject.as_str()),
        None => None,
    };
    let op: Option<&str> = match first_other_exec(&c.facts, keys, comps, j, false) {
        Some(k) => Some(c.facts[k].predicate.as_str()),
        None => None,
    };
    assert(opt_str(os) == other_subject(c.facts@, sf));
    assert(opt_str(op) == other_predicate(c.facts@, sf));
    let ghost st = state_model(*g, planted@, cases@);
    let chosen = choose_shape(planted, n, f, salt, os, op);
    if chosen.is_none() {
        return true;
    }
    let idx = chosen.unwrap();
    proof {
        let p = counts_model(planted@);
        assert(exists|i: int| is_chosen(p, n as int, i, sf, salt as int, opt_str(os), opt_str(op)));
        assert(is_chosen(p, n as int, idx as int, sf, salt as int, opt_str(os), opt_str(op)));
    }
    if !make_fits_exec(idx, f, salt, os, op) {
        return false;
    }
    match make_exec(idx, f, salt, os, op) {
        None => false,
        Some((title, body, bridge)) => {
            let ghost note = (title@, body@, crate::shapes::make::bridge_model(bridge));
            let ghost t0 = g.title_log();
            let ghost e0 = g.edge_log();
            let key = &keys[j];
            assert(key@ == sf.key@);
            let pkey = numbered_key("planted-", n);
            let gkey = numbered_key("upstream-", n);
            let builds_on = chars_of("builds-on");
            g.add_node(pkey.as_slice(), title.as_slice());
            match &bridge {
                Bridge::Unlinked => {},
                Bridge::Direct => {
                    g.add_edge(key.as_slice(), builds_on.as_slice(), pkey.as_slice());
                },
                Bridge::Upstream(u) => {
                    let ghost t1 = g.title_log();
                    g.add_node(gkey.as_slice(), u.as_slice());
                    g.add_edge(key.as_slice(), builds_on.as_slice(), gkey.as_slice());
                },
            }
            let ghost t2 = g.title_log();
            let ghost e1 = g.edge_log();
            proof {
                assert((t2, e1) == step_graph(st, sf, n as int, note));
            }
            if !g.links_ok(key.as_slice(), pkey.as_slice()) || !g.links_ok(pkey.as_slice(), key.as_slice())
                || !g.deps_ok(key.as_slice(), pkey.as_slice()) {
                return false;
            }
            let (t_l1, t_l2) = g.links_exec(key.as_slice(), pkey.as_slice());
            let (p_l1, p_l2) = g.links_exec(pkey.as_slice(), key.as_slice());
            let deps = g.deps_exec(key.as_slice(), pkey.as_slice());
            g.remove_edges(key.as_slice(), pkey.as_slice());
            g.remove_edges(key.as_slice(), gkey.as_slice());
            let (shape, tier, positive) = SHAPES[idx];
            let case = Case {
                shape,
                tier,
                positive,
                truth: NoteText { title: f.title.clone(), body: f.body.clone() },
                planted: NoteText { title: string_of(title.as_slice()), body: string_of(body.as_slice()) },
                truth_links1: strings_of(&t_l1),
                truth_links2: strings_of(&t_l2),
                planted_links1: strings_of(&p_l1),
                planted_links2: strings_of(&p_l2),
                truth_deps: strings_of(&deps),
            };
            proof {
                assert(case@ == case_of(t2, e1, sf, idx as int, title@, body@, pkey@));
            }
            let ghost c0 = cases@;
            cases.push(case);
            let ghost p0 = planted@;
            let cur = planted[idx];
            planted.set(idx, cur + 1);
            proof {
                assert(cases_model(cases@) =~= cases_model(c0).push(case@));
                assert(counts_model(planted@) =~= counts_model(p0).update(idx as int, counts_model(p0)[idx as int] + 1));
                assert(forall|i: int| 0 <= i < 18 && i != idx ==> planted@[i] == p0[i]);
            }
            true
        },
    }
}

/// The tested facts of a prefix of the corpus are a prefix of its tested facts.
proof fn lemma_tested_prefix(facts: Seq<Fact>, j: int)
    requires
        0 <= j <= facts.len(),
    ensures
        tested(facts.take(j)).len() <= tested(facts).len(),
        tested(facts.take(j)) == tested(facts).take(tested(facts.take(j)).len() as int),
    decreases facts.len(),
{
    if j == facts.len() {
        assert(facts.take(j) =~= facts);
        assert(tested(facts).take(tested(facts).len() as int) =~= tested(facts));
    } else {
        let d = facts.drop_last();
        lemma_tested_prefix(d, j);
        assert(facts.take(j) =~= d.take(j));
        let m = tested(d.take(j)).len() as int;
        assert(tested(facts).take(m) =~= tested(d).take(m));
    }
}

/// Plant one case per tested fact, where the corpus lets every step go
/// through (`plantable`), and `None` where it does not: the least-planted
/// shape that applies to the fact's kind (ties broken by rotation), so
/// narrow shapes like `unit_agree` (a Decision with a convertible unit)
/// are not starved.
pub fn try_plant(corpus: &Corpus) -> (r: Option<Vec<Case>>)
    ensures
        r is Some <==> plantable(*corpus),
        r matches Some(cases) ==> cases_model(cases@) == spec_plant(*corpus),
{
    if corpus.facts.len() > usize::MAX - 18 {
        return None;
    }
    let (keys, comps) = keys_and_components(&corpus.facts);
    let mut g = corpus_graph(corpus, &keys);
    let mut planted: Vec<usize> = Vec::new();
    let mut i: usize = 0;
    while i < 18
        invariant
            i <= 18,
            planted@.len() == i,
            forall|k: int| 0 <= k < i ==> #[trigger] planted@[k] == 0,
        decreases 18 - i,
    {
        planted.push(0);
        i = i + 1;
    }
    let mut cases: Vec<Case> = Vec::new();
    proof {
        assert(counts_model(planted@) =~= Seq::new(18, |i: int| 0int));
        assert(cases_model(cases@) =~= Seq::<CaseModel>::empty());
        assert(tested(corpus.facts@.take(0)) =~= Seq::<Fact>::empty());
    }
    let mut n: usize = 0;
    let mut j: usize = 0;
    while j < corpus.facts.len()
        invariant
            j <= corpus.facts@.len(),
            corpus.facts@.len() + 18 <= usize::MAX,
            keys@.len() == corpus.facts@.len(),
            comps@.len() == corpus.facts@.len(),
            forall|k: int| 0 <= k < corpus.facts@.len() ==> #[trigger] keys@[k]@ == corpus.facts@[k].key@,
            forall|k: int| 0 <= k < corpus.facts@.len() ==> #[trigger] comps@[k]@ == component(corpus.facts@[k]),
            n <= j,
            n == tested(corpus.facts@.take(j as int)).len(),
            planted@.len() == 18,
            forall|k: int| 0 <= k < 18 ==> #[trigger] planted@[k] <= n,
            state_model(g, planted@, cases@) == plant_fold(*corpus, tested(corpus.facts@.take(j as int))),
            forall|m: int| 0 <= m < n ==> #[trigger] planted_ok(*corpus, m),
        decreases corpus.facts@.len() - j,
    {
        let ghost ts = tested(corpus.facts@.take(j as int));
        proof {
            assert(corpus.facts@.take(j + 1).drop_last() =~= corpus.facts@.take(j as int));
            assert(corpus.facts@.take(j + 1).last() == corpus.facts@[j as int]);
        }
        if corpus.facts[j].tested {
            proof {
                let all = tested(corpus.facts@);
                let ts2 = tested(corpus.facts@.take(j + 1));
                assert(ts2 == ts.push(corpus.facts@[j as int]));
                lemma_tested_prefix(corpus.facts@, j + 1);
                assert(ts2[n as int] == all[n as int]);
                assert(all.take(n as int) =~= ts);
            }
            let ok = plant_one(&mut g, &mut planted, &mut cases, corpus, &keys, &comps, j, n);
            if !ok {
                proof {
                    assert(!planted_ok(*corpus, n as int));
                }
                return None;
            }
            proof {
                let ts2 = tested(corpus.facts@.take(j + 1));
                assert(ts2 == ts.push(corpus.facts@[j as int]));
                assert(ts2.drop_last() =~= ts);
                assert(planted_ok(*corpus, n as int));
            }
            n = n + 1;
        }
        j = j + 1;
    }
    proof {
        assert(corpus.facts@.take(corpus.facts@.len() as int) =~= corpus.facts@);
    }
    Some(cases)
}

/// Plant one case per tested fact: the least-planted shape that applies to
/// the fact's kind (ties broken by rotation), so narrow shapes like
/// `unit_agree` (a Decision with a convertible unit) are not starved.
pub fn plant(corpus: &Corpus) -> (cases: Vec<Case>)
    requires
        plantable(*corpus),
    ensures
        cases_model(cases@) == spec_plant(*corpus),
{
    match try_plant(corpus) {
        Some(cases) => cases,
        None => Vec::new(),
    }
}

} // verus!
