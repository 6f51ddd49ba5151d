use engram::corpus::{Corpus, Edge, Fact, Kind};
use engram::shapes::catalog::SHAPES;
use engram::shapes::forms::cut_title;
use engram::shapes::graph::Graph;
use engram::shapes::judging::{
    arm_rows, bare, flatten, judge_state, judge_states, nli_pairs, side, side_raw, Side, ARMS, MAX_LINKS,
};
use engram::shapes::plant::{plant, try_plant, Case, NoteText};

/// Stands for the other side of the pair inside a context line.
const PARTNER: &str = "\u{1}PARTNER";

fn fact(key: &str, kind: Kind, subject: &str, predicate: &str, answer: &str, body: &str, tested: bool) -> Fact {
    Fact {
        key: key.to_string(),
        kind,
        subject: subject.to_string(),
        predicate: predicate.to_string(),
        answer: answer.to_string(),
        title: format!("{subject} {predicate}"),
        body: body.to_string(),
        tested,
    }
}

/// A world where every shape applies to every tested fact: eighteen tested
/// decisions with a convertible unit in the `queue` component, a caution
/// beside them (their other subject) and a problem elsewhere (their other
/// predicate).
fn world() -> Corpus {
    let mut facts = vec![
        fact(
            "c0",
            Kind::Caution,
            "flush queue",
            "drops messages when the disk fills",
            "a full disk",
            "Seen twice in staging.",
            false,
        ),
        fact("p0", Kind::Problem, "render pool", "leaks file handles", "file handles", "Open issue.", false),
    ];
    for i in 0..18 {
        facts.push(fact(
            &format!("d{i}"),
            Kind::Decision,
            &format!("ingest{i} queue"),
            "uses a retry timeout of 30 seconds",
            "30 seconds",
            "Chosen after load tests. Revisit yearly.",
            true,
        ));
    }
    Corpus {
        facts,
        edges: vec![
            Edge { from: "d0".into(), verb: "needs".into(), to: "c0".into() },
            Edge { from: "c0".into(), verb: "about".into(), to: "p0".into() },
        ],
    }
}

fn find<'a>(cases: &'a [Case], shape: &str) -> &'a Case {
    cases.iter().find(|c| c.shape == shape).unwrap()
}

#[test]
fn every_shape_is_planted_and_transitive_mirrors_coreference_text() {
    let corpus = world();
    let cases = plant(&corpus);
    for (shape, _, _) in SHAPES {
        assert!(cases.iter().any(|c| c.shape == shape), "shape {shape} never planted");
    }
    let tr = find(&cases, "transitive");
    // The bridge is the only thing the judge can use.
    assert!(tr.truth_links1.iter().any(|l| *l == format!("builds on: {PARTNER}")));
    assert!(tr.planted_links1.iter().any(|l| *l == format!("is built on by: {PARTNER}")));
    // The partner's title never leaks into its own pair's context.
    assert!(!tr.truth_links1.iter().chain(&tr.truth_links2).any(|l| l.contains(&tr.planted.title)));
    let un = find(&cases, "value");
    assert!(un.planted_links1.is_empty());
    // Chain shapes: the truth depends on an upstream about G. The subject
    // guard that admits (upstream, planted) but refuses (truth, planted) is
    // not part of this library, so this checks only the upstream's text,
    // which is weaker than asking the guard.
    for c in cases.iter().filter(|c| c.shape == "transitive_chain") {
        let up = c
            .truth_deps
            .iter()
            .find(|u| u.ends_with(c.truth.title.split_once(' ').unwrap().1))
            .expect("the upstream is among the dependencies");
        assert_eq!(up, "flush queue uses a retry timeout of 30 seconds");
        assert_ne!(up, &c.truth.title);
    }
}

#[test]
fn plant_gives_one_case_per_tested_fact_in_order() {
    let corpus = world();
    let cases = plant(&corpus);
    let tested: Vec<&Fact> = corpus.facts.iter().filter(|f| f.tested).collect();
    assert_eq!(cases.len(), tested.len());
    for (c, f) in cases.iter().zip(&tested) {
        assert_eq!(c.truth.title, f.title);
        assert_eq!(c.truth.body, f.body);
    }
    // Every shape applies to every fact here, so the least-planted rule
    // plants them in rotation order, each once.
    for (n, c) in cases.iter().enumerate() {
        assert_eq!(c.shape, SHAPES[n].0);
        assert_eq!(c.tier, SHAPES[n].1);
        assert_eq!(c.positive, SHAPES[n].2);
    }
}

#[test]
fn plant_skips_untested_facts_and_balances_shapes() {
    let mut corpus = world();
    corpus.facts.truncate(4);
    corpus.facts[3].tested = false;
    let cases = plant(&corpus);
    assert_eq!(cases.len(), 1);
    assert_eq!(cases[0].shape, "value");
    assert_eq!(cases[0].truth.title, "ingest0 queue uses a retry timeout of 30 seconds");
}

#[test]
fn planted_notes_follow_the_shape_templates() {
    let cases = plant(&world());
    // salt = n + 17; the value moves by 1 + salt % 40.
    assert_eq!(cases[0].planted.title, "ingest0 queue is configured with 48 seconds");
    assert_eq!(cases[0].planted.body, "Recorded while re-reading the runbook.");
    assert_eq!(
        cases[1].planted.title,
        "Operators pinned the ingest1 queue to 49 seconds for its retry timeout, and the dashboard agrees"
    );
    assert_eq!(cases[2].planted.title, "It is not the case that the ingest2 queue uses a retry timeout of 30 seconds.");
    assert_eq!(cases[3].planted.title, "The agreed setting for the ingest3 queue is 30 seconds.");
    assert_eq!(cases[4].planted.title, "ingest4 queue keeps a retry timeout of 30 seconds");
    assert_eq!(cases[5].planted.title, "ingest5 queue is set to a retry timeout of 53000 milliseconds");
    assert_eq!(cases[7].planted.title, "flush queue is configured with 55 seconds");
    assert_eq!(
        cases[9].planted.title,
        "Every deployment of the ingest9 queue runs with a retry timeout of 57 seconds, without exception"
    );
    assert_eq!(cases[10].planted.title, "ingest10 queue leaks file handles");
    assert_eq!(
        cases[11].planted.title,
        "ingest11 queue uses a retry timeout of 30 seconds; separately, operators report that it is configured with 59 seconds"
    );
    assert_eq!(cases[12].planted.title, "ingest12 queue keeps its retry timeout at 30000 milliseconds");
    assert_eq!(
        cases[13].planted.title,
        "Until the 3.1 rollout, ingest13 queue is configured with 61 seconds; the rollout changed that, and the current note stands"
    );
    assert_eq!(cases[14].planted.title, "flush queue leaks file handles");
    assert_eq!(cases[17].planted.title, "flush queue keeps a retry timeout of 30 seconds");
}

#[test]
fn context_reads_the_corpus_graph() {
    let cases = plant(&world());
    let c = &cases[0];
    assert_eq!(c.truth_links1, vec!["needs: flush queue drops messages when the disk fills".to_string()]);
    assert_eq!(
        c.truth_links2,
        vec!["needs flush queue drops messages when the disk fills which is about: render pool leaks file handles".to_string()]
    );
    assert_eq!(c.truth_deps, vec!["flush queue drops messages when the disk fills".to_string()]);
    assert!(c.planted_links2.is_empty());
}

#[test]
fn scaffolding_stays_out_of_other_cases() {
    let cases = plant(&world());
    // transitive (n = 8): only its own bridge, no edge left by earlier cases.
    assert_eq!(cases[8].truth_links1, vec![format!("builds on: {PARTNER}")]);
    assert!(cases[8].truth_links2.is_empty());
    // quantifier (n = 9) is unlinked: its truth has no context at all.
    assert!(cases[9].truth_links1.is_empty());
    assert!(cases[9].planted_links1.is_empty());
    // transitive_chain (n = 15): the truth builds on its upstream, not on the planted note.
    let tc = &cases[15];
    assert_eq!(tc.truth_links1, vec!["builds on: flush queue uses a retry timeout of 30 seconds".to_string()]);
    assert!(tc.planted_links1.is_empty());
    assert_eq!(tc.truth_deps, vec!["flush queue uses a retry timeout of 30 seconds".to_string()]);
}

#[test]
fn cut_title_keeps_twelve_words() {
    assert_eq!(cut_title("  A short title.  "), "A short title");
    assert_eq!(cut_title("Ends with dots..."), "Ends with dots");
    assert_eq!(
        cut_title("one two three four five six seven eight nine ten eleven twelve thirteen"),
        "one two three four five six seven eight nine ten eleven twelve…"
    );
    assert_eq!(cut_title("a  b\tc"), "a  b\tc");
}

fn note(title: &str, body: &str) -> NoteText {
    NoteText { title: title.to_string(), body: body.to_string() }
}

#[test]
fn sides_per_arm() {
    let n = note("The cache is warm.", "It was primed at boot. Then it stayed warm.");
    let l1 = vec![format!("builds on: {PARTNER}"), "needs: disk".to_string()];
    let l2 = vec!["needs disk which is about: io".to_string()];
    let t = side_raw(&n, &l1, &l2, "title");
    assert_eq!(t.text, "The cache is warm.");
    assert!(t.links.is_empty());
    let f = side_raw(&n, &l1, &l2, "full");
    assert_eq!(f.text, "The cache is warm. It was primed at boot");
    assert_eq!(f.links.len(), 3);
    let l = side(&n, &l1, &l2, "links", "the premise");
    assert_eq!(l.text, "The cache is warm.");
    assert_eq!(l.links, vec!["builds on: the premise".to_string(), "needs: disk".to_string()]);
}

#[test]
fn full_arm_caps_context_and_body() {
    let long = "x".repeat(200);
    let n = note("T", &long);
    let l1: Vec<String> = (0..10).map(|i| format!("l{i}")).collect();
    let s = side_raw(&n, &l1, &Vec::new(), "full");
    assert_eq!(s.links.len(), MAX_LINKS);
    assert_eq!(s.text, format!("T. {}…", "x".repeat(159)));
    assert_eq!(s.text.chars().count(), 3 + 160);
    let e = side_raw(&note("T.", "  "), &Vec::new(), &Vec::new(), "full");
    assert_eq!(e.text, "T.");
}

#[test]
fn flatten_appends_related_context() {
    let s = Side { text: "a".into(), links: vec!["x".into(), "y".into()] };
    assert_eq!(flatten(&s), "a (Related: x; y.)");
    assert_eq!(flatten(&bare("b")), "b");
}

#[test]
fn arms_and_rows_judge_both_directions() {
    assert_eq!(ARMS, ["title", "full", "links"]);
    let cases = plant(&world());
    let rows = arm_rows(&cases, "links");
    assert_eq!(rows.len(), 2 * cases.len());
    let tr = &cases[8];
    assert_eq!(rows[16].0.text, tr.truth.title);
    assert_eq!(rows[16].1.text, tr.planted.title);
    assert_eq!(rows[16].0.links, vec!["builds on: the hypothesis".to_string()]);
    assert_eq!(rows[17].0.text, tr.planted.title);
    assert_eq!(rows[17].1.links, vec!["builds on: the premise".to_string()]);
}

#[test]
fn judge_inputs() {
    let a = Side { text: "a".into(), links: vec!["x".into()] };
    let b = bare("b");
    assert_eq!(judge_state(&a, &b), r#"{"premise": "a", "hypothesis": "b", "premise_links": ["x"]}"#);
    assert_eq!(judge_state(&b, &a), r#"{"premise": "b", "hypothesis": "a", "hypothesis_links": ["x"]}"#);
    let rows = vec![(a.clone(), b.clone())];
    assert_eq!(judge_states(&rows), vec![judge_state(&a, &b)]);
    assert_eq!(nli_pairs(&rows), vec![("a (Related: x.)".to_string(), "b".to_string())]);
}

#[test]
fn least_planted_applicable_shape_wins() {
    let mut corpus = world();
    corpus.facts.truncate(7); // c0, p0, d0..d4
    corpus.facts.push(fact(
        "c1",
        Kind::Caution,
        "drain queue",
        "stalls when the disk fills",
        "a full disk",
        "Seen once.",
        true,
    ));
    corpus.facts.push(fact(
        "d5",
        Kind::Decision,
        "ingest5 queue",
        "uses a retry timeout of 30 seconds",
        "30 seconds",
        "Chosen after load tests.",
        true,
    ));
    let cases = plant(&corpus);
    let shapes: Vec<&str> = cases.iter().map(|c| c.shape).collect();
    // The caution is planted sixth: `unit` (next in its rotation) needs a
    // decision, so the next unplanted shape that applies, `clause`, wins.
    assert_eq!(shapes, vec!["value", "reworded", "negation", "paraphrase", "synonym", "clause", "coreference"]);
    assert_eq!(
        cases[5].planted.title,
        "Contrary to the runbook, it is wrong that the drain queue stalls when the disk fills; the earlier note was mistaken"
    );
}

#[test]
fn plant_handles_values_near_the_top_of_u64() {
    let corpus = Corpus {
        facts: vec![fact(
            "d0",
            Kind::Decision,
            "ingest queue",
            "uses a timeout of 18446744073709551000 seconds",
            "18446744073709551000 seconds",
            "Huge.",
            true,
        )],
        edges: vec![],
    };
    let cases = plant(&corpus);
    assert_eq!(cases.len(), 1);
    assert_eq!(cases[0].shape, "value");
    assert_eq!(cases[0].planted.title, "ingest queue is configured with 18446744073709551018 seconds");
}

#[test]
fn removing_edges_undoes_adding_one() {
    let mut g = Graph::new();
    g.add_node(&['a'], &['A']);
    g.add_node(&['b'], &['B']);
    g.add_node(&['c'], &['C']);
    g.add_edge(&['a'], &['n', 'e', 'e', 'd', 's'], &['c']);
    let before = g.edges.clone();
    g.add_edge(&['a'], &['a', 'b', 'o', 'u', 't'], &['b']);
    assert_eq!(g.edges.len(), before.len() + 2);
    g.remove_edges(&['a'], &['b']);
    assert_eq!(g.edges, before);
    g.remove_edges(&['a'], &['b']);
    assert_eq!(g.edges, before);
}

#[test]
fn an_unreached_dangling_edge_is_harmless() {
    let mut corpus = world();
    // Three hops from the only linked truth: no context line names it.
    corpus.edges.push(Edge { from: "p0".into(), verb: "about".into(), to: "ghost".into() });
    let cases = try_plant(&corpus).expect("the dangling node is never named");
    assert_eq!(cases.len(), 18);
    assert_eq!(cases[0].truth_links1, vec!["needs: flush queue drops messages when the disk fills".to_string()]);
}

#[test]
fn a_reached_dangling_edge_stops_planting() {
    let mut corpus = world();
    corpus.edges.push(Edge { from: "d1".into(), verb: "needs".into(), to: "ghost".into() });
    assert!(try_plant(&corpus).is_none());
}

#[test]
fn try_plant_agrees_with_plant() {
    let corpus = world();
    let a = plant(&corpus);
    let b = try_plant(&corpus).unwrap();
    assert_eq!(a.len(), b.len());
    for (x, y) in a.iter().zip(&b) {
        assert_eq!(x.planted.title, y.planted.title);
        assert_eq!(x.truth_links2, y.truth_links2);
    }
}
