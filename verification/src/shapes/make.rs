//! One planted note per shape: its title, its body, and how it hangs off
//! the truth in the graph.

use vstd::prelude::*;

use crate::corpus::{Fact, Kind};
use crate::shapes::forms::{
    agree, agree_exec, altered, altered_exec, convert, convert_exec, decision_parts, decision_parts_exec,
    flip_b, flip_b_exec, flip_c, flip_c_exec, flip_clause, flip_clause_exec, opt_chars, synonym,
    synonym_exec, flip_fits, flip_fits_exec, unit_fits, unit_fits_exec,
};
use crate::text::{chars_of, decimal, decimal_exec, push_all, push_str, replace_first, replace_first_exec};

verus! {

/// How a planted note hangs off the truth.
pub enum Bridge {
    /// Not linked (every shape the pair alone decides).
    Unlinked,
    /// The truth `builds-on` the planted note itself.
    Direct,
    /// The truth `builds-on` an upstream note (this title) about another
    /// subject; the planted note speaks about that subject, unlinked.
    Upstream(Vec<char>),
}

/// A [`Bridge`] as text.
pub enum BridgeModel {
    Unlinked,
    Direct,
    Upstream(Seq<char>),
}

pub open spec fn bridge_model(b: Bridge) -> BridgeModel {
    match b {
        Bridge::Unlinked => BridgeModel::Unlinked,
        Bridge::Direct => BridgeModel::Direct,
        Bridge::Upstream(u) => BridgeModel::Upstream(u@),
    }
}

pub open spec fn note_model(o: Option<(Vec<char>, Vec<char>, Bridge)>) -> Option<(Seq<char>, Seq<char>, BridgeModel)> {
    match o {
        Some((t, b, br)) => Some((t@, b@, bridge_model(br))),
        None => None,
    }
}

pub open spec fn opt_str(o: Option<&str>) -> Option<Seq<char>> {
    match o {
        Some(s) => Some(s@),
        None => None,
    }
}

pub open spec fn unlinked(title: Seq<char>, body: Seq<char>) -> Option<(Seq<char>, Seq<char>, BridgeModel)> {
    Some((title, body, BridgeModel::Unlinked))
}

/// The upstream note for the chain shapes: the truth's own claim said of `g`.
pub open spec fn upstream(f: Fact, g: Seq<char>) -> Seq<char> {
    replace_first(f.title@, f.subject@, g)
}

/// The quantified overclaim of the `quantifier` shape.
pub open spec fn quantified(f: Fact, salt: int) -> Option<Seq<char>> {
    let s = f.subject@;
    match f.kind {
        Kind::Decision => match decision_parts(f) {
            Some((param, v, unit)) => Some(
                "Every deployment of the "@ + s + " runs with a "@ + param + " of "@ + decimal(
                    altered(v as int, salt) as nat,
                ) + " "@ + unit + ", without exception"@,
            ),
            None => None,
        },
        Kind::Principle => Some(s + " is allowed to "@ + f.answer@ + " whenever it is convenient"@),
        Kind::Caution | Kind::Problem => Some(
            "In every environment tried so far the "@ + s + " runs clean: "@ + f.predicate@
                + " has not happened once"@,
        ),
        Kind::Insight => Some(s + " "@ + f.predicate@ + " for reasons that have nothing to do with "@
            + f.answer@),
    }
}

/// The setting restated in the smaller unit: moved off the truth when
/// `moved`, the same setting otherwise.
pub open spec fn in_unit(f: Fact, salt: int, moved: bool) -> Option<Seq<char>> {
    match decision_parts(f) {
        Some((param, v, unit)) => match convert(unit) {
            Some((unit2, factor)) => if moved {
                Some(f.subject@ + " is set to a "@ + param + " of "@ + decimal(
                    (altered(v as int, salt) * factor) as nat,
                ) + " "@ + unit2)
            } else {
                Some(f.subject@ + " keeps its "@ + param + " at "@ + decimal((v * factor) as nat) + " "@
                    + unit2)
            },
            None => None,
        },
        None => None,
    }
}

/// The restatement of the `chain_paraphrase` shape, said of `g`.
pub open spec fn restated(f: Fact, g: Seq<char>) -> Seq<char> {
    match synonym(f) {
        Some(t) => replace_first(t, f.subject@, g),
        None => replace_first(agree(f), f.subject@, g),
    }
}

/// (title, body, bridge) of the shape at `idx` of the rotation, or `None`
/// where the shape does not apply to the fact.
pub open spec fn spec_make(idx: int, f: Fact, salt: int, os: Option<Seq<char>>, op: Option<Seq<char>>) -> Option<
    (Seq<char>, Seq<char>, BridgeModel),
> {
    let s = f.subject@;
    if idx == 0 {
        unlinked(flip_b(s, f, salt), "Recorded while re-reading the runbook."@)
    } else if idx == 1 {
        unlinked(flip_c(f, salt), "Written up fresh after the last operations review."@)
    } else if idx == 2 {
        unlinked(
            "It is not the case that the "@ + s + " "@ + f.predicate@ + "."@,
            "Checked against the current deployment."@,
        )
    } else if idx == 3 {
        unlinked(agree(f), "Restated for the onboarding notes."@)
    } else if idx == 4 {
        match synonym(f) {
            Some(t) => unlinked(t, "Restated word for word from the original note."@),
            None => None,
        }
    } else if idx == 5 {
        match in_unit(f, salt, true) {
            Some(t) => unlinked(t, "Converted from the ops dashboard's units."@),
            None => None,
        }
    } else if idx == 6 {
        unlinked(
            "Contrary to the runbook, it is wrong that the "@ + s + " "@ + f.predicate@
                + "; the earlier note was mistaken"@,
            "Corrected after the incident that the runbook version caused."@,
        )
    } else if idx == 7 {
        match os {
            Some(o) => unlinked(flip_b(o, f, salt), "Noted while comparing the two."@),
            None => None,
        }
    } else if idx == 8 {
        match os {
            Some(o) => Some((flip_b(o, f, salt), "Captured from the sibling's runbook."@, BridgeModel::Direct)),
            None => None,
        }
    } else if idx == 9 {
        match quantified(f, salt) {
            Some(t) => unlinked(t, "Surveyed across every environment."@),
            None => None,
        }
    } else if idx == 10 {
        match op {
            Some(p) => unlinked(
                s + " "@ + p,
                "Observed on the same component, unrelated to the setting above."@,
            ),
            None => None,
        }
    } else if idx == 11 {
        unlinked(
            s + " "@ + f.predicate@ + "; separately, operators report that "@ + flip_clause(f, salt),
            "Two observations from one incident review."@,
        )
    } else if idx == 12 {
        match in_unit(f, salt, false) {
            Some(t) => unlinked(t, "Same setting, read off the dashboard in its own units."@),
            None => None,
        }
    } else if idx == 13 {
        unlinked(
            "Until the 3.1 rollout, "@ + flip_b(s, f, salt)
                + "; the rollout changed that, and the current note stands"@,
            "History, kept so nobody re-litigates the rollout."@,
        )
    } else if idx == 14 {
        match (os, op) {
            (Some(o), Some(p)) => Some(
                (
                    o + " "@ + p,
                    "Observed on the sibling, unrelated to the setting above."@,
                    BridgeModel::Direct,
                ),
            ),
            _ => None,
        }
    } else if idx == 15 {
        match os {
            Some(g) => Some(
                (
                    flip_b(g, f, salt),
                    "Captured from the sibling's runbook."@,
                    BridgeModel::Upstream(upstream(f, g)),
                ),
            ),
            None => None,
        }
    } else if idx == 16 {
        match (os, op) {
            (Some(g), Some(p)) => Some(
                (
                    g + " "@ + p,
                    "Observed on the sibling, unrelated to its settings."@,
                    BridgeModel::Upstream(upstream(f, g)),
                ),
            ),
            _ => None,
        }
    } else if idx == 17 {
        match os {
            Some(g) => Some(
                (
                    restated(f, g),
                    "Restated from the sibling's runbook."@,
                    BridgeModel::Upstream(upstream(f, g)),
                ),
            ),
            None => None,
        }
    } else {
        None
    }
}



/// The numbers shape `idx` states of the fact fit in a `u64`: the moved
/// value for the shapes that flip a decision, the scaled value for the two
/// unit shapes; every other shape computes none.
pub open spec fn make_fits(idx: int, f: Fact, salt: int, os: Option<Seq<char>>, op: Option<Seq<char>>) -> bool {
    if idx == 0 || idx == 1 || idx == 9 || idx == 11 || idx == 13 {
        flip_fits(f, salt)
    } else if idx == 7 || idx == 8 || idx == 15 {
        os is Some ==> flip_fits(f, salt)
    } else if idx == 5 {
        unit_fits(f, salt, true)
    } else if idx == 12 {
        unit_fits(f, salt, false)
    } else {
        true
    }
}

/// Whether shape `idx` applies to the fact: what `spec_make` asks of the
/// fact and of the other subject and predicate, whatever the salt.
pub open spec fn shape_applies(idx: int, f: Fact, os: Option<Seq<char>>, op: Option<Seq<char>>) -> bool {
    if idx == 0 || idx == 1 || idx == 2 || idx == 3 || idx == 6 || idx == 11 || idx == 13 {
        true
    } else if idx == 4 {
        synonym(f) is Some
    } else if idx == 5 || idx == 12 {
        decision_parts(f) matches Some((_p, _v, unit)) && convert(unit) is Some
    } else if idx == 7 || idx == 8 || idx == 15 || idx == 17 {
        os is Some
    } else if idx == 9 {
        f.kind != Kind::Decision || decision_parts(f) is Some
    } else if idx == 10 {
        op is Some
    } else if idx == 14 || idx == 16 {
        os is Some && op is Some
    } else {
        false
    }
}

/// A shape applies whatever the salt.
pub proof fn lemma_shape_applies(idx: int, f: Fact, salt: int, os: Option<Seq<char>>, op: Option<Seq<char>>)
    ensures
        (spec_make(idx, f, salt, os, op) is Some) == shape_applies(idx, f, os, op),
{
}

/// `transitive` is `coreference` bridged by an edge: both apply exactly
/// when there is another subject, plant the same text (the fact flipped
/// and said of that subject), and only `transitive` hangs it off the truth.
pub proof fn law_transitive_mirrors_coreference(f: Fact, salt: int, os: Option<Seq<char>>, op: Option<Seq<char>>)
    ensures
        spec_make(8, f, salt, os, op) is Some <==> os is Some,
        spec_make(7, f, salt, os, op) is Some <==> os is Some,
        os matches Some(o) ==> ({
            let t = spec_make(8, f, salt, os, op).unwrap();
            let c = spec_make(7, f, salt, os, op).unwrap();
            &&& t.0 == flip_b(o, f, salt) && c.0 == flip_b(o, f, salt)
            &&& t.2 == BridgeModel::Direct && c.2 == BridgeModel::Unlinked
        }),
{
}

/// Whether the numbers shape `idx` states of the fact fit in a `u64`.
pub fn make_fits_exec(idx: usize, f: &Fact, salt: usize, os: Option<&str>, op: Option<&str>) -> (r: bool)
    ensures
        r == make_fits(idx as int, *f, salt as int, opt_str(os), opt_str(op)),
{
    if idx == 0 || idx == 1 || idx == 9 || idx == 11 || idx == 13 {
        flip_fits_exec(f, salt)
    } else if idx == 7 || idx == 8 || idx == 15 {
        os.is_none() || flip_fits_exec(f, salt)
    } else if idx == 5 {
        unit_fits_exec(f, salt, true)
    } else if idx == 12 {
        unit_fits_exec(f, salt, false)
    } else {
        true
    }
}

/// Whether shape `idx` applies to the fact.
pub fn applies_exec(idx: usize, f: &Fact, os: Option<&str>, op: Option<&str>) -> (r: bool)
    ensures
        r == shape_applies(idx as int, *f, opt_str(os), opt_str(op)),
{
    if idx == 0 || idx == 1 || idx == 2 || idx == 3 || idx == 6 || idx == 11 || idx == 13 {
        true
    } else if idx == 4 {
        synonym_exec(f).is_some()
    } else if idx == 5 || idx == 12 {
        match decision_parts_exec(f) {
            Some((_p, _v, unit)) => convert_exec(unit.as_slice()).is_some(),
            None => false,
        }
    } else if idx == 7 || idx == 8 || idx == 15 || idx == 17 {
        os.is_some()
    } else if idx == 9 {
        f.kind != Kind::Decision || decision_parts_exec(f).is_some()
    } else if idx == 10 {
        op.is_some()
    } else if idx == 14 || idx == 16 {
        os.is_some() && op.is_some()
    } else {
        false
    }
}

// ------------------------------------------------------------ execution

fn note(title: Vec<char>, body: &str) -> (r: Option<(Vec<char>, Vec<char>, Bridge)>)
    ensures
        note_model(r) == unlinked(title@, body@),
{
    Some((title, chars_of(body), Bridge::Unlinked))
}

fn linked(title: Vec<char>, body: &str, bridge: Bridge) -> (r: Option<(Vec<char>, Vec<char>, Bridge)>)
    ensures
        note_model(r) == Some((title@, body@, bridge_model(bridge))),
{
    Some((title, chars_of(body), bridge))
}

/// `a + sep + b`.
fn spaced(a: &[char], b: &str) -> (r: Vec<char>)
    ensures
        r@ == a@ + " "@ + b@,
{
    let mut r: Vec<char> = Vec::new();
    push_all(&mut r, a);
    push_str(&mut r, " ");
    push_str(&mut r, b);
    r
}

fn upstream_exec(f: &Fact, g: &str) -> (r: Vec<char>)
    ensures
        r@ == upstream(*f, g@),
{
    let t = chars_of(f.title.as_str());
    let s = chars_of(f.subject.as_str());
    let gc = chars_of(g);
    replace_first_exec(t.as_slice(), s.as_slice(), gc.as_slice())
}

fn quantified_exec(f: &Fact, salt: usize) -> (r: Option<Vec<char>>)
    requires
        flip_fits(*f, salt as int),
    ensures
        opt_chars(r) == quantified(*f, salt as int),
{
    let s = f.subject.as_str();
    let mut r: Vec<char> = Vec::new();
    match f.kind {
        Kind::Decision => match decision_parts_exec(f) {
            Some((param, v, unit)) => {
                push_str(&mut r, "Every deployment of the ");
                push_str(&mut r, s);
                push_str(&mut r, " runs with a ");
                push_all(&mut r, param.as_slice());
                push_str(&mut r, " of ");
                let d = decimal_exec(altered_exec(v, salt));
                push_all(&mut r, d.as_slice());
                push_str(&mut r, " ");
                push_all(&mut r, unit.as_slice());
                push_str(&mut r, ", without exception");
            },
            None => return None,
        },
        Kind::Principle => {
            push_str(&mut r, s);
            push_str(&mut r, " is allowed to ");
            push_str(&mut r, f.answer.as_str());
            push_str(&mut r, " whenever it is convenient");
        },
        Kind::Caution | Kind::Problem => {
            push_str(&mut r, "In every environment tried so far the ");
            push_str(&mut r, s);
            push_str(&mut r, " runs clean: ");
            push_str(&mut r, f.predicate.as_str());
            push_str(&mut r, " has not happened once");
        },
        Kind::Insight => {
            push_str(&mut r, s);
            push_str(&mut r, " ");
            push_str(&mut r, f.predicate.as_str());
            push_str(&mut r, " for reasons that have nothing to do with ");
            push_str(&mut r, f.answer.as_str());
        },
    }
    Some(r)
}

fn in_unit_exec(f: &Fact, salt: usize, moved: bool) -> (r: Option<Vec<char>>)
    requires
        unit_fits(*f, salt as int, moved),
    ensures
        opt_chars(r) == in_unit(*f, salt as int, moved),
{
    match decision_parts_exec(f) {
        Some((param, v, unit)) => match convert_exec(unit.as_slice()) {
            Some((unit2, factor)) => {
                let mut r: Vec<char> = Vec::new();
                push_str(&mut r, f.subject.as_str());
                if moved {
                    push_str(&mut r, " is set to a ");
                    push_all(&mut r, param.as_slice());
                    push_str(&mut r, " of ");
                    proof {
                        let al = altered(v as int, salt as int);
                        assert(al <= al * factor) by (nonlinear_arith)
                            requires
                                al >= 0,
                                factor >= 1,
                        ;
                    }
                    let a = altered_exec(v, salt);
                    let d = decimal_exec(a * factor);
                    push_all(&mut r, d.as_slice());
                } else {
                    push_str(&mut r, " keeps its ");
                    push_all(&mut r, param.as_slice());
                    push_str(&mut r, " at ");
                    let d = decimal_exec(v * factor);
                    push_all(&mut r, d.as_slice());
                }
                push_str(&mut r, " ");
                push_all(&mut r, unit2.as_slice());
                Some(r)
            },
            None => None,
        },
        None => None,
    }
}

fn restated_exec(f: &Fact, g: &str) -> (r: Vec<char>)
    ensures
        r@ == restated(*f, g@),
{
    let s = chars_of(f.subject.as_str());
    let gc = chars_of(g);
    match synonym_exec(f) {
        Some(t) => replace_first_exec(t.as_slice(), s.as_slice(), gc.as_slice()),
        None => {
            let a = agree_exec(f);
            replace_first_exec(a.as_slice(), s.as_slice(), gc.as_slice())
        },
    }
}

fn wrapped_title(prefix: &str, middle: &[char], suffix: &str) -> (r: Vec<char>)
    ensures
        r@ == prefix@ + middle@ + suffix@,
{
    let mut r: Vec<char> = Vec::new();
    push_str(&mut r, prefix);
    push_all(&mut r, middle);
    push_str(&mut r, suffix);
    r
}

/// `prefix + the subject + " " + the predicate + suffix`.
fn claim_title(prefix: &str, f: &Fact, suffix: &str) -> (r: Vec<char>)
    ensures
        r@ == prefix@ + f.subject@ + " "@ + f.predicate@ + suffix@,
{
    let mut r: Vec<char> = Vec::new();
    push_str(&mut r, prefix);
    push_str(&mut r, f.subject.as_str());
    push_str(&mut r, " ");
    push_str(&mut r, f.predicate.as_str());
    push_str(&mut r, suffix);
    r
}

/// (title, body, bridge) of the shape at `idx` of the rotation, or `None`
/// where the shape does not apply to the fact.
pub fn make_exec(idx: usize, f: &Fact, salt: usize, os: Option<&str>, op: Option<&str>) -> (r: Option<
    (Vec<char>, Vec<char>, Bridge),
>)
    requires
        make_fits(idx as int, *f, salt as int, opt_str(os), opt_str(op)),
    ensures
        note_model(r) == spec_make(idx as int, *f, salt as int, opt_str(os), opt_str(op)),
{
    let s = chars_of(f.subject.as_str());
    if idx == 0 {
        note(flip_b_exec(s.as_slice(), f, salt), "Recorded while re-reading the runbook.")
    } else if idx == 1 {
        note(flip_c_exec(f, salt), "Written up fresh after the last operations review.")
    } else if idx == 2 {
        note(claim_title("It is not the case that the ", f, "."), "Checked against the current deployment.")
    } else if idx == 3 {
        note(agree_exec(f), "Restated for the onboarding notes.")
    } else if idx == 4 {
        match synonym_exec(f) {
            Some(t) => note(t, "Restated word for word from the original note."),
            None => None,
        }
    } else if idx == 5 {
        match in_unit_exec(f, salt, true) {
            Some(t) => note(t, "Converted from the ops dashboard's units."),
            None => None,
        }
    } else if idx == 6 {
        note(
            claim_title(
                "Contrary to the runbook, it is wrong that the ",
                f,
                "; the earlier note was mistaken",
            ),
            "Corrected after the incident that the runbook version caused.",
        )
    } else if idx == 7 {
        match os {
            Some(o) => {
                let oc = chars_of(o);
                note(flip_b_exec(oc.as_slice(), f, salt), "Noted while comparing the two.")
            },
            None => None,
        }
    } else if idx == 8 {
        match os {
            Some(o) => {
                let oc = chars_of(o);
                linked(flip_b_exec(oc.as_slice(), f, salt), "Captured from the sibling's runbook.", Bridge::Direct)
            },
            None => None,
        }
    } else if idx == 9 {
        match quantified_exec(f, salt) {
            Some(t) => note(t, "Surveyed across every environment."),
            None => None,
        }
    } else if idx == 10 {
        match op {
            Some(p) => note(
                spaced(s.as_slice(), p),
                "Observed on the same component, unrelated to the setting above.",
            ),
            None => None,
        }
    } else if idx == 11 {
        let fc = flip_clause_exec(f, salt);
        let mut t = claim_title("", f, "; separately, operators report that ");
        push_all(&mut t, fc.as_slice());
        proof {
            reveal_strlit("");
        }
        note(t, "Two observations from one incident review.")
    } else if idx == 12 {
        match in_unit_exec(f, salt, false) {
            Some(t) => note(t, "Same setting, read off the dashboard in its own units."),
            None => None,
        }
    } else if idx == 13 {
        let fb = flip_b_exec(s.as_slice(), f, salt);
        note(
            wrapped_title(
                "Until the 3.1 rollout, ",
                fb.as_slice(),
                "; the rollout changed that, and the current note stands",
            ),
            "History, kept so nobody re-litigates the rollout.",
        )
    } else if idx == 14 {
        match (os, op) {
            (Some(o), Some(p)) => {
                let oc = chars_of(o);
                linked(
                    spaced(oc.as_slice(), p),
                    "Observed on the sibling, unrelated to the setting above.",
                    Bridge::Direct,
                )
            },
            _ => None,
        }
    } else if idx == 15 {
        match os {
            Some(g) => {
                let gc = chars_of(g);
                linked(
                    flip_b_exec(gc.as_slice(), f, salt),
                    "Captured from the sibling's runbook.",
                    Bridge::Upstream(upstream_exec(f, g)),
                )
            },
            None => None,
        }
    } else if idx == 16 {
        match (os, op) {
            (Some(g), Some(p)) => {
                let gc = chars_of(g);
                linked(
                    spaced(gc.as_slice(), p),
                    "Observed on the sibling, unrelated to its settings.",
                    Bridge::Upstream(upstream_exec(f, g)),
                )
            },
            _ => None,
        }
    } else if idx == 17 {
        match os {
            Some(g) => linked(
                restated_exec(f, g),
                "Restated from the sibling's runbook.",
                Bridge::Upstream(upstream_exec(f, g)),
            ),
            None => None,
        }
    } else {
        None
    }
}

} // verus!
