//! What each side of a pair shows a judge under an arm, and the rows an
//! arm sends: every pair in both directions.

use vstd::prelude::*;

use crate::shapes::forms::{body_cut_chars, spec_body_cut};
use crate::shapes::graph::{partner_mark, Text};
use crate::shapes::plant::{Case, CaseModel, NoteModel, NoteText};
use crate::state::{json_string, member_json, state_json, StateValue};
use crate::text::{chars_of, eq_str, join, join_exec, push_all, push_str, replace_all, replace_all_exec, string_of, trim_end_char, trim_end_char_exec};

verus! {

/// The three input arms: the bare titles, titles with body and 1- and
/// 2-hop context, titles with 1-hop context.
pub const ARMS: [&'static str; 3] = ["title", "full", "links"];

/// The most context lines a side carries.
pub const MAX_LINKS: usize = 7;

/// What one side of a pair shows the judge under an arm.
#[derive(Debug, Clone)]
pub struct Side {
    pub text: String,
    pub links: Vec<String>,
}

/// A [`Side`] as text.
pub struct SideModel {
    pub text: Text,
    pub links: Seq<Text>,
}

impl View for Side {
    type V = SideModel;

    open spec fn view(&self) -> SideModel {
        SideModel { text: self.text@, links: self.links.deep_view() }
    }
}

// ------------------------------------------------------------ specification

/// The first `n` items, or all of them when there are fewer.
pub open spec fn first_n(s: Seq<Text>, n: int) -> Seq<Text> {
    if s.len() <= n { s } else { s.take(n) }
}

/// A side before the partner mark is resolved.
pub open spec fn spec_side_raw(note: NoteModel, l1: Seq<Text>, l2: Seq<Text>, arm: Text) -> SideModel {
    if arm == "title"@ {
        SideModel { text: note.title, links: seq![] }
    } else if arm == "full"@ {
        let b = spec_body_cut(note.body);
        let text = if b.len() == 0 {
            note.title
        } else {
            trim_end_char(note.title, '.') + ". "@ + b
        };
        SideModel { text, links: first_n(l1 + l2, 7) }
    } else {
        SideModel { text: note.title, links: first_n(l1, 7) }
    }
}

/// A side with the partner mark in its links read as `other`, the opposite
/// side's role ("the premise"/"the hypothesis").
pub open spec fn spec_side(note: NoteModel, l1: Seq<Text>, l2: Seq<Text>, arm: Text, other: Text) -> SideModel {
    let s = spec_side_raw(note, l1, l2, arm);
    SideModel { text: s.text, links: s.links.map_values(|l: Text| replace_all(l, partner_mark(), other)) }
}

/// A side as one text: context appended as `(Related: a; b.)`.
pub open spec fn spec_flatten(s: SideModel) -> Text {
    if s.links.len() == 0 {
        s.text
    } else {
        s.text + " (Related: "@ + join(s.links, "; "@) + ".)"@
    }
}

/// The truth side of case `c` under `arm`, facing `other`.
pub open spec fn truth_side(c: CaseModel, arm: Text, other: Text) -> SideModel {
    spec_side(c.truth, c.truth_links1, c.truth_links2, arm, other)
}

/// The planted side of case `c` under `arm`, facing `other`.
pub open spec fn planted_side(c: CaseModel, arm: Text, other: Text) -> SideModel {
    spec_side(c.planted, c.planted_links1, c.planted_links2, arm, other)
}

/// The rows of an arm: per case, (truth, planted) then (planted, truth),
/// each direction resolving the partner mark for its roles.
pub open spec fn spec_arm_rows(cs: Seq<CaseModel>, arm: Text) -> Seq<(SideModel, SideModel)>
    decreases cs.len(),
{
    if cs.len() == 0 {
        seq![]
    } else {
        let c = cs.last();
        spec_arm_rows(cs.drop_last(), arm).push(
            (truth_side(c, arm, "the hypothesis"@), planted_side(c, arm, "the premise"@)),
        ).push((planted_side(c, arm, "the hypothesis"@), truth_side(c, arm, "the premise"@)))
    }
}

// ------------------------------------------------------------ execution

/// The strings `a` then `b`, at most `n` of them.
fn first_strings(a: &Vec<String>, b: &Vec<String>, n: usize) -> (r: Vec<String>)
    ensures
        r.deep_view() == first_n(a.deep_view() + b.deep_view(), n as int),
{
    let ghost all = a.deep_view() + b.deep_view();
    let mut r: Vec<String> = Vec::new();
    let mut i: usize = 0;
    while i < a.len() && r.len() < n
        invariant
            i <= a@.len(),
            r@.len() == i,
            r@.len() <= n,
            all == a.deep_view() + b.deep_view(),
            r.deep_view() == all.take(i as int),
        decreases a@.len() - i,
    {
        let ghost r0 = r.deep_view();
        r.push(a[i].clone());
        i = i + 1;
        proof {
            assert(r.deep_view() =~= r0.push(a@[i - 1]@));
            assert(all.take(i as int) =~= all.take(i - 1).push(all[i - 1]));
        }
    }
    let mut k: usize = 0;
    while k < b.len() && r.len() < n
        invariant
            k <= b@.len(),
            r@.len() <= n,
            all == a.deep_view() + b.deep_view(),
            r@.len() < n ==> i == a@.len(),
            r@.len() == i + k,
            i <= a@.len(),
            k > 0 ==> i == a@.len(),
            r.deep_view() == all.take(i + k),
        decreases b@.len() - k,
    {
        let ghost r0 = r.deep_view();
        r.push(b[k].clone());
        k = k + 1;
        proof {
            assert(r.deep_view() =~= r0.push(b@[k - 1]@));
            assert(all.take(i + k) =~= all.take(i + k - 1).push(all[i + k - 1]));
        }
    }
    proof {
        if all.len() <= n {
            assert(all.take(i + k) =~= all);
        }
    }
    r
}

/// A side before the partner mark is resolved.
pub fn side_raw(note: &NoteText, l1: &Vec<String>, l2: &Vec<String>, arm: &str) -> (s: Side)
    ensures
        s@ == spec_side_raw(note@, l1.deep_view(), l2.deep_view(), arm@),
{
    let ac = chars_of(arm);
    let none: Vec<String> = Vec::new();
    if eq_str(ac.as_slice(), "title") {
        let s = Side { text: note.title.clone(), links: Vec::new() };
        proof {
            assert(s.links.deep_view() =~= Seq::<Text>::empty());
        }
        s
    } else if eq_str(ac.as_slice(), "full") {
        let body = chars_of(note.body.as_str());
        let b = body_cut_chars(body.as_slice());
        let text = if b.len() == 0 {
            note.title.clone()
        } else {
            let title = chars_of(note.title.as_str());
            let mut t = trim_end_char_exec(title.as_slice(), '.');
            push_str(&mut t, ". ");
            push_all(&mut t, b.as_slice());
            string_of(t.as_slice())
        };
        Side { text, links: first_strings(l1, l2, 7) }
    } else {
        let links = first_strings(l1, &none, 7);
        proof {
            assert(l1.deep_view() + none.deep_view() =~= l1.deep_view());
        }
        Side { text: note.title.clone(), links }
    }
}

/// `l` with every partner mark read as `other`.
fn resolve_partner(l: &String, other: &str) -> (r: String)
    ensures
        r@ == replace_all(l@, partner_mark(), other@),
{
    let lc = chars_of(l.as_str());
    let mark = chars_of("\u{1}PARTNER");
    proof {
        reveal_strlit("\u{1}PARTNER");
    }
    let oc = chars_of(other);
    let r = replace_all_exec(lc.as_slice(), mark.as_slice(), oc.as_slice());
    string_of(r.as_slice())
}

/// `other` names the opposite side's role ("the premise"/"the hypothesis").
pub fn side(note: &NoteText, l1: &Vec<String>, l2: &Vec<String>, arm: &str, other: &str) -> (s: Side)
    ensures
        s@ == spec_side(note@, l1.deep_view(), l2.deep_view(), arm@, other@),
{
    let raw = side_raw(note, l1, l2, arm);
    let ghost rl = raw.links.deep_view();
    let mut links: Vec<String> = Vec::new();
    let mut i: usize = 0;
    while i < raw.links.len()
        invariant
            i <= raw.links@.len(),
            rl == raw.links.deep_view(),
            links.deep_view() == rl.take(i as int).map_values(|l: Text| replace_all(l, partner_mark(), other@)),
        decreases raw.links@.len() - i,
    {
        let ghost l0 = links.deep_view();
        links.push(resolve_partner(&raw.links[i], other));
        i = i + 1;
        proof {
            assert(links.deep_view() =~= l0.push(replace_all(rl[i - 1], partner_mark(), other@)));
            assert(rl.take(i as int).map_values(|l: Text| replace_all(l, partner_mark(), other@)) =~= rl.take(i - 1).map_values(
                |l: Text| replace_all(l, partner_mark(), other@),
            ).push(replace_all(rl[i - 1], partner_mark(), other@)));
        }
    }
    proof {
        assert(rl.take(rl.len() as int) =~= rl);
    }
    Side { text: raw.text, links }
}

/// A side as one text: context appended as `(Related: a; b.)`.
pub fn flatten(s: &Side) -> (r: String)
    ensures
        r@ == spec_flatten(s@),
{
    if s.links.len() == 0 {
        s.text.clone()
    } else {
        let mut ls: Vec<Vec<char>> = Vec::new();
        let mut i: usize = 0;
        while i < s.links.len()
            invariant
                i <= s.links@.len(),
                crate::text::vvc(ls@) == s.links.deep_view().take(i as int),
            decreases s.links@.len() - i,
        {
            let ghost l0 = crate::text::vvc(ls@);
            ls.push(chars_of(s.links[i].as_str()));
            i = i + 1;
            proof {
                assert(crate::text::vvc(ls@) =~= l0.push(s.links@[i - 1]@));
                assert(s.links.deep_view().take(i as int) =~= s.links.deep_view().take(i - 1).push(s.links@[i - 1]@));
            }
        }
        proof {
            assert(s.links.deep_view().take(s.links@.len() as int) =~= s.links.deep_view());
        }
        let sep = chars_of("; ");
        let joined = join_exec(&ls, sep.as_slice());
        let mut r = chars_of(s.text.as_str());
        push_str(&mut r, " (Related: ");
        push_all(&mut r, joined.as_slice());
        push_str(&mut r, ".)");
        string_of(r.as_slice())
    }
}

/// A side that is a bare title.
pub fn bare(title: &str) -> (s: Side)
    ensures
        s@ == (SideModel { text: title@, links: seq![] }),
{
    let s = Side { text: string_of(chars_of(title).as_slice()), links: Vec::new() };
    proof {
        assert(s.links.deep_view() =~= Seq::<Text>::empty());
    }
    s
}

pub open spec fn rows_model(rows: Seq<(Side, Side)>) -> Seq<(SideModel, SideModel)> {
    rows.map_values(|r: (Side, Side)| (r.0@, r.1@))
}

/// The rows of an arm: every case in both directions.
pub fn arm_rows(cases: &Vec<Case>, arm: &str) -> (rows: Vec<(Side, Side)>)
    ensures
        rows_model(rows@) == spec_arm_rows(cases@.map_values(|c: Case| c@), arm@),
{
    let ghost cs = cases@.map_values(|c: Case| c@);
    let mut rows: Vec<(Side, Side)> = Vec::new();
    let mut i: usize = 0;
    while i < cases.len()
        invariant
            i <= cases@.len(),
            cs == cases@.map_values(|c: Case| c@),
            rows_model(rows@) == spec_arm_rows(cs.take(i as int), arm@),
        decreases cases@.len() - i,
    {
        let c = &cases[i];
        let ta_h = side(&c.truth, &c.truth_links1, &c.truth_links2, arm, "the hypothesis");
        let pb_p = side(&c.planted, &c.planted_links1, &c.planted_links2, arm, "the premise");
        let pb_h = side(&c.planted, &c.planted_links1, &c.planted_links2, arm, "the hypothesis");
        let ta_p = side(&c.truth, &c.truth_links1, &c.truth_links2, arm, "the premise");
        let ghost r0 = rows_model(rows@);
        let ghost x = (ta_h@, pb_p@);
        let ghost y = (pb_h@, ta_p@);
        rows.push((ta_h, pb_p));
        rows.push((pb_h, ta_p));
        i = i + 1;
        proof {
            assert(cs.take(i as int).drop_last() =~= cs.take(i - 1));
            assert(cs.take(i as int).last() == c@);
            assert(rows_model(rows@) =~= r0.push(x).push(y));
        }
    }
    proof {
        assert(cs.take(cases@.len() as int) =~= cs);
    }
    rows
}

// ------------------------------------------------------------ judge inputs

/// `"key": value` for a string value.
pub open spec fn text_member(key: Text, value: Text) -> Text {
    json_string(key) + ": "@ + json_string(value)
}

/// `"key": [a, b]` for a list of strings.
pub open spec fn list_member(key: Text, items: Seq<Text>) -> Text {
    json_string(key) + ": "@ + ("["@ + join(items.map_values(|i: Seq<char>| json_string(i)), ", "@) + "]"@)
}

/// The members of the state a Laya judge reads for (premise, hypothesis):
/// both texts, then each side's context as an extra key where it has any.
pub open spec fn judge_members(a: SideModel, b: SideModel) -> Seq<Text> {
    seq![text_member("premise"@, a.text), text_member("hypothesis"@, b.text)] + (if a.links.len() > 0 {
        seq![list_member("premise_links"@, a.links)]
    } else {
        seq![]
    }) + (if b.links.len() > 0 {
        seq![list_member("hypothesis_links"@, b.links)]
    } else {
        seq![]
    })
}

/// The state a Laya judge reads for (premise, hypothesis), as JSON.
pub open spec fn spec_judge_state(a: SideModel, b: SideModel) -> Text {
    "{"@ + join(judge_members(a, b), ", "@) + "}"@
}

/// A copy of a list of strings.
fn copy_strings(v: &Vec<String>) -> (r: Vec<String>)
    ensures
        r.deep_view() == v.deep_view(),
{
    let mut r: Vec<String> = Vec::new();
    let mut i: usize = 0;
    while i < v.len()
        invariant
            i <= v@.len(),
            r.deep_view() == v.deep_view().take(i as int),
        decreases v@.len() - i,
    {
        let ghost r0 = r.deep_view();
        r.push(v[i].clone());
        i = i + 1;
        proof {
            assert(r.deep_view() =~= r0.push(v@[i - 1]@));
            assert(v.deep_view().take(i as int) =~= v.deep_view().take(i - 1).push(v@[i - 1]@));
        }
    }
    proof {
        assert(v.deep_view().take(v@.len() as int) =~= v.deep_view());
    }
    r
}

/// The state a Laya judge reads for one (premise, hypothesis) row: the two
/// texts under the XNLI keys, each side's context under `premise_links` /
/// `hypothesis_links` where it has any.
pub fn judge_state(a: &Side, b: &Side) -> (r: String)
    ensures
        r@ == spec_judge_state(a@, b@),
{
    let mut fields: Vec<(&str, StateValue)> = Vec::new();
    fields.push(("premise", StateValue::Text(a.text.clone())));
    fields.push(("hypothesis", StateValue::Text(b.text.clone())));
    if a.links.len() > 0 {
        fields.push(("premise_links", StateValue::List(copy_strings(&a.links))));
    }
    if b.links.len() > 0 {
        fields.push(("hypothesis_links", StateValue::List(copy_strings(&b.links))));
    }
    let r = state_json(fields.as_slice());
    proof {
        let m = fields@.map_values(|f: (&str, StateValue)| member_json(f));
        let jm = judge_members(a@, b@);
        assert(m[0] == jm[0]);
        assert(m[1] == jm[1]);
        if a.links@.len() > 0 {
            assert(m[2] == jm[2]);
            if b.links@.len() > 0 {
                assert(m[3] == jm[3]);
            }
        } else if b.links@.len() > 0 {
            assert(m[2] == jm[2]);
        }
        assert(m =~= jm);
    }
    r
}

/// The states a Laya judge reads for a batch of rows.
pub fn judge_states(rows: &Vec<(Side, Side)>) -> (r: Vec<String>)
    ensures
        r@.len() == rows@.len(),
        forall|i: int| 0 <= i < rows@.len() ==> (#[trigger] r@[i])@ == spec_judge_state(rows@[i].0@, rows@[i].1@),
{
    let mut r: Vec<String> = Vec::new();
    let mut i: usize = 0;
    while i < rows.len()
        invariant
            i <= rows@.len(),
            r@.len() == i,
            forall|k: int| 0 <= k < i ==> (#[trigger] r@[k])@ == spec_judge_state(rows@[k].0@, rows@[k].1@),
        decreases rows@.len() - i,
    {
        r.push(judge_state(&rows[i].0, &rows[i].1));
        i = i + 1;
    }
    r
}

/// The (premise, hypothesis) texts a three-label NLI judge reads for a
/// batch of rows: each side flattened, its context appended.
pub fn nli_pairs(rows: &Vec<(Side, Side)>) -> (r: Vec<(String, String)>)
    ensures
        r@.len() == rows@.len(),
        forall|i: int|
            0 <= i < rows@.len() ==> (#[trigger] r@[i]).0@ == spec_flatten(rows@[i].0@) && r@[i].1@ == spec_flatten(
                rows@[i].1@,
            ),
{
    let mut r: Vec<(String, String)> = Vec::new();
    let mut i: usize = 0;
    while i < rows.len()
        invariant
            i <= rows@.len(),
            r@.len() == i,
            forall|k: int|
                0 <= k < i ==> (#[trigger] r@[k]).0@ == spec_flatten(rows@[k].0@) && r@[k].1@ == spec_flatten(
                    rows@[k].1@,
                ),
        decreases rows@.len() - i,
    {
        r.push((flatten(&rows[i].0), flatten(&rows[i].1)));
        i = i + 1;
    }
    r
}


/// A side's copy.
fn copy_side(s: &Side) -> (r: Side)
    ensures
        r@ == s@,
{
    Side { text: s.text.clone(), links: copy_strings(&s.links) }
}

/// Every row in both orders: `(a, b)` then `(b, a)`, row by row.
pub fn both_ways(rows: &Vec<(Side, Side)>) -> (r: Vec<(Side, Side)>)
    ensures
        r@.len() == 2 * rows@.len(),
        forall|i: int|
            0 <= i < rows@.len() ==> (#[trigger] rows@[i]).0@ == r@[2 * i].0@ && rows@[i].1@ == r@[2 * i].1@
                && rows@[i].1@ == r@[2 * i + 1].0@ && rows@[i].0@ == r@[2 * i + 1].1@,
{
    let mut r: Vec<(Side, Side)> = Vec::new();
    let mut i: usize = 0;
    while i < rows.len()
        invariant
            i <= rows@.len(),
            r@.len() == 2 * i,
            forall|k: int|
                0 <= k < i ==> (#[trigger] rows@[k]).0@ == r@[2 * k].0@ && rows@[k].1@ == r@[2 * k].1@
                    && rows@[k].1@ == r@[2 * k + 1].0@ && rows@[k].0@ == r@[2 * k + 1].1@,
        decreases rows@.len() - i,
    {
        let (a, b) = &rows[i];
        r.push((copy_side(a), copy_side(b)));
        r.push((copy_side(b), copy_side(a)));
        i = i + 1;
    }
    r
}

/// The (upstream, planted) pairs the propagation rule judges, case by case:
/// (upstream, planted) for each title the truth depends on that admission
/// lets through, and the case each pair belongs to.
pub open spec fn spec_propagation(cs: Seq<CaseModel>, admitted: Seq<Seq<bool>>) -> Seq<(SideModel, SideModel, int)>
    decreases cs.len(),
{
    if cs.len() == 0 {
        seq![]
    } else {
        let i = cs.len() - 1;
        let c = cs[i];
        spec_propagation(cs.drop_last(), admitted) + Seq::new(c.truth_deps.len(), |j: int| j).filter(
            |j: int| admitted[i][j],
        ).map_values(
            |j: int|
                (
                    SideModel { text: c.truth_deps[j], links: seq![] },
                    SideModel { text: c.planted.title, links: seq![] },
                    i,
                ),
        )
    }
}

/// The rows of the propagation rule and their cases: for case `i`, the bare
/// pair (upstream, planted title) for every dependency `j` of its truth
/// with `admitted[i][j]`.
pub fn propagation_rows(cases: &Vec<Case>, admitted: &Vec<Vec<bool>>) -> (r: (Vec<(Side, Side)>, Vec<usize>))
    requires
        admitted@.len() == cases@.len(),
        forall|i: int| 0 <= i < cases@.len() ==> (#[trigger] admitted@[i])@.len() == cases@[i].truth_deps@.len(),
    ensures
        r.0@.len() == r.1@.len(),
        ({
            let want = spec_propagation(cases@.map_values(|c: Case| c@), admitted@.map_values(|v: Vec<bool>| v@));
            &&& r.0@.len() == want.len()
            &&& forall|k: int|
                0 <= k < want.len() ==> (#[trigger] want[k]) == (r.0@[k].0@, r.0@[k].1@, r.1@[k] as int)
        }),
{
    let ghost cs = cases@.map_values(|c: Case| c@);
    let ghost adm = admitted@.map_values(|v: Vec<bool>| v@);
    let mut rows: Vec<(Side, Side)> = Vec::new();
    let mut owners: Vec<usize> = Vec::new();
    let mut i: usize = 0;
    while i < cases.len()
        invariant
            i <= cases@.len(),
            admitted@.len() == cases@.len(),
            forall|i: int| 0 <= i < cases@.len() ==> (#[trigger] admitted@[i])@.len() == cases@[i].truth_deps@.len(),
            cs == cases@.map_values(|c: Case| c@),
            adm == admitted@.map_values(|v: Vec<bool>| v@),
            rows@.len() == owners@.len(),
            rows@.len() == spec_propagation(cs.take(i as int), adm).len(),
            forall|k: int|
                0 <= k < rows@.len() ==> (#[trigger] spec_propagation(cs.take(i as int), adm)[k]) == (
                    rows@[k].0@,
                    rows@[k].1@,
                    owners@[k] as int,
                ),
        decreases cases@.len() - i,
    {
        let c = &cases[i];
        let ghost base = spec_propagation(cs.take(i as int), adm);
        let ghost idx = Seq::new(c.truth_deps@.len(), |j: int| j);
        let ghost pick = |j: int| adm[i as int][j];
        let ghost mk = |j: int|
            (
                SideModel { text: cs[i as int].truth_deps[j], links: seq![] },
                SideModel { text: cs[i as int].planted.title, links: seq![] },
                i as int,
            );
        let ghost r0 = rows@.len();
        let mut j: usize = 0;
        while j < c.truth_deps.len()
            invariant
                i < cases@.len(),
                admitted@.len() == cases@.len(),
                c == &cases@[i as int],
                j <= c.truth_deps@.len(),
                admitted@[i as int]@.len() == c.truth_deps@.len(),
                cs == cases@.map_values(|c: Case| c@),
                adm == admitted@.map_values(|v: Vec<bool>| v@),
                idx == Seq::new(c.truth_deps@.len(), |j: int| j),
                pick == (|j: int| adm[i as int][j]),
                mk == (|j: int|
                    (
                        SideModel { text: cs[i as int].truth_deps[j], links: seq![] },
                        SideModel { text: cs[i as int].planted.title, links: seq![] },
                        i as int,
                    )),
                r0 == base.len(),
                rows@.len() == owners@.len(),
                rows@.len() == r0 + idx.take(j as int).filter(pick).len(),
                forall|k: int| 0 <= k < r0 ==> (#[trigger] base[k]) == (rows@[k].0@, rows@[k].1@, owners@[k] as int),
                forall|k: int|
                    0 <= k < rows@.len() - r0 ==> (#[trigger] idx.take(j as int).filter(pick).map_values(mk)[k]) == (
                        rows@[r0 + k].0@,
                        rows@[r0 + k].1@,
                        owners@[r0 + k] as int,
                    ),
            decreases c.truth_deps@.len() - j,
        {
            let ghost before = idx.take(j as int).filter(pick);
            proof {
                assert(idx.take(j + 1).drop_last() =~= idx.take(j as int));
                assert(idx.take(j + 1).last() == j as int);
                assert(adm[i as int] == admitted@[i as int]@);
                reveal_with_fuel(Seq::<_>::filter, 1);
                if pick(j as int) {
                    assert(idx.take(j + 1).filter(pick) == before.push(j as int));
                } else {
                    assert(idx.take(j + 1).filter(pick) == before);
                }
            }
            if admitted[i][j] {
                rows.push((bare(c.truth_deps[j].as_str()), bare(c.planted.title.as_str())));
                owners.push(i);
                proof {
                    assert(before.push(j as int).map_values(mk) =~= before.map_values(mk).push(mk(j as int)));
                    assert(cs[i as int] == c@);
                }
            }
            j = j + 1;
        }
        proof {
            assert(idx.take(c.truth_deps@.len() as int) =~= idx);
            assert(cs.take(i + 1).drop_last() =~= cs.take(i as int));
            assert(cs.take(i + 1).last() == cs[i as int]);
            assert(cs[i as int].truth_deps.len() == c.truth_deps@.len());
            let tail = idx.filter(pick).map_values(mk);
            assert(spec_propagation(cs.take(i + 1), adm) == base + tail);
            assert forall|k: int| 0 <= k < rows@.len() implies (#[trigger] spec_propagation(cs.take(i + 1), adm)[k]) == (
                rows@[k].0@,
                rows@[k].1@,
                owners@[k] as int,
            ) by {
                if k < r0 {
                    assert(base[k] == (rows@[k].0@, rows@[k].1@, owners@[k] as int));
                } else {
                    assert(tail[k - r0] == (rows@[r0 + (k - r0)].0@, rows@[r0 + (k - r0)].1@, owners@[r0 + (k - r0)] as int));
                }
            }
        }
        i = i + 1;
    }
    proof {
        assert(cs.take(cases@.len() as int) =~= cs);
    }
    (rows, owners)
}

// ------------------------------------------------------------ laws

/// Row `k` of the propagation rows is dependency `j` of case `i` with the
/// case's planted title.
pub open spec fn quotes(row: (SideModel, SideModel, int), cs: Seq<CaseModel>, i: int, j: int) -> bool {
    &&& row.2 == i
    &&& row.0 == (SideModel { text: cs[i].truth_deps[j], links: seq![] })
    &&& row.1 == (SideModel { text: cs[i].planted.title, links: seq![] })
}

/// Propagation row `k` quotes an admitted dependency of its case.
pub open spec fn row_admitted(cs: Seq<CaseModel>, admitted: Seq<Seq<bool>>, k: int) -> bool {
    exists|i: int, j: int|
        0 <= i < cs.len() && 0 <= j < cs[i].truth_deps.len() && admitted[i][j] && #[trigger] quotes(
            spec_propagation(cs, admitted)[k],
            cs,
            i,
            j,
        )
}

/// Dependency `j` of case `i` is quoted by some propagation row.
pub open spec fn dep_quoted(cs: Seq<CaseModel>, admitted: Seq<Seq<bool>>, i: int, j: int) -> bool {
    exists|k: int| 0 <= k < spec_propagation(cs, admitted).len() && #[trigger] quotes(spec_propagation(cs, admitted)[k], cs, i, j)
}

/// The propagation rule judges exactly the admitted pairs: every row quotes
/// an admitted dependency of its case, with the case's planted title, and
/// every admitted dependency is quoted by a row.
pub proof fn law_propagation_admitted(cs: Seq<CaseModel>, admitted: Seq<Seq<bool>>)
    requires
        admitted.len() == cs.len(),
        forall|i: int| 0 <= i < cs.len() ==> (#[trigger] admitted[i]).len() == cs[i].truth_deps.len(),
    ensures
        forall|k: int| 0 <= k < spec_propagation(cs, admitted).len() ==> #[trigger] row_admitted(cs, admitted, k),
        forall|i: int, j: int|
            0 <= i < cs.len() && 0 <= j < cs[i].truth_deps.len() && admitted[i][j] ==> #[trigger] dep_quoted(
                cs,
                admitted,
                i,
                j,
            ),
    decreases cs.len(),
{
    if cs.len() > 0 {
        let d = cs.drop_last();
        let at = admitted.take(d.len() as int);
        assert forall|i: int| 0 <= i < d.len() implies (#[trigger] at[i]).len() == d[i].truth_deps.len() by {
            assert(d[i] == cs[i]);
            assert(at[i] == admitted[i]);
        }
        law_propagation_admitted(d, at);
        lemma_propagation_prefix(d, admitted);
        let i0 = cs.len() - 1;
        let c = cs[i0];
        let base = spec_propagation(d, admitted);
        assert(base == spec_propagation(d, at));
        let idx = Seq::new(c.truth_deps.len(), |j: int| j);
        let pick = |j: int| admitted[i0][j];
        let mk = |j: int|
            (
                SideModel { text: c.truth_deps[j], links: seq![] },
                SideModel { text: c.planted.title, links: seq![] },
                i0,
            );
        let tail = idx.filter(pick).map_values(mk);
        let all = spec_propagation(cs, admitted);
        assert(all == base + tail);
        assert forall|k: int| 0 <= k < spec_propagation(cs, admitted).len() implies #[trigger] row_admitted(cs, admitted, k) by {
            if k < base.len() {
                assert(row_admitted(d, at, k));
                let (i, j) = choose|i: int, j: int|
                    0 <= i < d.len() && 0 <= j < d[i].truth_deps.len() && at[i][j] && #[trigger] quotes(
                        spec_propagation(d, at)[k],
                        d,
                        i,
                        j,
                    );
                assert(d[i] == cs[i]);
                assert(at[i] == admitted[i]);
                assert(all[k] == base[k]);
                assert(quotes(all[k], cs, i, j));
            } else {
                let m = k - base.len();
                let jj = idx.filter(pick)[m];
                idx.lemma_filter_pred(pick, m);
                assert(idx.filter(pick).contains(jj));
                idx.lemma_filter_contains_rev(pick, jj);
                assert(0 <= jj < c.truth_deps.len());
                assert(all[k] == mk(jj));
                assert(quotes(all[k], cs, i0, jj));
            }
        }
        assert forall|i: int, j: int|
            0 <= i < cs.len() && 0 <= j < cs[i].truth_deps.len() && admitted[i][j] implies #[trigger] dep_quoted(
            cs,
            admitted,
            i,
            j,
        ) by {
            if i < d.len() {
                assert(d[i] == cs[i]);
                assert(at[i] == admitted[i]);
                assert(dep_quoted(d, at, i, j));
                let k = choose|k: int|
                    0 <= k < spec_propagation(d, at).len() && #[trigger] quotes(spec_propagation(d, at)[k], d, i, j);
                assert(all[k] == base[k]);
                assert(quotes(all[k], cs, i, j));
            } else {
                assert(i == i0);
                assert(idx[j] == j);
                idx.lemma_filter_contains(pick, j);
                let m = choose|m: int| 0 <= m < idx.filter(pick).len() && idx.filter(pick)[m] == j;
                assert(all[base.len() + m] == mk(j));
                assert(quotes(all[base.len() + m], cs, i, j));
            }
        }
    }
}

/// The rows of the first cases read only their own admission verdicts.
proof fn lemma_propagation_prefix(cs: Seq<CaseModel>, admitted: Seq<Seq<bool>>)
    requires
        admitted.len() >= cs.len(),
    ensures
        spec_propagation(cs, admitted) == spec_propagation(cs, admitted.take(cs.len() as int)),
    decreases cs.len(),
{
    if cs.len() > 0 {
        let d = cs.drop_last();
        lemma_propagation_prefix(d, admitted);
        lemma_propagation_prefix(d, admitted.take(cs.len() as int));
        assert(admitted.take(cs.len() as int).take(d.len() as int) =~= admitted.take(d.len() as int));
        let i0 = cs.len() - 1;
        assert(admitted.take(cs.len() as int)[i0] == admitted[i0]);
        let c = cs[i0];
        let idx = Seq::new(c.truth_deps.len(), |j: int| j);
        assert(idx.filter(|j: int| admitted[i0][j]) == idx.filter(|j: int| admitted.take(cs.len() as int)[i0][j]));
    }
}


/// The state a Laya judge reads holds the premise's text, then the
/// hypothesis's, then the premise's context when it has any, then the
/// hypothesis's context when it has any; each side's context is there
/// exactly when that side has some, whatever the other side carries.
pub proof fn law_judge_state_members(a: SideModel, b: SideModel)
    ensures
        ({
            let m = judge_members(a, b);
            let pa: int = if a.links.len() > 0 { 1 } else { 0 };
            let pb: int = if b.links.len() > 0 { 1 } else { 0 };
            &&& m.len() == 2 + pa + pb
            &&& m[0] == text_member("premise"@, a.text)
            &&& m[1] == text_member("hypothesis"@, b.text)
            &&& a.links.len() > 0 ==> m[2] == list_member("premise_links"@, a.links)
            &&& b.links.len() > 0 ==> m[m.len() - 1] == list_member("hypothesis_links"@, b.links)
        }),
{
}


/// Every pair is judged in both directions: the rows of an arm are, case by
/// case, (truth, planted) and then (planted, truth), each side facing the
/// other's role.
pub proof fn law_both_directions(cs: Seq<CaseModel>, arm: Text)
    ensures
        spec_arm_rows(cs, arm).len() == 2 * cs.len(),
        forall|i: int|
            0 <= i < cs.len() ==> #[trigger] spec_arm_rows(cs, arm)[2 * i] == (
                truth_side(cs[i], arm, "the hypothesis"@),
                planted_side(cs[i], arm, "the premise"@),
            ) && spec_arm_rows(cs, arm)[2 * i + 1] == (
                planted_side(cs[i], arm, "the hypothesis"@),
                truth_side(cs[i], arm, "the premise"@),
            ),
    decreases cs.len(),
{
    if cs.len() > 0 {
        let d = cs.drop_last();
        law_both_directions(d, arm);
        let r = spec_arm_rows(cs, arm);
        let r0 = spec_arm_rows(d, arm);
        assert forall|i: int| 0 <= i < cs.len() implies #[trigger] r[2 * i] == (
            truth_side(cs[i], arm, "the hypothesis"@),
            planted_side(cs[i], arm, "the premise"@),
        ) && r[2 * i + 1] == (planted_side(cs[i], arm, "the hypothesis"@), truth_side(cs[i], arm, "the premise"@)) by {
            if i < d.len() {
                assert(d[i] == cs[i]);
                assert(r0[2 * i] == (truth_side(d[i], arm, "the hypothesis"@), planted_side(d[i], arm, "the premise"@)));
                assert(r[2 * i] == r0[2 * i]);
                assert(r[2 * i + 1] == r0[2 * i + 1]);
            }
        }
    }
}

/// A side never carries more than [`MAX_LINKS`] context lines; under the
/// `title` arm it carries none, under `links` only 1-hop lines.
pub proof fn law_context_capped(note: NoteModel, l1: Seq<Text>, l2: Seq<Text>, arm: Text, other: Text)
    ensures
        spec_side(note, l1, l2, arm, other).links.len() <= 7,
        arm == "title"@ ==> spec_side(note, l1, l2, arm, other).links.len() == 0,
        arm != "title"@ && arm != "full"@ ==> spec_side_raw(note, l1, l2, arm).links == first_n(l1, 7),
{
}

} // verus!
