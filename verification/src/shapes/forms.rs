//! The phrasings the shapes are built from: flipped claims, agreeing
//! restatements, synonyms, unit conversions, edge verbs and cut titles.

use vstd::prelude::*;

use crate::corpus::{Fact, Kind};
use crate::text::{chars_of, contains_exec, decimal_exec, eq_str, join_exec, parse_u64_exec, push_all, push_str, replace_all_exec, replace_first_exec, split_once_exec, strip_prefix_exec, trim_end_char_exec, trim_exec, vvc, words_exec, contains, decimal, join, parse_u64, replace_all, replace_first, split_once, strip_prefix, trim, trim_end_char, words, no_ws, matches_at, lemma_words_solid, lemma_words_join, lemma_words_extend, lemma_words_trim_end_char};

verus! {

// ------------------------------------------------------------ specification

/// A decision's `(parameter, value, unit)` when its predicate reads
/// `uses a <parameter> of <value> <unit>`.
pub open spec fn decision_parts(f: Fact) -> Option<(Seq<char>, u64, Seq<char>)> {
    match strip_prefix(f.predicate@, "uses a "@) {
        None => None,
        Some(rest) => match split_once(rest, " of "@) {
            None => None,
            Some((param, value_unit)) => match split_once(value_unit, " "@) {
                None => None,
                Some((value, unit)) => match parse_u64(value) {
                    None => None,
                    Some(v) => Some((param, v, unit)),
                },
            },
        },
    }
}

/// A value moved off the truth by `1 + salt % 40`.
pub open spec fn altered(value: int, salt: int) -> int {
    value + 1 + salt % 40
}

/// The smaller unit a value can be restated in, and the factor to it.
pub open spec fn convert(unit: Seq<char>) -> Option<(Seq<char>, int)> {
    if unit == "seconds"@ {
        Some(("milliseconds"@, 1000))
    } else if unit == "minutes"@ {
        Some(("seconds"@, 60))
    } else if unit == "hours"@ {
        Some(("minutes"@, 60))
    } else if unit == "days"@ {
        Some(("hours"@, 24))
    } else if unit == "megabytes"@ {
        Some(("kilobytes"@, 1024))
    } else {
        None
    }
}

/// The moved value a flipped decision states fits in a `u64` (nothing is
/// computed for other kinds, or for a decision whose predicate does not
/// parse).
pub open spec fn flip_fits(f: Fact, salt: int) -> bool {
    f.kind == Kind::Decision ==> (decision_parts(f) matches Some((_p, v, _u)) ==> altered(v as int, salt)
        <= u64::MAX)
}

/// The value a unit restatement states (moved off the truth when `moved`)
/// fits in a `u64` once scaled to the smaller unit.
pub open spec fn unit_fits(f: Fact, salt: int, moved: bool) -> bool {
    decision_parts(f) matches Some((_p, v, unit)) ==> (convert(unit) matches Some((_u, k)) ==> (if moved {
        altered(v as int, salt) * k
    } else {
        v * k
    }) <= u64::MAX)
}

/// The fact's claim flipped and said of `subject`.
pub open spec fn flip_b(subject: Seq<char>, f: Fact, salt: int) -> Seq<char> {
    match f.kind {
        Kind::Decision => match decision_parts(f) {
            Some((_p, v, unit)) => subject + " is configured with "@ + decimal(altered(v as int, salt) as nat)
                + " "@ + unit,
            None => subject + " is configured with something other than "@ + f.answer@,
        },
        Kind::Caution => subject + " never "@ + f.predicate@ + ", whatever happens"@,
        Kind::Principle => subject + " may freely "@ + f.answer@,
        Kind::Problem => subject + " no longer "@ + f.predicate@,
        Kind::Insight => "It is not true that "@ + subject + " "@ + f.predicate@ + " because "@
            + f.answer@,
    }
}

/// The fact's claim flipped as a clause about "it".
pub open spec fn flip_clause(f: Fact, salt: int) -> Seq<char> {
    match f.kind {
        Kind::Decision => match decision_parts(f) {
            Some((_p, v, unit)) => "it is configured with "@ + decimal(altered(v as int, salt) as nat) + " "@
                + unit,
            None => "it is configured with something other than "@ + f.answer@,
        },
        Kind::Caution => "it never "@ + f.predicate@ + ", whatever happens"@,
        Kind::Principle => "it may freely "@ + f.answer@,
        Kind::Problem => "it no longer "@ + f.predicate@,
        Kind::Insight => "it "@ + f.predicate@ + " for a reason other than "@ + f.answer@,
    }
}

/// The fact's claim flipped in fresh words.
pub open spec fn flip_c(f: Fact, salt: int) -> Seq<char> {
    let s = f.subject@;
    match f.kind {
        Kind::Decision => match decision_parts(f) {
            Some((param, v, unit)) => "Operators pinned the "@ + s + " to "@ + decimal(
                altered(v as int, salt) as nat,
            ) + " "@ + unit + " for its "@ + param + ", and the dashboard agrees"@,
            None => "Operators moved the "@ + s + " off "@ + f.answer@ + " some time ago"@,
        },
        Kind::Caution => "Nobody has ever seen the "@ + s + " "@ + f.predicate@
            + "; it has been stable in every environment"@,
        Kind::Principle => "Doing "@ + f.answer@ + " inside the "@ + s + " is fine and routinely done"@,
        Kind::Problem => "The "@ + s + " has stopped showing that it "@ + f.predicate@
            + "; the issue is resolved"@,
        Kind::Insight => "The explanation for the "@ + s + " "@ + f.predicate@ + " was traced elsewhere; "@
            + f.answer@ + " plays no part"@,
    }
}

/// The title with one word swapped for a synonym, when that changes it.
pub open spec fn synonym(f: Fact) -> Option<Seq<char>> {
    let t = f.title@;
    let swapped = match f.kind {
        Kind::Decision => if contains(t, " uses a "@) {
            Some(replace_first(t, " uses a "@, " keeps a "@))
        } else {
            None
        },
        Kind::Caution => if contains(t, " when "@) {
            Some(replace_first(t, " when "@, " whenever "@))
        } else {
            None
        },
        Kind::Principle => if contains(t, " must never "@) {
            Some(replace_first(t, " must never "@, " should never "@))
        } else {
            None
        },
        Kind::Problem => Some("Confirmed: "@ + t),
        Kind::Insight => if contains(t, " because "@) {
            Some(replace_first(t, " because "@, " since "@))
        } else {
            None
        },
    };
    match swapped {
        Some(sw) => if sw != t {
            Some(sw)
        } else {
            None
        },
        None => None,
    }
}

/// The fact restated in agreeing words.
pub open spec fn agree(f: Fact) -> Seq<char> {
    let s = f.subject@;
    match f.kind {
        Kind::Decision => "The agreed setting for the "@ + s + " is "@ + f.answer@ + "."@,
        Kind::Caution => "In production, "@ + s + " "@ + f.predicate@ + " without warning."@,
        Kind::Principle => "It is forbidden for the "@ + s + " to "@ + f.answer@ + "."@,
        Kind::Problem => "There is an open issue where the "@ + s + " "@ + f.predicate@ + "."@,
        Kind::Insight => "The reason the "@ + s + " "@ + f.predicate@ + " is that "@ + f.answer@ + "."@,
    }
}

/// An edge verb read from its source.
pub open spec fn verb_out(verb: Seq<char>) -> Seq<char> {
    if verb == "about"@ {
        "is about"@
    } else if verb == "because"@ {
        "holds because"@
    } else if verb == "answers"@ {
        "answers"@
    } else if verb == "builds-on"@ {
        "builds on"@
    } else if verb == "replaces"@ {
        "replaces"@
    } else if verb == "conflicts-with"@ {
        "conflicts with"@
    } else if verb == "needs"@ {
        "needs"@
    } else {
        "relates to"@
    }
}

/// An edge verb read from its target.
pub open spec fn verb_in(verb: Seq<char>) -> Seq<char> {
    if verb == "about"@ {
        "is the topic of"@
    } else if verb == "because"@ {
        "is the reason for"@
    } else if verb == "answers"@ {
        "is answered by"@
    } else if verb == "builds-on"@ {
        "is built on by"@
    } else if verb == "replaces"@ {
        "is replaced by"@
    } else if verb == "conflicts-with"@ {
        "conflicts with"@
    } else if verb == "needs"@ {
        "is needed by"@
    } else {
        "relates to"@
    }
}

/// A title as context: trimmed, at most 12 words (the first 12 joined by
/// single spaces and marked with `…`), otherwise without trailing dots.
/// The whole title is cut: it is not first cut to its first clause, as no
/// clause splitter is part of this library.
pub open spec fn spec_cut_title(t: Seq<char>) -> Seq<char> {
    let c = trim(t);
    let ws = words(c);
    if ws.len() <= 12 {
        trim_end_char(c, '.')
    } else {
        join(ws.take(12), " "@) + "…"@
    }
}

/// The text of a body before its first `". "`, newlines read as spaces.
pub open spec fn first_sentence(b: Seq<char>) -> Seq<char> {
    let first = replace_all(trim(b), "\n"@, " "@);
    trim(
        match split_once(first, ". "@) {
            Some((head, _tail)) => head,
            None => first,
        },
    )
}

/// The first sentence of a body, at most 160 chars: a longer one keeps its
/// first 159 chars and is marked with `…`.
pub open spec fn spec_body_cut(b: Seq<char>) -> Seq<char> {
    let first = first_sentence(b);
    if first.len() <= 160 {
        first
    } else {
        first.take(159) + "…"@
    }
}


/// A flipped claim contradicts the fact: said of `subject`, a caution
/// says it never happens, a problem that it no longer happens, a principle
/// that it may freely be broken, an insight that its reason is false, and a
/// decision states a value other than the decided one.
pub proof fn law_flip_b_contradicts(subject: Seq<char>, f: Fact, salt: int)
    ensures
        ({
            let t = flip_b(subject, f, salt);
            let n = subject.len() as int;
            &&& f.kind == Kind::Caution ==> t.take(n) == subject && matches_at(t, " never "@ + f.predicate@, n)
            &&& f.kind == Kind::Problem ==> t.take(n) == subject && matches_at(t, " no longer "@ + f.predicate@, n)
            &&& f.kind == Kind::Principle ==> t.take(n) == subject && matches_at(t, " may freely "@ + f.answer@, n)
            &&& f.kind == Kind::Insight ==> t.take(20) == "It is not true that "@ && matches_at(t, subject, 20)
            &&& f.kind == Kind::Decision ==> (decision_parts(f) matches Some((_p, v, unit)) ==> exists|w: nat|
                w != v && t == subject + " is configured with "@ + #[trigger] decimal(w) + " "@ + unit)
            &&& f.kind == Kind::Decision && decision_parts(f) is None ==> t.take(n) == subject && matches_at(
                t,
                " is configured with something other than "@ + f.answer@,
                n,
            )
        }),
{
    let t = flip_b(subject, f, salt);
    let n = subject.len() as int;
    reveal_strlit("It is not true that ");
    match f.kind {
        Kind::Caution => {
            let p = " never "@ + f.predicate@;
            assert(t =~= subject + p + ", whatever happens"@);
            assert(t.take(n) =~= subject);
            assert(t.subrange(n, n + p.len()) =~= p);
        },
        Kind::Problem => {
            let p = " no longer "@ + f.predicate@;
            assert(t =~= subject + p);
            assert(t.take(n) =~= subject);
            assert(t.subrange(n, n + p.len()) =~= p);
        },
        Kind::Principle => {
            let p = " may freely "@ + f.answer@;
            assert(t =~= subject + p);
            assert(t.take(n) =~= subject);
            assert(t.subrange(n, n + p.len()) =~= p);
        },
        Kind::Insight => {
            let h = "It is not true that "@;
            assert(h.len() == 20);
            assert(t =~= h + subject + (" "@ + f.predicate@ + " because "@ + f.answer@));
            assert(t.take(20) =~= h);
            assert(t.subrange(20, 20 + n) =~= subject);
        },
        Kind::Decision => {
            match decision_parts(f) {
                Some((_p, v, unit)) => {
                    let w = altered(v as int, salt) as nat;
                    assert(w != v);
                    assert(t == subject + " is configured with "@ + decimal(w) + " "@ + unit);
                },
                None => {
                    let p = " is configured with something other than "@ + f.answer@;
                    assert(t =~= subject + p);
                    assert(t.take(n) =~= subject);
                    assert(t.subrange(n, n + p.len()) =~= p);
                },
            }
        },
    }
}

/// A flipped clause about "it" contradicts the fact: a caution never
/// happens, a problem no longer happens, a principle may freely be broken,
/// an insight's reason is another one, and a decision has another value.
pub proof fn law_flip_clause_contradicts(f: Fact, salt: int)
    ensures
        ({
            let t = flip_clause(f, salt);
            &&& f.kind == Kind::Caution ==> t.take(9 + f.predicate@.len() as int) == "it never "@ + f.predicate@
            &&& f.kind == Kind::Problem ==> t.take(13 + f.predicate@.len() as int) == "it no longer "@ + f.predicate@
            &&& f.kind == Kind::Principle ==> t == "it may freely "@ + f.answer@
            &&& f.kind == Kind::Insight ==> matches_at(t, " for a reason other than "@ + f.answer@, 3 + f.predicate@.len() as int)
            &&& f.kind == Kind::Decision ==> (decision_parts(f) matches Some((_p, v, unit)) ==> exists|w: nat|
                w != v && t == "it is configured with "@ + #[trigger] decimal(w) + " "@ + unit)
        }),
{
    let t = flip_clause(f, salt);
    reveal_strlit("it never ");
    reveal_strlit("it no longer ");
    reveal_strlit("it ");
    match f.kind {
        Kind::Caution => {
            assert(t.take(9 + f.predicate@.len() as int) =~= "it never "@ + f.predicate@);
        },
        Kind::Problem => {
            assert(t.take(13 + f.predicate@.len() as int) =~= "it no longer "@ + f.predicate@);
        },
        Kind::Insight => {
            let q = " for a reason other than "@ + f.answer@;
            let n = 3 + f.predicate@.len() as int;
            assert(t =~= ("it "@ + f.predicate@) + q);
            assert(t.subrange(n, n + q.len()) =~= q);
        },
        Kind::Decision => {
            match decision_parts(f) {
                Some((_p, v, unit)) => {
                    let w = altered(v as int, salt) as nat;
                    assert(t == "it is configured with "@ + decimal(w) + " "@ + unit);
                },
                None => {},
            }
        },
        _ => {},
    }
}

/// A decision reworded by operators states another value than the decided one.
pub proof fn law_flip_c_moves_the_value(f: Fact, salt: int)
    ensures
        f.kind == Kind::Decision ==> (decision_parts(f) matches Some((param, v, unit)) ==> exists|w: nat|
            w != v && flip_c(f, salt) == "Operators pinned the "@ + f.subject@ + " to "@ + #[trigger] decimal(w) + " "@
                + unit + " for its "@ + param + ", and the dashboard agrees"@),
{
    if f.kind == Kind::Decision {
        match decision_parts(f) {
            Some((param, v, unit)) => {
                let w = altered(v as int, salt) as nat;
                assert(flip_c(f, salt) == "Operators pinned the "@ + f.subject@ + " to "@ + decimal(w) + " "@ + unit
                    + " for its "@ + param + ", and the dashboard agrees"@);
            },
            None => {},
        }
    }
}

/// A cut title runs to at most twelve words.
pub proof fn law_cut_title_at_most_twelve_words(t: Seq<char>)
    ensures
        words(spec_cut_title(t)).len() <= 12,
{
    let c = trim(t);
    let ws = words(c);
    if ws.len() <= 12 {
        lemma_words_trim_end_char(c, '.');
    } else {
        lemma_words_solid(c);
        let w12 = ws.take(12);
        assert forall|i: int| 0 <= i < w12.len() implies #[trigger] w12[i].len() > 0 && no_ws(w12[i]) by {
            assert(w12[i] == ws[i]);
        }
        lemma_words_join(w12);
        let x = join(w12, " "@);
        reveal_strlit("…");
        assert(x + "…"@ =~= x.push('…'));
        lemma_words_extend(x, '…');
    }
}

/// A cut body is at most 160 chars: its first sentence whole when that
/// fits, else the sentence's first 159 chars and the `…` that marks the cut.
pub proof fn law_body_cut_bounded(b: Seq<char>)
    ensures
        spec_body_cut(b).len() <= 160,
        first_sentence(b).len() <= 160 ==> spec_body_cut(b) == first_sentence(b),
        first_sentence(b).len() > 160 ==> spec_body_cut(b) == first_sentence(b).take(159) + "…"@
            && spec_body_cut(b).last() == '…',
{
    reveal_strlit("…");
}


// ------------------------------------------------------------ execution

/// The chars of an optional char vector.
pub open spec fn opt_chars(o: Option<Vec<char>>) -> Option<Seq<char>> {
    match o {
        Some(v) => Some(v@),
        None => None,
    }
}

pub open spec fn parts_view(o: Option<(Vec<char>, u64, Vec<char>)>) -> Option<(Seq<char>, u64, Seq<char>)> {
    match o {
        Some((p, v, u)) => Some((p@, v, u@)),
        None => None,
    }
}

/// A decision's `(parameter, value, unit)`.
pub fn decision_parts_exec(f: &Fact) -> (r: Option<(Vec<char>, u64, Vec<char>)>)
    ensures
        parts_view(r) == decision_parts(*f),
{
    let pred = chars_of(f.predicate.as_str());
    let prefix = chars_of("uses a ");
    let rest = match strip_prefix_exec(pred.as_slice(), prefix.as_slice()) {
        Some(rest) => rest,
        None => return None,
    };
    let of = chars_of(" of ");
    let (param, value_unit) = match split_once_exec(rest.as_slice(), of.as_slice()) {
        Some(parts) => parts,
        None => return None,
    };
    let space = chars_of(" ");
    let (value, unit) = match split_once_exec(value_unit.as_slice(), space.as_slice()) {
        Some(parts) => parts,
        None => return None,
    };
    match parse_u64_exec(value.as_slice()) {
        Some(v) => Some((param, v, unit)),
        None => None,
    }
}

/// `value + 1 + salt % 40`.
pub fn altered_exec(value: u64, salt: usize) -> (r: u64)
    requires
        altered(value as int, salt as int) <= u64::MAX,
    ensures
        r == altered(value as int, salt as int),
{
    value + 1 + (salt % 40) as u64
}

pub open spec fn convert_view(o: Option<(Vec<char>, u64)>) -> Option<(Seq<char>, int)> {
    match o {
        Some((u, k)) => Some((u@, k as int)),
        None => None,
    }
}

/// The smaller unit a value can be restated in, and the factor to it.
pub fn convert_exec(unit: &[char]) -> (r: Option<(Vec<char>, u64)>)
    ensures
        convert_view(r) == convert(unit@),
{
    if eq_str(unit, "seconds") {
        Some((chars_of("milliseconds"), 1000))
    } else if eq_str(unit, "minutes") {
        Some((chars_of("seconds"), 60))
    } else if eq_str(unit, "hours") {
        Some((chars_of("minutes"), 60))
    } else if eq_str(unit, "days") {
        Some((chars_of("hours"), 24))
    } else if eq_str(unit, "megabytes") {
        Some((chars_of("kilobytes"), 1024))
    } else {
        None
    }
}

/// Whether the moved value a flipped decision states fits in a `u64`.
pub fn flip_fits_exec(f: &Fact, salt: usize) -> (r: bool)
    ensures
        r == flip_fits(*f, salt as int),
{
    if f.kind != Kind::Decision {
        return true;
    }
    match decision_parts_exec(f) {
        Some((_p, v, _u)) => v <= u64::MAX - 1 - (salt % 40) as u64,
        None => true,
    }
}

/// Whether the value a unit restatement states fits in a `u64`.
pub fn unit_fits_exec(f: &Fact, salt: usize, moved: bool) -> (r: bool)
    ensures
        r == unit_fits(*f, salt as int, moved),
{
    match decision_parts_exec(f) {
        Some((_p, v, unit)) => match convert_exec(unit.as_slice()) {
            Some((_u, k)) => {
                if moved {
                    if v > u64::MAX - 1 - (salt % 40) as u64 {
                        proof {
                            let al = altered(v as int, salt as int);
                            assert(al * k >= al) by (nonlinear_arith)
                                requires
                                    al >= 0,
                                    k >= 1,
                            ;
                        }
                        false
                    } else {
                        (v + 1 + (salt % 40) as u64).checked_mul(k).is_some()
                    }
                } else {
                    v.checked_mul(k).is_some()
                }
            },
            None => true,
        },
        None => true,
    }
}

/// The fact's claim flipped and said of `subject`.
pub fn flip_b_exec(subject: &[char], f: &Fact, salt: usize) -> (r: Vec<char>)
    requires
        flip_fits(*f, salt as int),
    ensures
        r@ == flip_b(subject@, *f, salt as int),
{
    let mut r: Vec<char> = Vec::new();
    match f.kind {
        Kind::Decision => match decision_parts_exec(f) {
            Some((_p, v, unit)) => {
                push_all(&mut r, subject);
                push_str(&mut r, " is configured with ");
                let d = decimal_exec(altered_exec(v, salt));
                push_all(&mut r, d.as_slice());
                push_str(&mut r, " ");
                push_all(&mut r, unit.as_slice());
            },
            None => {
                push_all(&mut r, subject);
                push_str(&mut r, " is configured with something other than ");
                push_str(&mut r, f.answer.as_str());
            },
        },
        Kind::Caution => {
            push_all(&mut r, subject);
            push_str(&mut r, " never ");
            push_str(&mut r, f.predicate.as_str());
            push_str(&mut r, ", whatever happens");
        },
        Kind::Principle => {
            push_all(&mut r, subject);
            push_str(&mut r, " may freely ");
            push_str(&mut r, f.answer.as_str());
        },
        Kind::Problem => {
            push_all(&mut r, subject);
            push_str(&mut r, " no longer ");
            push_str(&mut r, f.predicate.as_str());
        },
        Kind::Insight => {
            push_str(&mut r, "It is not true that ");
            push_all(&mut r, subject);
            push_str(&mut r, " ");
            push_str(&mut r, f.predicate.as_str());
            push_str(&mut r, " because ");
            push_str(&mut r, f.answer.as_str());
        },
    }
    r
}

/// The fact's claim flipped as a clause about "it".
pub fn flip_clause_exec(f: &Fact, salt: usize) -> (r: Vec<char>)
    requires
        flip_fits(*f, salt as int),
    ensures
        r@ == flip_clause(*f, salt as int),
{
    let mut r: Vec<char> = Vec::new();
    match f.kind {
        Kind::Decision => match decision_parts_exec(f) {
            Some((_p, v, unit)) => {
                push_str(&mut r, "it is configured with ");
                let d = decimal_exec(altered_exec(v, salt));
                push_all(&mut r, d.as_slice());
                push_str(&mut r, " ");
                push_all(&mut r, unit.as_slice());
            },
            None => {
                push_str(&mut r, "it is configured with something other than ");
                push_str(&mut r, f.answer.as_str());
            },
        },
        Kind::Caution => {
            push_str(&mut r, "it never ");
            push_str(&mut r, f.predicate.as_str());
            push_str(&mut r, ", whatever happens");
        },
        Kind::Principle => {
            push_str(&mut r, "it may freely ");
            push_str(&mut r, f.answer.as_str());
        },
        Kind::Problem => {
            push_str(&mut r, "it no longer ");
            push_str(&mut r, f.predicate.as_str());
        },
        Kind::Insight => {
            push_str(&mut r, "it ");
            push_str(&mut r, f.predicate.as_str());
            push_str(&mut r, " for a reason other than ");
            push_str(&mut r, f.answer.as_str());
        },
    }
    r
}

/// The fact's claim flipped in fresh words.
pub fn flip_c_exec(f: &Fact, salt: usize) -> (r: Vec<char>)
    requires
        flip_fits(*f, salt as int),
    ensures
        r@ == flip_c(*f, salt as int),
{
    let mut r: Vec<char> = Vec::new();
    let s = f.subject.as_str();
    match f.kind {
        Kind::Decision => match decision_parts_exec(f) {
            Some((param, v, unit)) => {
                push_str(&mut r, "Operators pinned the ");
                push_str(&mut r, s);
                push_str(&mut r, " to ");
                let d = decimal_exec(altered_exec(v, salt));
                push_all(&mut r, d.as_slice());
                push_str(&mut r, " ");
                push_all(&mut r, unit.as_slice());
                push_str(&mut r, " for its ");
                push_all(&mut r, param.as_slice());
                push_str(&mut r, ", and the dashboard agrees");
            },
            None => {
                push_str(&mut r, "Operators moved the ");
                push_str(&mut r, s);
                push_str(&mut r, " off ");
                push_str(&mut r, f.answer.as_str());
                push_str(&mut r, " some time ago");
            },
        },
        Kind::Caution => {
            push_str(&mut r, "Nobody has ever seen the ");
            push_str(&mut r, s);
            push_str(&mut r, " ");
            push_str(&mut r, f.predicate.as_str());
            push_str(&mut r, "; it has been stable in every environment");
        },
        Kind::Principle => {
            push_str(&mut r, "Doing ");
            push_str(&mut r, f.answer.as_str());
            push_str(&mut r, " inside the ");
            push_str(&mut r, s);
            push_str(&mut r, " is fine and routinely done");
        },
        Kind::Problem => {
            push_str(&mut r, "The ");
            push_str(&mut r, s);
            push_str(&mut r, " has stopped showing that it ");
            push_str(&mut r, f.predicate.as_str());
            push_str(&mut r, "; the issue is resolved");
        },
        Kind::Insight => {
            push_str(&mut r, "The explanation for the ");
            push_str(&mut r, s);
            push_str(&mut r, " ");
            push_str(&mut r, f.predicate.as_str());
            push_str(&mut r, " was traced elsewhere; ");
            push_str(&mut r, f.answer.as_str());
            push_str(&mut r, " plays no part");
        },
    }
    r
}

/// `t` with its first `from` replaced by `to`, when `t` holds a `from`.
fn swap_word(t: &[char], from: &str, to: &str) -> (r: Option<Vec<char>>)
    ensures
        opt_chars(r) == (if contains(t@, from@) {
            Some(replace_first(t@, from@, to@))
        } else {
            None
        }),
{
    let fc = chars_of(from);
    if contains_exec(t, fc.as_slice()) {
        let tc = chars_of(to);
        Some(replace_first_exec(t, fc.as_slice(), tc.as_slice()))
    } else {
        None
    }
}

/// The title with one word swapped for a synonym, when that changes it.
pub fn synonym_exec(f: &Fact) -> (r: Option<Vec<char>>)
    ensures
        opt_chars(r) == synonym(*f),
{
    let t = chars_of(f.title.as_str());
    let swapped = match f.kind {
        Kind::Decision => swap_word(t.as_slice(), " uses a ", " keeps a "),
        Kind::Caution => swap_word(t.as_slice(), " when ", " whenever "),
        Kind::Principle => swap_word(t.as_slice(), " must never ", " should never "),
        Kind::Problem => {
            let mut c = chars_of("Confirmed: ");
            push_all(&mut c, t.as_slice());
            Some(c)
        },
        Kind::Insight => swap_word(t.as_slice(), " because ", " since "),
    };
    match swapped {
        Some(sw) => if eq_chars_vec(&sw, &t) {
            None
        } else {
            Some(sw)
        },
        None => None,
    }
}

fn eq_chars_vec(a: &Vec<char>, b: &Vec<char>) -> (r: bool)
    ensures
        r == (a@ == b@),
{
    crate::text::eq_chars(a.as_slice(), b.as_slice())
}

/// The fact restated in agreeing words.
pub fn agree_exec(f: &Fact) -> (r: Vec<char>)
    ensures
        r@ == agree(*f),
{
    let mut r: Vec<char> = Vec::new();
    let s = f.subject.as_str();
    match f.kind {
        Kind::Decision => {
            push_str(&mut r, "The agreed setting for the ");
            push_str(&mut r, s);
            push_str(&mut r, " is ");
            push_str(&mut r, f.answer.as_str());
            push_str(&mut r, ".");
        },
        Kind::Caution => {
            push_str(&mut r, "In production, ");
            push_str(&mut r, s);
            push_str(&mut r, " ");
            push_str(&mut r, f.predicate.as_str());
            push_str(&mut r, " without warning.");
        },
        Kind::Principle => {
            push_str(&mut r, "It is forbidden for the ");
            push_str(&mut r, s);
            push_str(&mut r, " to ");
            push_str(&mut r, f.answer.as_str());
            push_str(&mut r, ".");
        },
        Kind::Problem => {
            push_str(&mut r, "There is an open issue where the ");
            push_str(&mut r, s);
            push_str(&mut r, " ");
            push_str(&mut r, f.predicate.as_str());
            push_str(&mut r, ".");
        },
        Kind::Insight => {
            push_str(&mut r, "The reason the ");
            push_str(&mut r, s);
            push_str(&mut r, " ");
            push_str(&mut r, f.predicate.as_str());
            push_str(&mut r, " is that ");
            push_str(&mut r, f.answer.as_str());
            push_str(&mut r, ".");
        },
    }
    r
}

/// An edge verb read from its source.
pub fn verb_out_exec(verb: &[char]) -> (r: Vec<char>)
    ensures
        r@ == verb_out(verb@),
{
    if eq_str(verb, "about") {
        chars_of("is about")
    } else if eq_str(verb, "because") {
        chars_of("holds because")
    } else if eq_str(verb, "answers") {
        chars_of("answers")
    } else if eq_str(verb, "builds-on") {
        chars_of("builds on")
    } else if eq_str(verb, "replaces") {
        chars_of("replaces")
    } else if eq_str(verb, "conflicts-with") {
        chars_of("conflicts with")
    } else if eq_str(verb, "needs") {
        chars_of("needs")
    } else {
        chars_of("relates to")
    }
}

/// An edge verb read from its target.
pub fn verb_in_exec(verb: &[char]) -> (r: Vec<char>)
    ensures
        r@ == verb_in(verb@),
{
    if eq_str(verb, "about") {
        chars_of("is the topic of")
    } else if eq_str(verb, "because") {
        chars_of("is the reason for")
    } else if eq_str(verb, "answers") {
        chars_of("is answered by")
    } else if eq_str(verb, "builds-on") {
        chars_of("is built on by")
    } else if eq_str(verb, "replaces") {
        chars_of("is replaced by")
    } else if eq_str(verb, "conflicts-with") {
        chars_of("conflicts with")
    } else if eq_str(verb, "needs") {
        chars_of("is needed by")
    } else {
        chars_of("relates to")
    }
}

/// A title as context: at most 12 words.
pub fn cut_title_chars(t: &[char]) -> (r: Vec<char>)
    ensures
        r@ == spec_cut_title(t@),
{
    let c = trim_exec(t);
    let ws = words_exec(c.as_slice());
    if ws.len() <= 12 {
        trim_end_char_exec(c.as_slice(), '.')
    } else {
        let mut first: Vec<Vec<char>> = Vec::new();
        let mut i: usize = 0;
        while i < 12
            invariant
                i <= 12 < ws@.len(),
                vvc(first@) == vvc(ws@).take(i as int),
            decreases 12 - i,
        {
            let wi = &ws[i];
            let ghost f0 = first@;
            let copy = crate::text::slice_copy(wi.as_slice(), 0, wi.len());
            proof {
                assert(wi@.subrange(0, wi@.len() as int) =~= wi@);
                assert(copy@ == vvc(ws@)[i as int]);
            }
            first.push(copy);
            i = i + 1;
            proof {
                assert(vvc(first@) =~= vvc(f0).push(copy@));
                assert(vvc(ws@).take(i as int) =~= vvc(ws@).take(i - 1).push(vvc(ws@)[i - 1]));
            }
        }
        let space = chars_of(" ");
        let mut r = join_exec(&first, space.as_slice());
        push_str(&mut r, "…");
        r
    }
}

/// A related note's title as context: the trimmed title, at most 12 words.
/// The whole title is cut, not only its first clause: no clause splitter is
/// part of this library.
pub fn cut_title(t: &str) -> (r: String)
    ensures
        r@ == spec_cut_title(t@),
{
    let tc = chars_of(t);
    let c = cut_title_chars(tc.as_slice());
    crate::text::string_of(c.as_slice())
}

/// The first sentence of a body, at most 160 chars.
pub fn body_cut_chars(b: &[char]) -> (r: Vec<char>)
    ensures
        r@ == spec_body_cut(b@),
{
    let t = trim_exec(b);
    let nl = chars_of("\n");
    proof {
        reveal_strlit("\n");
    }
    let sp = chars_of(" ");
    let first = replace_all_exec(t.as_slice(), nl.as_slice(), sp.as_slice());
    let stop = chars_of(". ");
    let head = match split_once_exec(first.as_slice(), stop.as_slice()) {
        Some((h, _tail)) => h,
        None => first,
    };
    let first = trim_exec(head.as_slice());
    if first.len() <= 160 {
        first
    } else {
        let mut r = crate::text::slice_copy(first.as_slice(), 0, 159);
        push_str(&mut r, "…");
        r
    }
}

} // verus!
