//! Laya's prompt layout: the sequence the encoder reads is
//! `[CLS] head [SEP] [MASK] opt0 [MASK] opt1 ... [SEP] state [SEP]`,
//! one logit is read at each `[MASK]` marker.

use vstd::prelude::*;

use crate::text::{chars_of, join, join_exec, push_all, push_str, string_of, vvc};

verus! {

/// The three question types; `index` is the model's `qtype` input.
#[derive(Debug, Clone, Copy, PartialEq, Eq, Structural)]
pub enum QType {
    Choice,
    Score,
    Noul,
}

pub open spec fn qtype_name(q: QType) -> Seq<char> {
    match q {
        QType::Choice => "choice"@,
        QType::Score => "score"@,
        QType::Noul => "noul"@,
    }
}

pub open spec fn qtype_index(q: QType) -> int {
    match q {
        QType::Choice => 0,
        QType::Score => 1,
        QType::Noul => 2,
    }
}

impl QType {
    /// The type's name as the prompt spells it.
    pub fn name(self) -> (r: &'static str)
        ensures
            r@ == qtype_name(self),
    {
        match self {
            QType::Choice => "choice",
            QType::Score => "score",
            QType::Noul => "noul",
        }
    }

    /// The model's `qtype` input for this type.
    pub fn index(self) -> (r: usize)
        ensures
            r == qtype_index(self),
    {
        match self {
            QType::Choice => 0,
            QType::Score => 1,
            QType::Noul => 2,
        }
    }
}

/// One typed question with its options already rendered as the model reads
/// them (`"contradiction: the premise implies ..."` for a described choice,
/// `"level 0: ..."` for a score level, `"false: ..."`/`"true: ..."` for noul).
#[derive(Debug, Clone)]
pub struct Question {
    pub qtype: QType,
    pub instructions: String,
    pub options: Vec<String>,
}

/// A `(key, description)` option rendered `key: description`, or `key`
/// alone when there is no description.
pub open spec fn rendered_option(key: Seq<char>, description: Seq<char>) -> Seq<char> {
    if description.len() == 0 {
        key
    } else {
        key + ": "@ + description
    }
}

pub open spec fn rendered_options(options: Seq<(&str, &str)>) -> Seq<Seq<char>> {
    options.map_values(|o: (&str, &str)| rendered_option(o.0@, o.1@))
}

impl Question {
    /// A `choice` over `(key, description)` pairs, rendered `key: description`.
    pub fn choice(instructions: &str, options: &[(&str, &str)]) -> (q: Question)
        ensures
            q.qtype == QType::Choice,
            q.instructions@ == instructions@,
            q.options.deep_view() == rendered_options(options@),
    {
        let mut rendered: Vec<String> = Vec::new();
        let mut i: usize = 0;
        while i < options.len()
            invariant
                i <= options@.len(),
                rendered.deep_view() == rendered_options(options@).take(i as int),
            decreases options@.len() - i,
        {
            let (k, v) = options[i];
            let vc = chars_of(v);
            let mut r = chars_of(k);
            if vc.len() > 0 {
                push_str(&mut r, ": ");
                push_all(&mut r, vc.as_slice());
            }
            let ghost r0 = rendered.deep_view();
            rendered.push(string_of(r.as_slice()));
            i = i + 1;
            proof {
                assert(rendered.deep_view() =~= r0.push(rendered_option(k@, v@)));
                assert(rendered_options(options@).take(i as int) =~= rendered_options(options@).take(i - 1).push(
                    rendered_option(k@, v@),
                ));
            }
        }
        proof {
            assert(rendered_options(options@).take(options@.len() as int) =~= rendered_options(options@));
        }
        Question { qtype: QType::Choice, instructions: string_of(chars_of(instructions).as_slice()), options: rendered }
    }
}

/// The NLI question Laya's own XNLI benchmark asks; option order is the
/// label order: entailment, neutral, contradiction.
pub fn nli_question() -> (q: Question)
    ensures
        q.qtype == QType::Choice,
        q.instructions@ == "What is the relationship between `premise` and `hypothesis`?"@,
        q.options.deep_view() == seq![
            "entailment: the premise implies the hypothesis is true"@,
            "neutral: the premise neither implies nor contradicts the hypothesis"@,
            "contradiction: the premise implies the hypothesis is false"@,
        ],
{
    let options = [
        ("entailment", "the premise implies the hypothesis is true"),
        ("neutral", "the premise neither implies nor contradicts the hypothesis"),
        ("contradiction", "the premise implies the hypothesis is false"),
    ];
    let opts = options.as_slice();
    let q = Question::choice("What is the relationship between `premise` and `hypothesis`?", opts);
    proof {
        reveal_strlit("entailment");
        reveal_strlit("the premise implies the hypothesis is true");
        reveal_strlit("entailment: the premise implies the hypothesis is true");
        reveal_strlit("neutral");
        reveal_strlit("the premise neither implies nor contradicts the hypothesis");
        reveal_strlit("neutral: the premise neither implies nor contradicts the hypothesis");
        reveal_strlit("contradiction");
        reveal_strlit("the premise implies the hypothesis is false");
        reveal_strlit("contradiction: the premise implies the hypothesis is false");
        reveal_strlit(": ");
        let ro = rendered_options(opts@);
        assert(opts@ == options@);
        assert(ro.len() == 3);
        assert(ro[0] =~= "entailment: the premise implies the hypothesis is true"@);
        assert(ro[1] =~= "neutral: the premise neither implies nor contradicts the hypothesis"@);
        assert(ro[2] =~= "contradiction: the premise implies the hypothesis is false"@);
        assert(q.options.deep_view() =~= seq![
            "entailment: the premise implies the hypothesis is true"@,
            "neutral: the premise neither implies nor contradicts the hypothesis"@,
            "contradiction: the premise implies the hypothesis is false"@,
        ]);
    }
    q
}


/// The token ids `build_sequence` needs from the tokenizer.
#[derive(Debug, Clone, Copy)]
pub struct SpecialIds {
    pub cls: u32,
    pub sep: u32,
    pub mask: u32,
    pub pad: u32,
}

pub open spec fn imax(a: int, b: int) -> int {
    if a < b { b } else { a }
}

pub open spec fn imin(a: int, b: int) -> int {
    if a < b { a } else { b }
}

/// `a.saturating_sub(b)` on naturals.
pub open spec fn sat_sub(a: int, b: int) -> int {
    if a < b { 0 } else { a - b }
}

/// `Vec::truncate(n)`: keeps the first `n` items when there are more.
pub open spec fn trunc<T>(s: Seq<T>, n: int) -> Seq<T> {
    if n < s.len() { s.take(n) } else { s }
}

/// Each option behind its `[MASK]` marker token.
pub open spec fn marked_options(opts: Seq<Seq<u32>>, mask: u32) -> Seq<Seq<u32>> {
    opts.map_values(|o: Seq<u32>| seq![mask] + o)
}

/// The number of tokens in a list of token lists.
pub open spec fn total_len(os: Seq<Seq<u32>>) -> int {
    os.flatten().len() as int
}

/// The cap each option gets when the options overrun the head budget.
pub open spec fn per_option_cap(head_max_len: int, n: int) -> int {
    imax(4, sat_sub(head_max_len, 16) / imax(n, 1))
}

/// The marked options after the head budget is enforced: when fewer than 16
/// tokens of `head_max_len` would be left, every option is cut to the cap.
pub open spec fn fitted_options(opts: Seq<Seq<u32>>, mask: u32, head_max_len: int) -> Seq<Seq<u32>> {
    let m = marked_options(opts, mask);
    if head_max_len - total_len(m) < 16 {
        let per = per_option_cap(head_max_len, opts.len() as int);
        m.map_values(|o: Seq<u32>| trunc(o, per))
    } else {
        m
    }
}

/// The head after it is cut to what the options leave of `head_max_len`
/// (never below 8 tokens).
pub open spec fn fitted_head(head: Seq<u32>, opts: Seq<Seq<u32>>, mask: u32, head_max_len: int) -> Seq<u32> {
    trunc(head, imax(head_max_len - total_len(fitted_options(opts, mask, head_max_len)), 8))
}

/// `[CLS] head [SEP] options [SEP]`.
pub open spec fn prompt_prefix(ids: SpecialIds, head: Seq<u32>, opts: Seq<Seq<u32>>, head_max_len: int) -> Seq<u32> {
    seq![ids.cls] + fitted_head(head, opts, ids.mask, head_max_len) + seq![ids.sep]
        + fitted_options(opts, ids.mask, head_max_len).flatten() + seq![ids.sep]
}

/// Where the `[MASK]` of option `i` stands before the final cut.
pub open spec fn marker_pos(ids: SpecialIds, head: Seq<u32>, opts: Seq<Seq<u32>>, head_max_len: int, i: int) -> int {
    2int + fitted_head(head, opts, ids.mask, head_max_len).len()
        + fitted_options(opts, ids.mask, head_max_len).take(i).flatten().len()
}

/// The full sequence: the prompt, as much of the state as leaves room for the
/// closing `[SEP]` within `max_len`, the closing `[SEP]`, all cut to `max_len`.
pub open spec fn spec_sequence(
    ids: SpecialIds,
    head: Seq<u32>,
    opts: Seq<Seq<u32>>,
    state: Seq<u32>,
    max_len: int,
    head_max_len: int,
) -> Seq<u32> {
    let p = prompt_prefix(ids, head, opts, head_max_len);
    let room = sat_sub(max_len, p.len() + 1int);
    trunc(p + trunc(state, room) + seq![ids.sep], max_len)
}

/// The marker positions that survive the cut to `max_len`, in option order.
pub open spec fn spec_markers(
    ids: SpecialIds,
    head: Seq<u32>,
    opts: Seq<Seq<u32>>,
    max_len: int,
    head_max_len: int,
) -> Seq<usize> {
    Seq::new(opts.len(), |i: int| marker_pos(ids, head, opts, head_max_len, i) as usize).filter(
        |m: usize| m < max_len,
    )
}


/// The token lists of a list of vectors.
pub open spec fn vv(opts: Seq<Vec<u32>>) -> Seq<Seq<u32>> {
    opts.map_values(|v: Vec<u32>| v@)
}

/// Flattening a prefix that grows by one element appends that element.
pub proof fn lemma_flatten_take_succ<A>(s: Seq<Seq<A>>, i: int)
    requires
        0 <= i < s.len(),
    ensures
        s.take(i + 1).flatten() == s.take(i).flatten() + s[i],
{
    assert(s.take(i + 1) =~= s.take(i).push(s[i]));
    s.take(i).lemma_flatten_push(s[i]);
}

/// Tokens of the options once each is put behind its marker.
fn marked_total(opts: &Vec<Vec<u32>>, Ghost(mask): Ghost<u32>) -> (t: usize)
    requires
        total_len(marked_options(vv(opts@), mask)) <= isize::MAX,
    ensures
        t == total_len(marked_options(vv(opts@), mask)),
{
    let ghost marked = marked_options(vv(opts@), mask);
    let mut t: usize = 0;
    let mut i: usize = 0;
    while i < opts.len()
        invariant
            i <= opts.len(),
            marked == marked_options(vv(opts@), mask),
            total_len(marked) <= isize::MAX,
            t == total_len(marked.take(i as int)),
        decreases opts.len() - i,
    {
        proof {
            lemma_flatten_take_succ(marked, i as int);
            lemma_flatten_len_mono(marked, i as int + 1);
        }
        t = t + opts[i].len() + 1;
        i = i + 1;
    }
    proof {
        assert(marked.take(opts.len() as int) =~= marked);
    }
    t
}

/// `[mask] + o`, cut to `per` tokens when `cut` holds.
fn marked_option(o: &Vec<u32>, mask: u32, cut: bool, per: usize) -> (v: Vec<u32>)
    ensures
        v@ == (if cut { trunc(seq![mask] + o@, per as int) } else { seq![mask] + o@ }),
{
    let mut v: Vec<u32> = Vec::new();
    v.push(mask);
    let mut j: usize = 0;
    while j < o.len()
        invariant
            j <= o.len(),
            v@ == seq![mask] + o@.take(j as int),
        decreases o.len() - j,
    {
        v.push(o[j]);
        j = j + 1;
        proof {
            assert(o@.take(j as int) =~= o@.take(j - 1).push(o@[j - 1]));
        }
    }
    proof {
        assert(o@.take(o@.len() as int) =~= o@);
    }
    if cut {
        v.truncate(per);
    }
    v
}

/// The options behind their markers, cut to `per` tokens each when they
/// overrun the head budget, with the number of tokens they keep.
fn fit_options(opts: &Vec<Vec<u32>>, mask: u32, head_max_len: usize, total0: usize) -> (res: (Vec<Vec<u32>>, usize))
    requires
        total0 == total_len(marked_options(vv(opts@), mask)),
        total0 <= isize::MAX,
        head_max_len <= isize::MAX,
    ensures
        vv(res.0@) == fitted_options(vv(opts@), mask, head_max_len as int),
        res.1 == total_len(fitted_options(vv(opts@), mask, head_max_len as int)),
        res.1 <= total0,
{
    let ghost o = vv(opts@);
    let ghost marked = marked_options(o, mask);
    let ghost fitted = fitted_options(o, mask, head_max_len as int);
    let budget0: isize = head_max_len as isize - total0 as isize;
    let cut = budget0 < 16;
    let n: usize = if opts.len() > 1 { opts.len() } else { 1 };
    let sub16: usize = if head_max_len > 16 { head_max_len - 16 } else { 0 };
    let q: usize = sub16 / n;
    let per: usize = if q > 4 { q } else { 4 };
    let mut opt_ids: Vec<Vec<u32>> = Vec::new();
    let mut total1: usize = 0;
    let mut i: usize = 0;
    while i < opts.len()
        invariant
            i <= opts.len(),
            o == vv(opts@),
            marked == marked_options(o, mask),
            fitted == fitted_options(o, mask, head_max_len as int),
            total_len(marked) == total0,
            total0 <= isize::MAX,
            cut == (head_max_len - total0 < 16),
            per == per_option_cap(head_max_len as int, opts.len() as int),
            vv(opt_ids@) == fitted.take(i as int),
            total1 == total_len(fitted.take(i as int)),
            total1 <= total_len(marked.take(i as int)),
        decreases opts.len() - i,
    {
        let v = marked_option(&opts[i], mask, cut, per);
        proof {
            assert(marked[i as int] == seq![mask] + o[i as int]);
            assert(v@ == fitted[i as int]);
            lemma_flatten_take_succ(fitted, i as int);
            lemma_flatten_take_succ(marked, i as int);
            lemma_flatten_len_mono(marked, i as int + 1);
        }
        total1 = total1 + v.len();
        opt_ids.push(v);
        i = i + 1;
        proof {
            assert(vv(opt_ids@) =~= fitted.take(i as int));
        }
    }
    proof {
        assert(fitted.take(opts.len() as int) =~= fitted);
        assert(marked.take(opts.len() as int) =~= marked);
    }
    (opt_ids, total1)
}

/// Appends `src[..k]` to `dst`.
fn push_prefix(dst: &mut Vec<u32>, src: &[u32], k: usize)
    requires
        k <= src@.len(),
    ensures
        final(dst)@ == old(dst)@ + src@.take(k as int),
{
    let mut j: usize = 0;
    while j < k
        invariant
            j <= k <= src@.len(),
            dst@ == old(dst)@ + src@.take(j as int),
        decreases k - j,
    {
        dst.push(src[j]);
        j = j + 1;
        proof {
            assert(src@.take(j as int) =~= src@.take(j - 1).push(src@[j - 1]));
        }
    }
}

/// `[CLS] head [SEP]` followed by the options, with the position of each
/// option's first token.
fn lay_out(ids: SpecialIds, head: &Vec<u32>, hk: usize, opt_ids: &Vec<Vec<u32>>) -> (res: (Vec<u32>, Vec<usize>))
    requires
        hk <= head@.len(),
        hk + total_len(vv(opt_ids@)) <= isize::MAX + 8,
    ensures
        res.0@ == seq![ids.cls] + head@.take(hk as int) + seq![ids.sep] + vv(opt_ids@).flatten(),
        res.1@.len() == opt_ids@.len(),
        forall|k: int|
            0 <= k < opt_ids@.len() ==> res.1@[k] == 2 + hk + vv(opt_ids@).take(k).flatten().len(),
{
    let ghost f = vv(opt_ids@);
    let mut seq: Vec<u32> = Vec::new();
    seq.push(ids.cls);
    push_prefix(&mut seq, head.as_slice(), hk);
    seq.push(ids.sep);
    let ghost pre = seq@;
    let mut markers: Vec<usize> = Vec::new();
    let mut i: usize = 0;
    while i < opt_ids.len()
        invariant
            i <= opt_ids.len(),
            f == vv(opt_ids@),
            hk <= head@.len(),
            pre == seq![ids.cls] + head@.take(hk as int) + seq![ids.sep],
            hk + total_len(f) <= isize::MAX + 8,
            seq@ == pre + f.take(i as int).flatten(),
            markers@.len() == i,
            forall|k: int| 0 <= k < i ==> markers@[k] == 2 + hk + f.take(k).flatten().len(),
        decreases opt_ids.len() - i,
    {
        proof {
            lemma_flatten_take_succ(f, i as int);
            lemma_flatten_len_mono(f, i as int + 1);
        }
        let ghost old_markers = markers@;
        assert(seq@.len() == 2 + hk + f.take(i as int).flatten().len());
        markers.push(seq.len());
        assert(forall|k: int| 0 <= k < i ==> markers@[k] == old_markers[k]);
        let oi = &opt_ids[i];
        push_prefix(&mut seq, oi.as_slice(), oi.len());
        proof {
            assert(oi@.take(oi@.len() as int) =~= oi@);
        }
        i = i + 1;
    }
    proof {
        assert(f.take(opt_ids@.len() as int) =~= f);
    }
    (seq, markers)
}

/// The marker positions below `max_len`, in order.
fn markers_below(markers: &Vec<usize>, max_len: usize) -> (kept: Vec<usize>)
    ensures
        kept@ == markers@.filter(|m: usize| m < max_len),
{
    let mut kept: Vec<usize> = Vec::new();
    let mut i: usize = 0;
    while i < markers.len()
        invariant
            i <= markers.len(),
            kept@ == markers@.take(i as int).filter(|m: usize| m < max_len),
        decreases markers.len() - i,
    {
        proof {
            reveal_with_fuel(Seq::<_>::filter, 1);
            assert(markers@.take(i + 1).drop_last() =~= markers@.take(i as int));
        }
        if markers[i] < max_len {
            kept.push(markers[i]);
        }
        i = i + 1;
    }
    proof {
        assert(markers@.take(markers@.len() as int) =~= markers@);
    }
    kept
}

/// The model's input layout over pre-tokenized pieces: `head` = tokens of
/// `"<type> question: <instructions>"`, `opts` = tokens of `" " + option`,
/// `state` = the state's tokens. Returns (ids, marker positions).
pub fn build_sequence(
    ids: SpecialIds,
    head: Vec<u32>,
    opts: Vec<Vec<u32>>,
    state: &[u32],
    max_len: usize,
    head_max_len: usize,
) -> (res: (Vec<u32>, Vec<usize>))
    requires
        head_max_len <= isize::MAX,
        total_len(marked_options(vv(opts@), ids.mask)) <= isize::MAX,
    ensures
        res.0@ == spec_sequence(ids, head@, vv(opts@), state@, max_len as int, head_max_len as int),
        res.1@ == spec_markers(ids, head@, vv(opts@), max_len as int, head_max_len as int),
{
    let ghost o = vv(opts@);
    let total0 = marked_total(&opts, Ghost(ids.mask));
    let (opt_ids, total1) = fit_options(&opts, ids.mask, head_max_len, total0);
    let budget1: isize = head_max_len as isize - total1 as isize;
    let keep: usize = if budget1 > 8 { budget1 as usize } else { 8 };
    let hk: usize = if keep < head.len() { keep } else { head.len() };
    let ghost fh = fitted_head(head@, o, ids.mask, head_max_len as int);
    proof {
        assert(head@.take(hk as int) =~= fh);
    }
    let (mut seq, markers) = lay_out(ids, &head, hk, &opt_ids);
    seq.push(ids.sep);
    proof {
        assert(seq@ =~= prompt_prefix(ids, head@, o, head_max_len as int));
    }
    let room: usize = if max_len > seq.len() + 1 { max_len - (seq.len() + 1) } else { 0 };
    let sk: usize = if state.len() < room { state.len() } else { room };
    push_prefix(&mut seq, state, sk);
    seq.push(ids.sep);
    seq.truncate(max_len);
    proof {
        assert(state@.take(sk as int) =~= trunc(state@, room as int));
        assert(markers@ =~= Seq::new(o.len(), |k: int| marker_pos(ids, head@, o, head_max_len as int, k) as usize));
    }
    let kept = markers_below(&markers, max_len);
    (seq, kept)
}


// ------------------------------------------------------------ laws

proof fn lemma_fitted_shape(opts: Seq<Seq<u32>>, mask: u32, head_max_len: int, i: int)
    requires
        0 <= i < opts.len(),
    ensures
        fitted_options(opts, mask, head_max_len).len() == opts.len(),
        fitted_options(opts, mask, head_max_len)[i].len() > 0,
        fitted_options(opts, mask, head_max_len)[i][0] == mask,
{
    let m = marked_options(opts, mask);
    assert(m[i] == seq![mask] + opts[i]);
    assert(m[i][0] == mask);
    if head_max_len - total_len(m) < 16 {
        let per = per_option_cap(head_max_len, opts.len() as int);
        assert(per >= 4);
    }
}

proof fn lemma_flatten_at<A>(s: Seq<Seq<A>>, i: int)
    requires
        0 <= i < s.len(),
        s[i].len() > 0,
    ensures
        s.take(i).flatten().len() < s.flatten().len(),
        s.flatten()[s.take(i).flatten().len() as int] == s[i][0],
{
    lemma_flatten_take_succ(s, i);
    vstd::seq_lib::lemma_flatten_concat(s.take(i + 1), s.skip(i + 1));
    assert(s.take(i + 1) + s.skip(i + 1) =~= s);
    let a = s.take(i).flatten();
    assert((a + s[i])[a.len() as int] == s[i][0]);
    assert(s.flatten() =~= (a + s[i]) + s.skip(i + 1).flatten());
}

/// Every marker position `build_sequence` returns points at a mask token
/// of the sequence it returns.
pub proof fn law_markers_point_at_masks(
    ids: SpecialIds,
    head: Seq<u32>,
    opts: Seq<Seq<u32>>,
    state: Seq<u32>,
    max_len: int,
    head_max_len: int,
)
    requires
        prompt_prefix(ids, head, opts, head_max_len).len() <= usize::MAX,
    ensures
        ({
            let seq = spec_sequence(ids, head, opts, state, max_len, head_max_len);
            let markers = spec_markers(ids, head, opts, max_len, head_max_len);
            forall|k: int|
                0 <= k < markers.len() ==> (#[trigger] markers[k]) < seq.len() && seq[markers[k] as int]
                    == ids.mask
        }),
{
    let seq = spec_sequence(ids, head, opts, state, max_len, head_max_len);
    let markers = spec_markers(ids, head, opts, max_len, head_max_len);
    let all = Seq::new(opts.len(), |i: int| marker_pos(ids, head, opts, head_max_len, i) as usize);
    let pred = |m: usize| m < max_len;
    assert(markers == all.filter(pred));
    let p = prompt_prefix(ids, head, opts, head_max_len);
    let fo = fitted_options(opts, ids.mask, head_max_len);
    let fh = fitted_head(head, opts, ids.mask, head_max_len);
    let room = sat_sub(max_len, p.len() + 1int);
    let full = p + trunc(state, room) + seq![ids.sep];
    assert forall|k: int| 0 <= k < markers.len() implies (#[trigger] markers[k]) < seq.len() && seq[markers[k] as int]
        == ids.mask by {
        let m = markers[k];
        all.lemma_filter_pred(pred, k);
        assert(markers.contains(m));
        all.lemma_filter_contains_rev(pred, m);
        let i = choose|i: int| 0 <= i < all.len() && all[i] == m;
        lemma_fitted_shape(opts, ids.mask, head_max_len, i);
        lemma_flatten_at(fo, i);
        let off = fo.take(i).flatten().len() as int;
        let pos = marker_pos(ids, head, opts, head_max_len, i);
        assert(pos == 2 + fh.len() + off);
        assert(p =~= ((seq![ids.cls] + fh + seq![ids.sep]) + fo.flatten()) + seq![ids.sep]);
        assert(pos < p.len());
        assert(p[pos] == fo.flatten()[off]);
        assert(m as int == pos);
        assert(m < max_len);
        assert(full[pos] == p[pos]);
    }
}

/// The sequence never runs past `max_len`; where the prompt leaves room for
/// the closing separator, it is the prompt, the longest prefix of the state
/// that fits, and that separator.
pub proof fn law_sequence_fits(
    ids: SpecialIds,
    head: Seq<u32>,
    opts: Seq<Seq<u32>>,
    state: Seq<u32>,
    max_len: int,
    head_max_len: int,
)
    requires
        0 <= max_len,
    ensures
        ({
            let seq = spec_sequence(ids, head, opts, state, max_len, head_max_len);
            let p = prompt_prefix(ids, head, opts, head_max_len);
            &&& seq.len() <= max_len
            &&& p.len() + 1 <= max_len ==> seq == p + state.take(imin(state.len() as int, max_len - p.len() - 1))
                + seq![ids.sep]
        }),
{
    let p = prompt_prefix(ids, head, opts, head_max_len);
    let room = sat_sub(max_len, p.len() + 1int);
    if p.len() + 1 <= max_len {
        assert(trunc(state, room) =~= state.take(imin(state.len() as int, max_len - p.len() - 1)));
    }
}

/// A prefix of a list of token lists never holds more tokens than the list.
pub proof fn lemma_flatten_len_mono<A>(s: Seq<Seq<A>>, i: int)
    requires
        0 <= i <= s.len(),
    ensures
        s.take(i).flatten().len() <= s.flatten().len(),
    decreases s.len() - i,
{
    if i < s.len() {
        lemma_flatten_len_mono(s, i + 1);
        lemma_flatten_take_succ(s, i);
    } else {
        assert(s.take(i) =~= s);
    }
}


// ------------------------------------------------------------ configuration

/// The sequence length a config that names none gets.
pub fn default_max_len() -> (r: usize)
    ensures
        r == 512,
{
    512
}

/// The head budget a config that names none gets.
pub fn default_head_max_len() -> (r: usize)
    ensures
        r == 192,
{
    192
}

/// The option-count bucket a fitted temperature is keyed by.
pub open spec fn size_bucket(k: int) -> Seq<char> {
    if k <= 2 {
        "2"@
    } else if k <= 5 {
        "3-5"@
    } else if k <= 10 {
        "6-10"@
    } else {
        "11+"@
    }
}

/// The key of the temperature fitted per (question type, option count):
/// `"<type>:<bucket>"`.
pub fn temperature_key(qtype: QType, k: usize) -> (r: String)
    ensures
        r@ == qtype_name(qtype) + ":"@ + size_bucket(k as int),
{
    let mut r = chars_of(qtype.name());
    push_str(&mut r, ":");
    let size = if k <= 2 {
        "2"
    } else if k <= 5 {
        "3-5"
    } else if k <= 10 {
        "6-10"
    } else {
        "11+"
    };
    push_str(&mut r, size);
    string_of(r.as_slice())
}

// ------------------------------------------------------------ prompt pieces

/// The text of the head: `"<type> question: <instructions>"`.
pub fn head_text(q: &Question) -> (r: String)
    ensures
        r@ == qtype_name(q.qtype) + " question: "@ + q.instructions@,
{
    let mut r = chars_of(q.qtype.name());
    push_str(&mut r, " question: ");
    push_str(&mut r, q.instructions.as_str());
    string_of(r.as_slice())
}

/// The text of an option as it follows its marker: `" " + option`.
pub fn option_text(o: &str) -> (r: String)
    ensures
        r@ == " "@ + o@,
{
    let mut r = chars_of(" ");
    push_str(&mut r, o);
    string_of(r.as_slice())
}

/// `str::replace(mask, " ")`: every occurrence of the mask token read as a
/// space. An empty mask matches at every char boundary.
pub open spec fn spec_scrub(text: Seq<char>, mask: Seq<char>) -> Seq<char> {
    if mask.len() == 0 {
        text.map_values(|c: char| seq![' ', c]).flatten() + " "@
    } else {
        crate::text::replace_all(text, mask, " "@)
    }
}

/// The text with the mask token's text scrubbed out, as Laya's own runtime
/// does before tokenizing.
pub fn scrub_mask(text: &str, mask: &str) -> (r: String)
    ensures
        r@ == spec_scrub(text@, mask@),
{
    let tc = chars_of(text);
    let mc = chars_of(mask);
    let sp = chars_of(" ");
    proof {
        reveal_strlit(" ");
    }
    if mc.len() == 0 {
        let ghost pieces = tc@.map_values(|c: char| seq![' ', c]);
        let mut r: Vec<char> = Vec::new();
        let mut i: usize = 0;
        while i < tc.len()
            invariant
                i <= tc@.len(),
                pieces == tc@.map_values(|c: char| seq![' ', c]),
                r@ == pieces.take(i as int).flatten(),
            decreases tc@.len() - i,
        {
            proof {
                lemma_flatten_take_succ(pieces, i as int);
            }
            r.push(' ');
            r.push(tc[i]);
            i = i + 1;
            proof {
                assert(r@ =~= pieces.take(i - 1).flatten() + pieces[i - 1]);
            }
        }
        proof {
            assert(pieces.take(tc@.len() as int) =~= pieces);
        }
        r.push(' ');
        string_of(r.as_slice())
    } else {
        let r = crate::text::replace_all_exec(tc.as_slice(), mc.as_slice(), sp.as_slice());
        string_of(r.as_slice())
    }
}

/// Why a row cannot be laid out.
#[derive(Debug, Clone, PartialEq, Eq, Structural)]
pub enum LayoutError {
    /// Some option markers fell past `max_len`: the options exceed the budget.
    OptionsExceedHead { head_max_len: usize },
}

/// Each option's tokens cut to the 48 Laya's own runtime keeps.
pub open spec fn capped_options(opts: Seq<Seq<u32>>) -> Seq<Seq<u32>> {
    opts.map_values(|o: Seq<u32>| trunc(o, 48))
}

proof fn lemma_capped_total(opts: Seq<Seq<u32>>, mask: u32)
    ensures
        total_len(marked_options(capped_options(opts), mask)) <= 49 * opts.len(),
    decreases opts.len(),
{
    let m = marked_options(capped_options(opts), mask);
    if opts.len() > 0 {
        lemma_capped_total(opts.drop_last(), mask);
        assert(capped_options(opts.drop_last()) =~= capped_options(opts).drop_last());
        assert(marked_options(capped_options(opts.drop_last()), mask) =~= m.drop_last());
        assert(m =~= m.drop_last().push(m.last()));
        m.drop_last().lemma_flatten_push(m.last());
    }
}

/// The model's input ids and marker positions for one row from its
/// tokenized pieces: each option cut to 48 tokens, laid out by
/// [`build_sequence`]; refused when some option's marker does not fit.
pub fn sequence_from_ids(
    ids: SpecialIds,
    head: Vec<u32>,
    opts: Vec<Vec<u32>>,
    state: &[u32],
    max_len: usize,
    head_max_len: usize,
) -> (r: Result<(Vec<u32>, Vec<usize>), LayoutError>)
    requires
        head_max_len <= isize::MAX,
        opts@.len() <= isize::MAX / 49,
    ensures
        ({
            let cut = capped_options(vv(opts@));
            let markers = spec_markers(ids, head@, cut, max_len as int, head_max_len as int);
            match r {
                Ok((s, m)) => markers.len() == opts@.len() && s@ == spec_sequence(
                    ids,
                    head@,
                    cut,
                    state@,
                    max_len as int,
                    head_max_len as int,
                ) && m@ == markers,
                Err(LayoutError::OptionsExceedHead { head_max_len: h }) => h == head_max_len && markers.len()
                    != opts@.len(),
            }
        }),
{
    let n = opts.len();
    let mut cut: Vec<Vec<u32>> = Vec::new();
    let mut i: usize = 0;
    while i < opts.len()
        invariant
            i <= opts@.len(),
            vv(cut@) == capped_options(vv(opts@)).take(i as int),
        decreases opts@.len() - i,
    {
        let mut o = crate::laya::copy_ids(&opts[i]);
        o.truncate(48);
        assert(o@ =~= trunc(opts@[i as int]@, 48));
        let ghost c0 = vv(cut@);
        cut.push(o);
        i = i + 1;
        proof {
            assert(vv(cut@) =~= c0.push(trunc(opts@[i - 1]@, 48)));
            assert(capped_options(vv(opts@)).take(i as int) =~= capped_options(vv(opts@)).take(i - 1).push(
                trunc(opts@[i - 1]@, 48),
            ));
        }
    }
    proof {
        assert(capped_options(vv(opts@)).take(opts@.len() as int) =~= capped_options(vv(opts@)));
        lemma_capped_total(vv(opts@), ids.mask);
        assert(49 * opts@.len() <= isize::MAX);
    }
    let (seq, markers) = build_sequence(ids, head, cut, state, max_len, head_max_len);
    if markers.len() != n {
        Err(LayoutError::OptionsExceedHead { head_max_len })
    } else {
        Ok((seq, markers))
    }
}

/// A copy of a token list.
pub fn copy_ids(v: &Vec<u32>) -> (r: Vec<u32>)
    ensures
        r@ == v@,
{
    let mut r: Vec<u32> = Vec::new();
    push_prefix(&mut r, v.as_slice(), v.len());
    proof {
        assert(v@.take(v@.len() as int) =~= v@);
    }
    r
}

} // verus!
