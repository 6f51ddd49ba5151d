//! A batch of Laya rows packed into the model's input tensors: every row
//! padded to the longest, every marker list to the most markers, laid out
//! row after row.

use vstd::prelude::*;

use crate::laya::{lemma_flatten_take_succ, qtype_index, QType};

verus! {

/// One built row: (input ids, marker positions).
pub type Row = (Vec<u32>, Vec<usize>);

/// The model's inputs for a batch of `rows` rows, `len` tokens and `kmax`
/// markers wide, each tensor row-major.
#[derive(Debug, Clone)]
pub struct PackedBatch {
    pub rows: usize,
    pub len: usize,
    pub kmax: usize,
    pub input_ids: Vec<i64>,
    pub attention_mask: Vec<i64>,
    pub marker_pos: Vec<i64>,
    pub marker_mask: Vec<bool>,
    pub qtype: Vec<i64>,
}

/// The longest token list of the rows (0 for none).
pub open spec fn longest_row(b: Seq<Row>) -> int
    decreases b.len(),
{
    if b.len() == 0 {
        0
    } else {
        let m = longest_row(b.drop_last());
        if b.last().0@.len() > m { b.last().0@.len() as int } else { m }
    }
}

/// The most markers of the rows (0 for none).
pub open spec fn most_markers(b: Seq<Row>) -> int
    decreases b.len(),
{
    if b.len() == 0 {
        0
    } else {
        let m = most_markers(b.drop_last());
        if b.last().1@.len() > m { b.last().1@.len() as int } else { m }
    }
}

/// A row's ids padded with `pad` to `len`.
pub open spec fn padded_ids(s: Seq<u32>, len: int, pad: u32) -> Seq<i64> {
    Seq::new(len as nat, |j: int| if j < s.len() { s[j] as i64 } else { pad as i64 })
}

/// 1 over a row's tokens, 0 over its padding.
pub open spec fn attention_row(l: int, len: int) -> Seq<i64> {
    Seq::new(len as nat, |j: int| if j < l { 1i64 } else { 0i64 })
}

/// A row's marker positions padded with 0 to `k`.
pub open spec fn marker_row(m: Seq<usize>, k: int) -> Seq<i64> {
    Seq::new(k as nat, |j: int| if j < m.len() { m[j] as i64 } else { 0i64 })
}

/// true over a row's markers, false over the padding.
pub open spec fn marker_mask_row(l: int, k: int) -> Seq<bool> {
    Seq::new(k as nat, |j: int| j < l)
}

/// The four row-major tensors and the question types of a batch.
pub open spec fn packed(b: Seq<Row>, qtypes: Seq<QType>, pad: u32) -> (Seq<i64>, Seq<i64>, Seq<i64>, Seq<bool>, Seq<i64>) {
    let len = longest_row(b);
    let k = most_markers(b);
    (
        Seq::new(b.len(), |i: int| padded_ids(b[i].0@, len, pad)).flatten(),
        Seq::new(b.len(), |i: int| attention_row(b[i].0@.len() as int, len)).flatten(),
        Seq::new(b.len(), |i: int| marker_row(b[i].1@, k)).flatten(),
        Seq::new(b.len(), |i: int| marker_mask_row(b[i].1@.len() as int, k)).flatten(),
        Seq::new(qtypes.len(), |i: int| qtype_index(qtypes[i]) as i64),
    )
}

proof fn lemma_widths(b: Seq<Row>, i: int)
    requires
        0 <= i < b.len(),
    ensures
        b[i].0@.len() <= longest_row(b),
        b[i].1@.len() <= most_markers(b),
        longest_row(b) >= 0,
        most_markers(b) >= 0,
    decreases b.len(),
{
    if i < b.len() - 1 {
        assert(b.drop_last()[i] == b[i]);
        lemma_widths(b.drop_last(), i);
    }
    proof_widths_nonneg(b);
}

proof fn proof_widths_nonneg(b: Seq<Row>)
    ensures
        longest_row(b) >= 0,
        most_markers(b) >= 0,
    decreases b.len(),
{
    if b.len() > 0 {
        proof_widths_nonneg(b.drop_last());
    }
}

/// The widest row and the most markers.
fn widths(built: &Vec<Row>) -> (r: (usize, usize))
    ensures
        r.0 == longest_row(built@),
        r.1 == most_markers(built@),
{
    let mut len: usize = 0;
    let mut k: usize = 0;
    let mut i: usize = 0;
    while i < built.len()
        invariant
            i <= built@.len(),
            len == longest_row(built@.take(i as int)),
            k == most_markers(built@.take(i as int)),
        decreases built@.len() - i,
    {
        proof {
            assert(built@.take(i + 1).drop_last() =~= built@.take(i as int));
            assert(built@.take(i + 1).last() == built@[i as int]);
        }
        if built[i].0.len() > len {
            len = built[i].0.len();
        }
        if built[i].1.len() > k {
            k = built[i].1.len();
        }
        i = i + 1;
    }
    proof {
        assert(built@.take(built@.len() as int) =~= built@);
    }
    (len, k)
}

/// Pack built rows and their question types into the model's input tensors.
pub fn pack_batch(built: &Vec<Row>, qtypes: &Vec<QType>, pad: u32) -> (r: PackedBatch)
    ensures
        r.rows == built@.len(),
        r.len == longest_row(built@),
        r.kmax == most_markers(built@),
        (r.input_ids@, r.attention_mask@, r.marker_pos@, r.marker_mask@, r.qtype@) == packed(built@, qtypes@, pad),
{
    let (len, kmax) = widths(built);
    let ghost ids_rows = Seq::new(built@.len(), |i: int| padded_ids(built@[i].0@, len as int, pad));
    let ghost att_rows = Seq::new(built@.len(), |i: int| attention_row(built@[i].0@.len() as int, len as int));
    let ghost pos_rows = Seq::new(built@.len(), |i: int| marker_row(built@[i].1@, kmax as int));
    let ghost mm_rows = Seq::new(built@.len(), |i: int| marker_mask_row(built@[i].1@.len() as int, kmax as int));
    let mut input_ids: Vec<i64> = Vec::new();
    let mut attention_mask: Vec<i64> = Vec::new();
    let mut marker_pos: Vec<i64> = Vec::new();
    let mut marker_mask: Vec<bool> = Vec::new();
    let mut i: usize = 0;
    while i < built.len()
        invariant
            i <= built@.len(),
            len == longest_row(built@),
            kmax == most_markers(built@),
            ids_rows == Seq::new(built@.len(), |i: int| padded_ids(built@[i].0@, len as int, pad)),
            att_rows == Seq::new(built@.len(), |i: int| attention_row(built@[i].0@.len() as int, len as int)),
            pos_rows == Seq::new(built@.len(), |i: int| marker_row(built@[i].1@, kmax as int)),
            mm_rows == Seq::new(built@.len(), |i: int| marker_mask_row(built@[i].1@.len() as int, kmax as int)),
            input_ids@ == ids_rows.take(i as int).flatten(),
            attention_mask@ == att_rows.take(i as int).flatten(),
            marker_pos@ == pos_rows.take(i as int).flatten(),
            marker_mask@ == mm_rows.take(i as int).flatten(),
        decreases built@.len() - i,
    {
        let (seq, markers) = &built[i];
        proof {
            lemma_widths(built@, i as int);
            lemma_flatten_take_succ(ids_rows, i as int);
            lemma_flatten_take_succ(att_rows, i as int);
            lemma_flatten_take_succ(pos_rows, i as int);
            lemma_flatten_take_succ(mm_rows, i as int);
        }
        let ghost i0 = input_ids@;
        let ghost a0 = attention_mask@;
        let mut j: usize = 0;
        while j < len
            invariant
                j <= len,
                input_ids@ == i0 + padded_ids(seq@, len as int, pad).take(j as int),
                attention_mask@ == a0 + attention_row(seq@.len() as int, len as int).take(j as int),
            decreases len - j,
        {
            if j < seq.len() {
                input_ids.push(seq[j] as i64);
                attention_mask.push(1);
            } else {
                input_ids.push(pad as i64);
                attention_mask.push(0);
            }
            j = j + 1;
            proof {
                assert(padded_ids(seq@, len as int, pad).take(j as int) =~= padded_ids(seq@, len as int, pad).take(
                    j - 1,
                ).push(padded_ids(seq@, len as int, pad)[j - 1]));
                assert(attention_row(seq@.len() as int, len as int).take(j as int) =~= attention_row(
                    seq@.len() as int,
                    len as int,
                ).take(j - 1).push(attention_row(seq@.len() as int, len as int)[j - 1]));
            }
        }
        let ghost p0 = marker_pos@;
        let ghost m0 = marker_mask@;
        let mut j: usize = 0;
        while j < kmax
            invariant
                j <= kmax,
                marker_pos@ == p0 + marker_row(markers@, kmax as int).take(j as int),
                marker_mask@ == m0 + marker_mask_row(markers@.len() as int, kmax as int).take(j as int),
            decreases kmax - j,
        {
            if j < markers.len() {
                marker_pos.push(markers[j] as i64);
                marker_mask.push(true);
            } else {
                marker_pos.push(0);
                marker_mask.push(false);
            }
            j = j + 1;
            proof {
                assert(marker_row(markers@, kmax as int).take(j as int) =~= marker_row(markers@, kmax as int).take(
                    j - 1,
                ).push(marker_row(markers@, kmax as int)[j - 1]));
                assert(marker_mask_row(markers@.len() as int, kmax as int).take(j as int) =~= marker_mask_row(
                    markers@.len() as int,
                    kmax as int,
                ).take(j - 1).push(marker_mask_row(markers@.len() as int, kmax as int)[j - 1]));
            }
        }
        proof {
            assert(padded_ids(seq@, len as int, pad).take(len as int) =~= ids_rows[i as int]);
            assert(attention_row(seq@.len() as int, len as int).take(len as int) =~= att_rows[i as int]);
            assert(marker_row(markers@, kmax as int).take(kmax as int) =~= pos_rows[i as int]);
            assert(marker_mask_row(markers@.len() as int, kmax as int).take(kmax as int) =~= mm_rows[i as int]);
        }
        i = i + 1;
    }
    proof {
        assert(ids_rows.take(built@.len() as int) =~= ids_rows);
        assert(att_rows.take(built@.len() as int) =~= att_rows);
        assert(pos_rows.take(built@.len() as int) =~= pos_rows);
        assert(mm_rows.take(built@.len() as int) =~= mm_rows);
    }
    let mut qtype: Vec<i64> = Vec::new();
    let mut i: usize = 0;
    while i < qtypes.len()
        invariant
            i <= qtypes@.len(),
            qtype@ == Seq::new(qtypes@.len(), |i: int| qtype_index(qtypes@[i]) as i64).take(i as int),
        decreases qtypes@.len() - i,
    {
        qtype.push(qtypes[i].index() as i64);
        i = i + 1;
        proof {
            let s = Seq::new(qtypes@.len(), |i: int| qtype_index(qtypes@[i]) as i64);
            assert(s.take(i as int) =~= s.take(i - 1).push(s[i - 1]));
        }
    }
    proof {
        let s = Seq::new(qtypes@.len(), |i: int| qtype_index(qtypes@[i]) as i64);
        assert(s.take(qtypes@.len() as int) =~= s);
    }
    PackedBatch {
        rows: built.len(),
        len,
        kmax,
        input_ids,
        attention_mask,
        marker_pos,
        marker_mask,
        qtype,
    }
}

// ------------------------------------------------------------ laws

/// A list of lists that all hold `w` items flattens row-major: item `j` of
/// list `i` lands at `i * w + j`.
proof fn lemma_flatten_uniform<A>(s: Seq<Seq<A>>, w: int)
    requires
        0 <= w,
        forall|i: int| 0 <= i < s.len() ==> (#[trigger] s[i]).len() == w,
    ensures
        s.flatten().len() == s.len() * w,
        forall|i: int, j: int| 0 <= i < s.len() && 0 <= j < w ==> s.flatten()[i * w + j] == #[trigger] s[i][j],
    decreases s.len(),
{
    if s.len() > 0 {
        let d = s.drop_last();
        let n = s.len() - 1;
        assert forall|i: int| 0 <= i < d.len() implies (#[trigger] d[i]).len() == w by {
            assert(d[i] == s[i]);
        }
        lemma_flatten_uniform(d, w);
        assert(d.push(s.last()) =~= s);
        d.lemma_flatten_push(s.last());
        assert(s.flatten() == d.flatten() + s.last());
        assert(n * w + w == (n + 1) * w) by (nonlinear_arith);
        assert forall|i: int, j: int| 0 <= i < s.len() && 0 <= j < w implies s.flatten()[i * w + j] == #[trigger] s[i][j] by {
            if i < n {
                assert(i * w + j < n * w) by (nonlinear_arith)
                    requires
                        0 <= i < n,
                        0 <= j < w,
                ;
                assert(0 <= i * w) by (nonlinear_arith)
                    requires
                        0 <= i,
                        0 <= w,
                ;
                assert(d[i] == s[i]);
            } else {
                assert(s[i] == s.last());
            }
        }
    }
}

/// The packed tensors are row-major, as the model reads them: row `i` of
/// the batch fills `[i * len, (i + 1) * len)` of the ids and the attention
/// mask (its tokens, then padding) and `[i * kmax, (i + 1) * kmax)` of the
/// marker tensors (its markers, then zeros marked false).
pub proof fn law_row_major(b: Seq<Row>, qtypes: Seq<QType>, pad: u32)
    ensures
        ({
            let p = packed(b, qtypes, pad);
            let len = longest_row(b);
            let k = most_markers(b);
            &&& p.0.len() == b.len() * len
            &&& p.1.len() == b.len() * len
            &&& p.2.len() == b.len() * k
            &&& p.3.len() == b.len() * k
            &&& p.4.len() == qtypes.len()
            &&& forall|i: int, j: int|
                0 <= i < b.len() && 0 <= j < len ==> #[trigger] p.0[i * len + j] == (if j < b[i].0@.len() {
                    b[i].0@[j] as i64
                } else {
                    pad as i64
                }) && p.1[i * len + j] == (if j < b[i].0@.len() { 1i64 } else { 0i64 })
            &&& forall|i: int, j: int|
                0 <= i < b.len() && 0 <= j < k ==> #[trigger] p.2[i * k + j] == (if j < b[i].1@.len() {
                    b[i].1@[j] as i64
                } else {
                    0i64
                }) && p.3[i * k + j] == (j < b[i].1@.len())
        }),
{
    let len = longest_row(b);
    let k = most_markers(b);
    proof_widths_nonneg(b);
    let ids = Seq::new(b.len(), |i: int| padded_ids(b[i].0@, len, pad));
    let att = Seq::new(b.len(), |i: int| attention_row(b[i].0@.len() as int, len));
    let pos = Seq::new(b.len(), |i: int| marker_row(b[i].1@, k));
    let mm = Seq::new(b.len(), |i: int| marker_mask_row(b[i].1@.len() as int, k));
    lemma_flatten_uniform(ids, len);
    lemma_flatten_uniform(att, len);
    lemma_flatten_uniform(pos, k);
    lemma_flatten_uniform(mm, k);
    let p = packed(b, qtypes, pad);
    assert forall|i: int, j: int| 0 <= i < b.len() && 0 <= j < len implies #[trigger] p.0[i * len + j] == (if j
        < b[i].0@.len() {
        b[i].0@[j] as i64
    } else {
        pad as i64
    }) && p.1[i * len + j] == (if j < b[i].0@.len() { 1i64 } else { 0i64 }) by {
        assert(ids[i][j] == p.0[i * len + j]);
        assert(att[i][j] == p.1[i * len + j]);
    }
    assert forall|i: int, j: int| 0 <= i < b.len() && 0 <= j < k implies #[trigger] p.2[i * k + j] == (if j
        < b[i].1@.len() {
        b[i].1@[j] as i64
    } else {
        0i64
    }) && p.3[i * k + j] == (j < b[i].1@.len()) by {
        assert(pos[i][j] == p.2[i * k + j]);
        assert(mm[i][j] == p.3[i * k + j]);
    }
}

} // verus!
