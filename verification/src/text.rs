//! Text over sequences of chars: searching, splitting, trimming, replacing,
//! and decimal numbers, each with the meaning std's `str` methods give it.

use vstd::prelude::*;
use vstd::slice::slice_subrange;

verus! {

// ------------------------------------------------------------ specification

/// `p` occurs in `s` at char position `i`.
pub open spec fn matches_at(s: Seq<char>, p: Seq<char>, i: int) -> bool {
    0 <= i && i + p.len() <= s.len() && s.subrange(i, i + p.len()) == p
}

/// The first occurrence of `p` in `s` at or after `i`.
pub open spec fn find_from(s: Seq<char>, p: Seq<char>, i: int) -> Option<int>
    decreases s.len() + 1 - i,
{
    if i < 0 || i + p.len() > s.len() {
        None
    } else if matches_at(s, p, i) {
        Some(i)
    } else {
        find_from(s, p, i + 1)
    }
}

/// `str::find`: the first occurrence of `p` in `s`.
pub open spec fn find(s: Seq<char>, p: Seq<char>) -> Option<int> {
    find_from(s, p, 0)
}

/// The last occurrence of `p` in `s` that starts before `j`.
pub open spec fn rfind_below(s: Seq<char>, p: Seq<char>, j: int) -> Option<int>
    decreases j,
{
    if j <= 0 {
        None
    } else if matches_at(s, p, j - 1) {
        Some(j - 1)
    } else {
        rfind_below(s, p, j - 1)
    }
}

/// `str::rfind`: the last occurrence of `p` in `s`.
pub open spec fn rfind(s: Seq<char>, p: Seq<char>) -> Option<int> {
    rfind_below(s, p, s.len() - p.len() + 1)
}

/// `str::contains`.
pub open spec fn contains(s: Seq<char>, p: Seq<char>) -> bool {
    find(s, p) is Some
}

/// `str::split_once`: the text before and after the first `p`.
pub open spec fn split_once(s: Seq<char>, p: Seq<char>) -> Option<(Seq<char>, Seq<char>)> {
    match find(s, p) {
        Some(i) => Some((s.take(i), s.skip(i + p.len()))),
        None => None,
    }
}

/// `str::rsplit_once`: the text before and after the last `p`.
pub open spec fn rsplit_once(s: Seq<char>, p: Seq<char>) -> Option<(Seq<char>, Seq<char>)> {
    match rfind(s, p) {
        Some(i) => Some((s.take(i), s.skip(i + p.len()))),
        None => None,
    }
}

/// `str::strip_prefix`.
pub open spec fn strip_prefix(s: Seq<char>, p: Seq<char>) -> Option<Seq<char>> {
    if p.len() <= s.len() && s.take(p.len() as int) == p {
        Some(s.skip(p.len() as int))
    } else {
        None
    }
}

/// `str::replacen(from, to, 1)`: the first `from` replaced by `to`.
pub open spec fn replace_first(s: Seq<char>, from: Seq<char>, to: Seq<char>) -> Seq<char> {
    match find(s, from) {
        Some(i) => s.take(i) + to + s.skip(i + from.len()),
        None => s,
    }
}

/// `str::replace(from, to)` for a non-empty `from`: every occurrence, left
/// to right and without overlap, replaced by `to`.
pub open spec fn replace_all(s: Seq<char>, from: Seq<char>, to: Seq<char>) -> Seq<char>
    decreases s.len(),
{
    if from.len() == 0 {
        s
    } else {
        match find(s, from) {
            Some(i) => if 0 <= i && i + from.len() <= s.len() {
                s.take(i) + to + replace_all(s.skip(i + from.len()), from, to)
            } else {
                s
            },
            None => s,
        }
    }
}

/// `char::is_whitespace`: the Unicode `White_Space` property.
pub open spec fn is_ws(c: char) -> bool {
    ||| ('\t' <= c && c <= '\r')
    ||| c == ' '
    ||| c == '\u{85}'
    ||| c == '\u{a0}'
    ||| c == '\u{1680}'
    ||| ('\u{2000}' <= c && c <= '\u{200a}')
    ||| c == '\u{2028}'
    ||| c == '\u{2029}'
    ||| c == '\u{202f}'
    ||| c == '\u{205f}'
    ||| c == '\u{3000}'
}

/// `str::trim_start`.
pub open spec fn trim_start(s: Seq<char>) -> Seq<char>
    decreases s.len(),
{
    if s.len() > 0 && is_ws(s[0]) {
        trim_start(s.drop_first())
    } else {
        s
    }
}

/// `str::trim_end`.
pub open spec fn trim_end(s: Seq<char>) -> Seq<char>
    decreases s.len(),
{
    if s.len() > 0 && is_ws(s.last()) {
        trim_end(s.drop_last())
    } else {
        s
    }
}

/// `str::trim`.
pub open spec fn trim(s: Seq<char>) -> Seq<char> {
    trim_end(trim_start(s))
}

/// `str::trim_end_matches(c)` for a char `c`.
pub open spec fn trim_end_char(s: Seq<char>, c: char) -> Seq<char>
    decreases s.len(),
{
    if s.len() > 0 && s.last() == c {
        trim_end_char(s.drop_last(), c)
    } else {
        s
    }
}

/// `str::split_whitespace`: the maximal runs of non-whitespace chars.
pub open spec fn words(s: Seq<char>) -> Seq<Seq<char>>
    decreases s.len(),
{
    if s.len() == 0 {
        seq![]
    } else {
        let w = words(s.drop_last());
        if is_ws(s.last()) {
            w
        } else if s.len() >= 2 && !is_ws(s[s.len() - 2]) && w.len() > 0 {
            w.drop_last().push(w.last().push(s.last()))
        } else {
            w.push(seq![s.last()])
        }
    }
}

/// `[T]::join(sep)` over strings.
pub open spec fn join(ws: Seq<Seq<char>>, sep: Seq<char>) -> Seq<char>
    decreases ws.len(),
{
    if ws.len() == 0 {
        seq![]
    } else if ws.len() == 1 {
        ws[0]
    } else {
        join(ws.drop_last(), sep) + sep + ws.last()
    }
}

/// The char of a decimal digit.
pub open spec fn digit(d: int) -> char {
    (d + 48) as char
}

/// The decimal numeral of `n`, as `format!("{n}")` writes it.
pub open spec fn decimal(n: nat) -> Seq<char>
    decreases n,
{
    if n < 10 {
        seq![digit(n as int)]
    } else {
        decimal(n / 10).push(digit((n % 10) as int))
    }
}

/// The value of a run of decimal digits.
pub open spec fn digits_value(s: Seq<char>) -> nat
    decreases s.len(),
{
    if s.len() == 0 {
        0
    } else {
        digits_value(s.drop_last()) * 10 + ((s.last() as int - 48) as nat)
    }
}

/// The text of an unsigned numeral without its optional leading `+`.
pub open spec fn unsigned_digits(s: Seq<char>) -> Seq<char> {
    if s.len() > 1 && s[0] == '+' { s.drop_first() } else { s }
}

pub open spec fn is_digit(c: char) -> bool {
    '0' <= c && c <= '9'
}

/// `str::parse::<u64>`: an optional `+`, then at least one decimal digit,
/// and a value that fits.
pub open spec fn parse_u64(s: Seq<char>) -> Option<u64> {
    let d = unsigned_digits(s);
    if d.len() > 0 && (forall|i: int| 0 <= i < d.len() ==> is_digit(#[trigger] d[i])) && digits_value(d)
        <= u64::MAX {
        Some(digits_value(d) as u64)
    } else {
        None
    }
}

// ------------------------------------------------------------ lemmas

pub proof fn lemma_find_from(s: Seq<char>, p: Seq<char>, i: int)
    requires
        0 <= i,
    ensures
        find_from(s, p, i) matches Some(j) ==> i <= j && matches_at(s, p, j) && forall|k: int|
            i <= k < j ==> !matches_at(s, p, k),
        find_from(s, p, i) is None ==> forall|k: int| i <= k ==> !matches_at(s, p, k),
    decreases s.len() + 1 - i,
{
    if i + p.len() > s.len() {
    } else if matches_at(s, p, i) {
    } else {
        lemma_find_from(s, p, i + 1);
    }
}

pub proof fn lemma_find(s: Seq<char>, p: Seq<char>)
    ensures
        find(s, p) matches Some(j) ==> 0 <= j && j + p.len() <= s.len() && s.subrange(j, j + p.len())
            == p && forall|k: int| 0 <= k < j ==> !matches_at(s, p, k),
        find(s, p) is None ==> forall|k: int| 0 <= k ==> !matches_at(s, p, k),
{
    lemma_find_from(s, p, 0);
}

pub proof fn lemma_rfind_below(s: Seq<char>, p: Seq<char>, j: int)
    ensures
        rfind_below(s, p, j) matches Some(r) ==> r < j && matches_at(s, p, r) && forall|k: int|
            r < k < j ==> !matches_at(s, p, k),
        rfind_below(s, p, j) is None ==> forall|k: int| k < j ==> !matches_at(s, p, k),
    decreases j,
{
    if j <= 0 {
    } else if matches_at(s, p, j - 1) {
    } else {
        lemma_rfind_below(s, p, j - 1);
    }
}

pub proof fn lemma_trim_start(s: Seq<char>)
    ensures
        trim_start(s).len() <= s.len(),
        exists|k: int| 0 <= k <= s.len() && trim_start(s) == s.skip(k),
    decreases s.len(),
{
    if s.len() > 0 && is_ws(s[0]) {
        lemma_trim_start(s.drop_first());
        let k = choose|k: int| 0 <= k <= s.drop_first().len() && trim_start(s.drop_first()) == s.drop_first().skip(k);
        assert(s.drop_first().skip(k) =~= s.skip(k + 1));
    } else {
        assert(s.skip(0) =~= s);
    }
}

/// No char of `w` is whitespace.
pub open spec fn no_ws(w: Seq<char>) -> bool {
    forall|k: int| 0 <= k < w.len() ==> !is_ws(#[trigger] w[k])
}

/// Every word is a nonempty run of non-whitespace chars.
pub proof fn lemma_words_solid(s: Seq<char>)
    ensures
        forall|i: int| 0 <= i < words(s).len() ==> #[trigger] words(s)[i].len() > 0 && no_ws(words(s)[i]),
    decreases s.len(),
{
    if s.len() > 0 {
        lemma_words_solid(s.drop_last());
        lemma_words_nonempty(s);
        let w = words(s.drop_last());
        let r = words(s);
        if !is_ws(s.last()) {
            assert forall|i: int| 0 <= i < r.len() implies #[trigger] r[i].len() > 0 && no_ws(r[i]) by {
                if i < w.len() && r[i] == w[i] {
                } else if i == w.len() - 1 && s.len() >= 2 && !is_ws(s[s.len() - 2]) && w.len() > 0 {
                    let x = w.last().push(s.last());
                    assert(r[i] == x);
                    assert forall|k: int| 0 <= k < x.len() implies !is_ws(#[trigger] x[k]) by {
                        if k < w.last().len() {
                            assert(x[k] == w[w.len() - 1][k]);
                        }
                    }
                } else {
                    assert(r[i] == seq![s.last()]);
                }
            }
        }
    }
}

/// Dropping the last char never adds a word.
pub proof fn lemma_words_drop_last(s: Seq<char>)
    requires
        s.len() > 0,
    ensures
        words(s.drop_last()).len() <= words(s).len(),
{
}

/// Trimming a trailing char never adds a word.
pub proof fn lemma_words_trim_end_char(s: Seq<char>, c: char)
    ensures
        words(trim_end_char(s, c)).len() <= words(s).len(),
    decreases s.len(),
{
    if s.len() > 0 && s.last() == c {
        lemma_words_trim_end_char(s.drop_last(), c);
        lemma_words_drop_last(s);
    }
}

/// A nonempty run of non-whitespace chars is one word.
pub proof fn lemma_words_solid_run(w: Seq<char>)
    requires
        w.len() > 0,
        no_ws(w),
    ensures
        words(w) == seq![w],
    decreases w.len(),
{
    if w.len() == 1 {
        assert(w.drop_last() =~= Seq::<char>::empty());
        assert(words(w.drop_last()) == Seq::<Seq<char>>::empty());
        assert(!is_ws(w.last()));
        assert(seq![w.last()] =~= w);
        assert(words(w) == Seq::<Seq<char>>::empty().push(seq![w.last()]));
        assert(words(w) =~= seq![w]);
    } else {
        let d = w.drop_last();
        assert(no_ws(d)) by {
            assert forall|k: int| 0 <= k < d.len() implies !is_ws(#[trigger] d[k]) by {
                assert(d[k] == w[k]);
            }
        }
        lemma_words_solid_run(d);
        assert(!is_ws(w[w.len() - 2]));
        assert(!is_ws(w[w.len() - 1]));
        assert(d.push(w.last()) =~= w);
        let wd = words(d);
        assert(wd.len() == 1 && wd.last() == d);
        assert(wd.drop_last().push(wd.last().push(w.last())) =~= seq![w]);
    }
}

/// After a whitespace char, the words of what follows start afresh.
pub proof fn lemma_words_after_ws(s: Seq<char>, t: Seq<char>)
    requires
        s.len() > 0,
        is_ws(s.last()),
    ensures
        words(s + t) == words(s) + words(t),
    decreases t.len(),
{
    if t.len() == 0 {
        assert(s + t =~= s);
        assert(words(s) + words(t) =~= words(s));
    } else {
        let d = t.drop_last();
        let c = t.last();
        lemma_words_after_ws(s, d);
        assert((s + t).drop_last() =~= s + d);
        assert((s + t).last() == c);
        let ws = words(s + d);
        let wd = words(d);
        if is_ws(c) {
        } else {
            let st = s + t;
            let before = st[st.len() - 2];
            if d.len() > 0 {
                assert(before == d.last());
                if !is_ws(d.last()) {
                    lemma_words_nonempty(d);
                    assert(t[t.len() - 2] == d.last());
                    assert(ws.drop_last().push(ws.last().push(c)) =~= words(s) + wd.drop_last().push(wd.last().push(c)));
                } else {
                    assert(t[t.len() - 2] == d.last());
                    assert(ws.push(seq![c]) =~= words(s) + wd.push(seq![c]));
                }
            } else {
                assert(before == s.last());
                assert(ws.push(seq![c]) =~= words(s) + wd.push(seq![c]));
            }
        }
    }
}

/// A non-whitespace char after a non-whitespace char joins its word.
pub proof fn lemma_words_extend(s: Seq<char>, c: char)
    requires
        s.len() > 0,
        !is_ws(s.last()),
        !is_ws(c),
    ensures
        words(s.push(c)).len() == words(s).len(),
{
    lemma_words_nonempty(s);
    assert(s.push(c).drop_last() =~= s);
    assert(s.push(c)[s.len() - 1] == s.last());
}

/// Words joined by single spaces read back as the same words.
pub proof fn lemma_words_join(ws: Seq<Seq<char>>)
    requires
        ws.len() > 0,
        forall|i: int| 0 <= i < ws.len() ==> #[trigger] ws[i].len() > 0 && no_ws(ws[i]),
    ensures
        words(join(ws, " "@)) == ws,
        join(ws, " "@).len() > 0,
        !is_ws(join(ws, " "@).last()),
    decreases ws.len(),
{
    reveal_strlit(" ");
    let last = ws.last();
    assert(ws[ws.len() - 1] == last);
    assert(last.len() > 0 && no_ws(last));
    assert(!is_ws(last[last.len() - 1]));
    lemma_words_solid_run(last);
    if ws.len() == 1 {
        assert(join(ws, " "@) == ws[0]);
        assert(seq![last] =~= ws);
    } else {
        let d = ws.drop_last();
        assert forall|i: int| 0 <= i < d.len() implies #[trigger] d[i].len() > 0 && no_ws(d[i]) by {
            assert(d[i] == ws[i]);
        }
        lemma_words_join(d);
        let a = join(d, " "@) + " "@;
        assert(a =~= join(d, " "@).push(' '));
        assert(a.drop_last() =~= join(d, " "@));
        assert(is_ws(a.last()));
        assert(words(a) == words(join(d, " "@)));
        lemma_words_after_ws(a, last);
        assert(join(ws, " "@) == a + last);
        assert(d + seq![last] =~= ws);
        assert((a + last).last() == last.last());
    }
}

pub proof fn lemma_words_nonempty(s: Seq<char>)
    ensures
        s.len() > 0 && !is_ws(s.last()) ==> words(s).len() > 0,
        forall|i: int| 0 <= i < words(s).len() ==> #[trigger] words(s)[i].len() > 0,
    decreases s.len(),
{
    if s.len() > 0 {
        lemma_words_nonempty(s.drop_last());
        let w = words(s.drop_last());
        if is_ws(s.last()) {
        } else if s.len() >= 2 && !is_ws(s[s.len() - 2]) && w.len() > 0 {
            let r = w.drop_last().push(w.last().push(s.last()));
            assert forall|i: int| 0 <= i < r.len() implies #[trigger] r[i].len() > 0 by {
                if i < r.len() - 1 {
                    assert(r[i] == w[i]);
                }
            }
        } else {
            let r = w.push(seq![s.last()]);
            assert forall|i: int| 0 <= i < r.len() implies #[trigger] r[i].len() > 0 by {
                if i < r.len() - 1 {
                    assert(r[i] == w[i]);
                }
            }
        }
    }
}


// ------------------------------------------------------------ execution

/// The chars of a list of char vectors.
pub open spec fn vvc(v: Seq<Vec<char>>) -> Seq<Seq<char>> {
    v.map_values(|w: Vec<char>| w@)
}

/// std's `String::push`: appends one char.
#[verifier::external_body]
fn push_char(s: &mut String, c: char)
    ensures
        final(s)@ == old(s)@.push(c),
{
    s.push(c);
}

/// The chars of `s`.
pub fn chars_of(s: &str) -> (v: Vec<char>)
    ensures
        v@ == s@,
{
    let n = s.unicode_len();
    let mut v: Vec<char> = Vec::new();
    let mut i: usize = 0;
    while i < n
        invariant
            i <= n == s@.len(),
            v@ == s@.take(i as int),
        decreases n - i,
    {
        v.push(s.get_char(i));
        i = i + 1;
        proof {
            assert(s@.take(i as int) =~= s@.take(i - 1).push(s@[i - 1]));
        }
    }
    proof {
        assert(s@.take(n as int) =~= s@);
    }
    v
}

/// The string of the chars `v`.
pub fn string_of(v: &[char]) -> (s: String)
    ensures
        s@ == v@,
{
    let mut s = String::new();
    let mut i: usize = 0;
    while i < v.len()
        invariant
            i <= v@.len(),
            s@ == v@.take(i as int),
        decreases v@.len() - i,
    {
        push_char(&mut s, v[i]);
        i = i + 1;
        proof {
            assert(v@.take(i as int) =~= v@.take(i - 1).push(v@[i - 1]));
        }
    }
    proof {
        assert(v@.take(v@.len() as int) =~= v@);
    }
    s
}

/// Appends the chars of `src` to `dst`.
pub fn push_all(dst: &mut Vec<char>, src: &[char])
    ensures
        final(dst)@ == old(dst)@ + src@,
{
    let mut i: usize = 0;
    while i < src.len()
        invariant
            i <= src@.len(),
            dst@ == old(dst)@ + src@.take(i as int),
        decreases src@.len() - i,
    {
        dst.push(src[i]);
        i = i + 1;
        proof {
            assert(src@.take(i as int) =~= src@.take(i - 1).push(src@[i - 1]));
        }
    }
    proof {
        assert(src@.take(src@.len() as int) =~= src@);
    }
}

/// Appends the chars of the string `src` to `dst`.
pub fn push_str(dst: &mut Vec<char>, src: &str)
    ensures
        final(dst)@ == old(dst)@ + src@,
{
    let c = chars_of(src);
    push_all(dst, c.as_slice());
}

/// A fresh copy of `s[a..b]`.
pub fn slice_copy(s: &[char], a: usize, b: usize) -> (r: Vec<char>)
    requires
        a <= b <= s@.len(),
    ensures
        r@ == s@.subrange(a as int, b as int),
{
    let mut r: Vec<char> = Vec::new();
    push_all(&mut r, slice_subrange(s, a, b));
    r
}

/// Whether `p` occurs in `s` at `i`.
pub fn matches_at_exec(s: &[char], p: &[char], i: usize) -> (r: bool)
    ensures
        r == matches_at(s@, p@, i as int),
{
    let n = s.len();
    if i > n || p.len() > n - i {
        return false;
    }
    let mut k: usize = 0;
    while k < p.len()
        invariant
            k <= p@.len(),
            n == s@.len(),
            i + p@.len() <= n,
            forall|j: int| 0 <= j < k ==> s@[i + j] == p@[j],
        decreases p@.len() - k,
    {
        if s[i + k] != p[k] {
            proof {
                assert(s@.subrange(i as int, i + p@.len())[k as int] != p@[k as int]);
            }
            return false;
        }
        k = k + 1;
    }
    proof {
        assert(s@.subrange(i as int, i + p@.len()) =~= p@);
    }
    true
}

/// Whether two char sequences are equal.
pub fn eq_chars(a: &[char], b: &[char]) -> (r: bool)
    ensures
        r == (a@ == b@),
{
    if a.len() != b.len() {
        return false;
    }
    let mut i: usize = 0;
    while i < a.len()
        invariant
            i <= a@.len() == b@.len(),
            forall|k: int| 0 <= k < i ==> a@[k] == b@[k],
        decreases a@.len() - i,
    {
        if a[i] != b[i] {
            return false;
        }
        i = i + 1;
    }
    proof {
        assert(a@ =~= b@);
    }
    true
}

/// Whether the chars `a` spell the string `b`.
pub fn eq_str(a: &[char], b: &str) -> (r: bool)
    ensures
        r == (a@ == b@),
{
    let bc = chars_of(b);
    eq_chars(a, bc.as_slice())
}

/// `str::find` over chars.
pub fn find_exec(s: &[char], p: &[char]) -> (r: Option<usize>)
    ensures
        r matches Some(i) ==> find(s@, p@) == Some(i as int),
        r is None ==> find(s@, p@) is None,
{
    if p.len() > s.len() {
        return None;
    }
    let last = s.len() - p.len();
    let mut i: usize = 0;
    while i <= last
        invariant
            last == s@.len() - p@.len(),
            find(s@, p@) == find_from(s@, p@, i as int),
        decreases last + 1 - i,
    {
        if matches_at_exec(s, p, i) {
            return Some(i);
        }
        if i == last {
            assert(find_from(s@, p@, i + 1) is None);
            return None;
        }
        i = i + 1;
    }
    None
}

/// `str::rfind` over chars.
pub fn rfind_exec(s: &[char], p: &[char]) -> (r: Option<usize>)
    ensures
        r matches Some(i) ==> rfind(s@, p@) == Some(i as int),
        r is None ==> rfind(s@, p@) is None,
{
    if p.len() > s.len() {
        return None;
    }
    let mut j: usize = s.len() - p.len();
    loop
        invariant
            j <= s@.len() - p@.len(),
            rfind(s@, p@) == rfind_below(s@, p@, j + 1),
        decreases j,
    {
        if matches_at_exec(s, p, j) {
            return Some(j);
        }
        if j == 0 {
            assert(rfind_below(s@, p@, 0) is None);
            return None;
        }
        j = j - 1;
    }
}

/// `str::split_once` over chars.
pub fn split_once_exec(s: &[char], p: &[char]) -> (r: Option<(Vec<char>, Vec<char>)>)
    ensures
        r matches Some(parts) ==> split_once(s@, p@) == Some((parts.0@, parts.1@)),
        r is None ==> split_once(s@, p@) is None,
{
    let n = s.len();
    proof {
        lemma_find(s@, p@);
    }
    match find_exec(s, p) {
        Some(i) => Some((slice_copy(s, 0, i), slice_copy(s, i + p.len(), n))),
        None => None,
    }
}

/// `str::rsplit_once` over chars.
pub fn rsplit_once_exec(s: &[char], p: &[char]) -> (r: Option<(Vec<char>, Vec<char>)>)
    ensures
        r matches Some(parts) ==> rsplit_once(s@, p@) == Some((parts.0@, parts.1@)),
        r is None ==> rsplit_once(s@, p@) is None,
{
    let n = s.len();
    proof {
        lemma_rfind_below(s@, p@, s@.len() - p@.len() + 1);
    }
    match rfind_exec(s, p) {
        Some(i) => Some((slice_copy(s, 0, i), slice_copy(s, i + p.len(), n))),
        None => None,
    }
}

/// `str::strip_prefix` over chars.
pub fn strip_prefix_exec(s: &[char], p: &[char]) -> (r: Option<Vec<char>>)
    ensures
        r matches Some(rest) ==> strip_prefix(s@, p@) == Some(rest@),
        r is None ==> strip_prefix(s@, p@) is None,
{
    if matches_at_exec(s, p, 0) {
        proof {
            assert(s@.take(p@.len() as int) =~= s@.subrange(0, p@.len() as int));
        }
        Some(slice_copy(s, p.len(), s.len()))
    } else {
        proof {
            if p@.len() <= s@.len() && s@.take(p@.len() as int) == p@ {
                assert(s@.take(p@.len() as int) =~= s@.subrange(0, p@.len() as int));
            }
        }
        None
    }
}

/// `str::contains` over chars.
pub fn contains_exec(s: &[char], p: &[char]) -> (r: bool)
    ensures
        r == contains(s@, p@),
{
    find_exec(s, p).is_some()
}

/// `str::replacen(from, to, 1)` over chars.
pub fn replace_first_exec(s: &[char], from: &[char], to: &[char]) -> (r: Vec<char>)
    ensures
        r@ == replace_first(s@, from@, to@),
{
    let n = s.len();
    proof {
        lemma_find(s@, from@);
    }
    match find_exec(s, from) {
        Some(i) => {
            let mut r = slice_copy(s, 0, i);
            push_all(&mut r, to);
            push_all(&mut r, slice_subrange(s, i + from.len(), n));
            r
        },
        None => slice_copy(s, 0, s.len()),
    }
}

/// `str::replace(from, to)` over chars, for a non-empty `from`.
pub fn replace_all_exec(s: &[char], from: &[char], to: &[char]) -> (r: Vec<char>)
    requires
        from@.len() > 0,
    ensures
        r@ == replace_all(s@, from@, to@),
{
    let mut out: Vec<char> = Vec::new();
    let mut pos: usize = 0;
    assert(s@.skip(0) =~= s@);
    while pos <= s.len()
        invariant
            pos <= s@.len(),
            from@.len() > 0,
            replace_all(s@, from@, to@) == out@ + replace_all(s@.skip(pos as int), from@, to@),
        decreases s@.len() - pos,
    {
        let rest = slice_subrange(s, pos, s.len());
        proof {
            lemma_find(rest@, from@);
        }
        match find_exec(rest, from) {
            Some(i) => {
                push_all(&mut out, slice_subrange(rest, 0, i));
                push_all(&mut out, to);
                proof {
                    assert(rest@ =~= s@.skip(pos as int));
                    assert(rest@.skip(i + from@.len()) =~= s@.skip(pos + i + from@.len()));
                }
                pos = pos + i + from.len();
            },
            None => {
                push_all(&mut out, rest);
                proof {
                    assert(rest@ =~= s@.skip(pos as int));
                }
                return out;
            },
        }
    }
    out
}

/// `char::is_whitespace`.
pub fn is_ws_exec(c: char) -> (r: bool)
    ensures
        r == is_ws(c),
{
    ('\t' <= c && c <= '\r') || c == ' ' || c == '\u{85}' || c == '\u{a0}' || c == '\u{1680}' || (
    '\u{2000}' <= c && c <= '\u{200a}') || c == '\u{2028}' || c == '\u{2029}' || c == '\u{202f}'
        || c == '\u{205f}' || c == '\u{3000}'
}

/// `str::trim` over chars.
pub fn trim_exec(s: &[char]) -> (r: Vec<char>)
    ensures
        r@ == trim(s@),
{
    let mut a: usize = 0;
    assert(s@.skip(0) =~= s@);
    while a < s.len() && is_ws_exec(s[a])
        invariant
            a <= s@.len(),
            trim_start(s@) == trim_start(s@.skip(a as int)),
        decreases s@.len() - a,
    {
        proof {
            assert(s@.skip(a as int).drop_first() =~= s@.skip(a + 1));
        }
        a = a + 1;
    }
    proof {
        assert(trim_start(s@) == s@.skip(a as int));
        assert(s@.skip(a as int) =~= s@.subrange(a as int, s@.len() as int));
    }
    let mut b: usize = s.len();
    while b > a && is_ws_exec(s[b - 1])
        invariant
            a <= b <= s@.len(),
            trim(s@) == trim_end(s@.subrange(a as int, b as int)),
        decreases b,
    {
        proof {
            assert(s@.subrange(a as int, b as int).drop_last() =~= s@.subrange(a as int, b - 1));
        }
        b = b - 1;
    }
    slice_copy(s, a, b)
}

/// `str::trim_end_matches(c)` over chars.
pub fn trim_end_char_exec(s: &[char], c: char) -> (r: Vec<char>)
    ensures
        r@ == trim_end_char(s@, c),
{
    let mut b: usize = s.len();
    assert(s@.take(b as int) =~= s@);
    while b > 0 && s[b - 1] == c
        invariant
            b <= s@.len(),
            trim_end_char(s@, c) == trim_end_char(s@.take(b as int), c),
        decreases b,
    {
        proof {
            assert(s@.take(b as int).drop_last() =~= s@.take(b - 1));
        }
        b = b - 1;
    }
    slice_copy(s, 0, b)
}

/// `str::split_whitespace` over chars.
pub fn words_exec(s: &[char]) -> (r: Vec<Vec<char>>)
    ensures
        vvc(r@) == words(s@),
{
    let mut done: Vec<Vec<char>> = Vec::new();
    let mut cur: Vec<char> = Vec::new();
    let mut i: usize = 0;
    while i < s.len()
        invariant
            i <= s@.len(),
            words(s@.take(i as int)) == if cur@.len() > 0 { vvc(done@).push(cur@) } else { vvc(done@) },
            (cur@.len() > 0) == (i > 0 && !is_ws(s@[i - 1])),
        decreases s@.len() - i,
    {
        let c = s[i];
        let ghost w = words(s@.take(i as int));
        let ghost d0 = done@;
        let ghost c0 = cur@;
        proof {
            assert(s@.take(i + 1).drop_last() =~= s@.take(i as int));
            assert(s@.take(i + 1).last() == c);
            lemma_words_nonempty(s@.take(i as int));
        }
        if is_ws_exec(c) {
            if cur.len() > 0 {
                done.push(cur);
                cur = Vec::new();
                proof {
                    assert(vvc(done@) =~= vvc(d0).push(c0));
                }
            }
            assert(words(s@.take(i + 1)) == w);
        } else {
            cur.push(c);
            proof {
                if c0.len() > 0 {
                    assert(s@.take(i + 1)[i - 1] == s@[i - 1]);
                    assert(w.drop_last() =~= vvc(d0));
                    assert(w.last() == c0);
                    assert(words(s@.take(i + 1)) == w.drop_last().push(w.last().push(c)));
                    assert(vvc(d0).push(cur@) =~= w.drop_last().push(w.last().push(c)));
                } else {
                    assert(w == vvc(d0));
                    if i > 0 {
                        assert(s@.take(i + 1)[i - 1] == s@[i - 1]);
                    }
                    assert(words(s@.take(i + 1)) == w.push(seq![c]));
                    assert(cur@ =~= seq![c]);
                }
            }
        }
        i = i + 1;
    }
    proof {
        assert(s@.take(s@.len() as int) =~= s@);
    }
    if cur.len() > 0 {
        done.push(cur);
    }
    proof {
        assert(vvc(done@) =~= words(s@));
    }
    done
}

/// `[T]::join(sep)` over char vectors.
pub fn join_exec(ws: &Vec<Vec<char>>, sep: &[char]) -> (r: Vec<char>)
    ensures
        r@ == join(vvc(ws@), sep@),
{
    let mut r: Vec<char> = Vec::new();
    let mut i: usize = 0;
    while i < ws.len()
        invariant
            i <= ws@.len(),
            r@ == join(vvc(ws@).take(i as int), sep@),
        decreases ws@.len() - i,
    {
        proof {
            assert(vvc(ws@).take(i + 1).drop_last() =~= vvc(ws@).take(i as int));
        }
        if i > 0 {
            push_all(&mut r, sep);
        }
        push_all(&mut r, ws[i].as_slice());
        i = i + 1;
        proof {
            if i == 1 {
                assert(vvc(ws@).take(1)[0] == ws@[0]@);
            }
        }
    }
    proof {
        assert(vvc(ws@).take(ws@.len() as int) =~= vvc(ws@));
    }
    r
}

/// The char of a decimal digit.
pub fn digit_exec(d: u64) -> (c: char)
    requires
        d < 10,
    ensures
        c == digit(d as int),
{
    ((d as u8) + 48u8) as char
}

/// The decimal numeral of `n`.
pub fn decimal_exec(n: u64) -> (r: Vec<char>)
    ensures
        r@ == decimal(n as nat),
    decreases n,
{
    if n < 10 {
        let mut r: Vec<char> = Vec::new();
        r.push(digit_exec(n));
        r
    } else {
        let mut r = decimal_exec(n / 10);
        r.push(digit_exec(n % 10));
        r
    }
}

pub proof fn lemma_digits_value_prefix(d: Seq<char>, j: int)
    requires
        0 <= j <= d.len(),
    ensures
        digits_value(d.take(j)) <= digits_value(d),
    decreases d.len() - j,
{
    if j < d.len() {
        lemma_digits_value_prefix(d, j + 1);
        assert(d.take(j + 1).drop_last() =~= d.take(j));
    } else {
        assert(d.take(j) =~= d);
    }
}

/// `str::parse::<u64>` over chars.
pub fn parse_u64_exec(s: &[char]) -> (r: Option<u64>)
    ensures
        r == parse_u64(s@),
{
    let start: usize = if s.len() > 1 && s[0] == '+' { 1 } else { 0 };
    let d = slice_subrange(s, start, s.len());
    proof {
        assert(d@ =~= unsigned_digits(s@));
    }
    if d.len() == 0 {
        return None;
    }
    let mut i: usize = 0;
    while i < d.len()
        invariant
            i <= d@.len(),
            d@ == unsigned_digits(s@),
            forall|k: int| 0 <= k < i ==> is_digit(#[trigger] d@[k]),
        decreases d@.len() - i,
    {
        if !('0' <= d[i] && d[i] <= '9') {
            proof {
                assert(!is_digit(d@[i as int]));
            }
            return None;
        }
        i = i + 1;
    }
    let mut acc: u64 = 0;
    let mut i: usize = 0;
    while i < d.len()
        invariant
            i <= d@.len(),
            forall|k: int| 0 <= k < d@.len() ==> is_digit(#[trigger] d@[k]),
            d@ == unsigned_digits(s@),
            acc == digits_value(d@.take(i as int)),
        decreases d@.len() - i,
    {
        proof {
            assert(d@.take(i + 1).drop_last() =~= d@.take(i as int));
            assert(is_digit(d@[i as int]));
        }
        let v: u64 = (d[i] as u32 - 48u32) as u64;
        assert(v == (d@[i as int] as int - 48));
        match acc.checked_mul(10) {
            Some(m) => match m.checked_add(v) {
                Some(t) => {
                    acc = t;
                },
                None => {
                    proof {
                        lemma_digits_value_prefix(d@, i + 1);
                    }
                    return None;
                },
            },
            None => {
                proof {
                    lemma_digits_value_prefix(d@, i + 1);
                }
                return None;
            },
        }
        i = i + 1;
    }
    proof {
        assert(d@.take(d@.len() as int) =~= d@);
    }
    Some(acc)
}

} // verus!
