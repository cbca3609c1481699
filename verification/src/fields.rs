//! The field grammar of a citation: a key, a braced value on one line, and the
//! ordered pair of two such fields.
//!
//! A field is a key such as `AUTHOR = {` followed by a value and a closing
//! brace. The value is not empty and holds no line break; it may hold braces,
//! so one key can head several fields that differ in their closing brace. A
//! citation is matched by a pair of fields, the second starting behind the
//! closing brace of the first, with any text in between.

use vstd::prelude::*;
use crate::text::occurs_at;

verus! {

/// No line break stands in `text` from `from` up to, not including, `to`.
pub open spec fn single_line(text: Seq<char>, from: int, to: int) -> bool {
    forall|k: int| from <= k < to ==> #[trigger] text[k] != '\n'
}

/// A field of `text`: `key` stands at `at`, and `close` holds a closing brace
/// that ends a value which is not empty and has no line break.
pub open spec fn field_at(text: Seq<char>, key: Seq<char>, at: int, close: int) -> bool {
    &&& occurs_at(text, key, at)
    &&& at + key.len() < close < text.len()
    &&& text[close] == '}'
    &&& single_line(text, at + key.len(), close)
}

/// The value of the field whose key stands at `at` and whose brace closes at `close`.
pub open spec fn field_value(text: Seq<char>, key: Seq<char>, at: int, close: int) -> Seq<char> {
    text.subrange(at + key.len(), close)
}

/// Some field with `key` starts at `at`.
pub open spec fn field_starts_at(text: Seq<char>, key: Seq<char>, at: int) -> bool {
    exists|close: int| field_at(text, key, at, close)
}

/// Where two fields stand: the index of each key and of each closing brace.
pub struct FieldPair {
    pub first_at: int,
    pub first_close: int,
    pub second_at: int,
    pub second_close: int,
}

/// `p` marks a field with key `first` and, behind its closing brace, a field
/// with key `second`.
pub open spec fn is_pair(text: Seq<char>, first: Seq<char>, second: Seq<char>, p: FieldPair) -> bool {
    &&& field_at(text, first, p.first_at, p.first_close)
    &&& field_at(text, second, p.second_at, p.second_close)
    &&& p.first_close < p.second_at
}

/// The order of preference among pairs: the earliest first field, with the
/// longest value it can have; then the earliest second field, with the longest
/// value it can have.
pub open spec fn preferred_to(p: FieldPair, q: FieldPair) -> bool {
    ||| p.first_at < q.first_at
    ||| p.first_at == q.first_at && p.first_close > q.first_close
    ||| p.first_at == q.first_at && p.first_close == q.first_close && p.second_at < q.second_at
    ||| p.first_at == q.first_at && p.first_close == q.first_close && p.second_at == q.second_at
        && p.second_close >= q.second_close
}

/// `p` is the match: a pair that is preferred to every pair of `text`.
pub open spec fn is_match(text: Seq<char>, first: Seq<char>, second: Seq<char>, p: FieldPair) -> bool {
    &&& is_pair(text, first, second, p)
    &&& forall|q: FieldPair| #[trigger] is_pair(text, first, second, q) ==> preferred_to(p, q)
}

/// `f` holds at `k`.
spec fn holds_at(f: spec_fn(int) -> bool, k: int) -> bool {
    f(k)
}

/// The least index from `lo` on at which `f` holds, given one at which it does.
proof fn lemma_least(f: spec_fn(int) -> bool, lo: int, x: int) -> (m: int)
    requires
        lo <= x,
        holds_at(f, x),
    ensures
        lo <= m <= x,
        holds_at(f, m),
        forall|k: int| lo <= k < m ==> !#[trigger] holds_at(f, k),
    decreases x - lo,
{
    if exists|k: int| lo <= k < x && #[trigger] holds_at(f, k) {
        let k = choose|k: int| lo <= k < x && #[trigger] holds_at(f, k);
        lemma_least(f, lo, k)
    } else {
        x
    }
}

/// The greatest index up to `hi` at which `f` holds, given one at which it does.
proof fn lemma_greatest(f: spec_fn(int) -> bool, hi: int, x: int) -> (m: int)
    requires
        x <= hi,
        holds_at(f, x),
    ensures
        x <= m <= hi,
        holds_at(f, m),
        forall|k: int| m < k <= hi ==> !#[trigger] holds_at(f, k),
    decreases hi - x,
{
    if exists|k: int| x < k <= hi && #[trigger] holds_at(f, k) {
        let k = choose|k: int| x < k <= hi && #[trigger] holds_at(f, k);
        lemma_greatest(f, hi, k)
    } else {
        x
    }
}

/// A text has at most one match.
pub proof fn lemma_match_unique(
    text: Seq<char>,
    first: Seq<char>,
    second: Seq<char>,
    p: FieldPair,
    q: FieldPair,
)
    requires
        is_match(text, first, second, p),
        is_match(text, first, second, q),
    ensures
        p == q,
{
    assert(preferred_to(p, q));
    assert(preferred_to(q, p));
}

/// A text in which some pair stands has a match.
pub proof fn lemma_match_exists(text: Seq<char>, first: Seq<char>, second: Seq<char>, q: FieldPair)
    requires
        is_pair(text, first, second, q),
    ensures
        exists|p: FieldPair| is_match(text, first, second, p),
{
    let n = text.len() as int;
    let starts = |a: int| exists|p: FieldPair| #[trigger]
            is_pair(text, first, second, p) && p.first_at == a;
    assert(holds_at(starts, q.first_at));
    let a = lemma_least(starts, 0, q.first_at);
    let closes = |c: int| exists|p: FieldPair| #[trigger]
            is_pair(text, first, second, p) && p.first_at == a && p.first_close == c;
    let pa = choose|p: FieldPair| #[trigger]
        is_pair(text, first, second, p) && p.first_at == a;
    assert(holds_at(closes, pa.first_close));
    let c = lemma_greatest(closes, n, pa.first_close);
    let follows = |t: int| exists|p: FieldPair| #[trigger]
            is_pair(text, first, second, p) && p.first_at == a && p.first_close == c && p.second_at
                == t;
    let pc = choose|p: FieldPair| #[trigger]
        is_pair(text, first, second, p) && p.first_at == a && p.first_close == c;
    assert(holds_at(follows, pc.second_at));
    let t = lemma_least(follows, 0, pc.second_at);
    let ends = |d: int| exists|p: FieldPair| #[trigger]
            is_pair(text, first, second, p) && p.first_at == a && p.first_close == c && p.second_at
                == t && p.second_close == d;
    let pt = choose|p: FieldPair| #[trigger]
        is_pair(text, first, second, p) && p.first_at == a && p.first_close == c && p.second_at
            == t;
    assert(holds_at(ends, pt.second_close));
    let d = lemma_greatest(ends, n, pt.second_close);
    let best = choose|p: FieldPair| #[trigger]
        is_pair(text, first, second, p) && p.first_at == a && p.first_close == c && p.second_at
            == t && p.second_close == d;
    assert forall|o: FieldPair| #[trigger] is_pair(text, first, second, o) implies preferred_to(
        best,
        o,
    ) by {
        assert(holds_at(starts, o.first_at));
        if o.first_at == a {
            assert(holds_at(closes, o.first_close));
            if o.first_close == c {
                assert(holds_at(follows, o.second_at));
                if o.second_at == t {
                    assert(holds_at(ends, o.second_close));
                }
            }
        }
    }
    assert(is_match(text, first, second, best));
}

/// The pair `p` moved by `by` indices.
pub open spec fn moved(p: FieldPair, by: int) -> FieldPair {
    FieldPair {
        first_at: p.first_at + by,
        first_close: p.first_close + by,
        second_at: p.second_at + by,
        second_close: p.second_close + by,
    }
}

/// A field of a text is a field of each part of the text that holds it whole.
pub proof fn lemma_field_of_part(
    text: Seq<char>,
    from: int,
    to: int,
    key: Seq<char>,
    at: int,
    close: int,
)
    requires
        0 <= from <= at,
        close < to <= text.len(),
        field_at(text, key, at, close),
    ensures
        field_at(text.subrange(from, to), key, at - from, close - from),
{
    let part = text.subrange(from, to);
    assert(part.subrange(at - from, at - from + key.len()) =~= text.subrange(at, at + key.len()));
    assert forall|k: int| at - from + key.len() <= k < close - from implies #[trigger] part[k]
        != '\n' by {
        assert(part[k] == text[k + from]);
    }
}

/// A field of a part of a text is a field of the text.
pub proof fn lemma_field_of_whole(
    text: Seq<char>,
    from: int,
    to: int,
    key: Seq<char>,
    at: int,
    close: int,
)
    requires
        0 <= from <= to <= text.len(),
        field_at(text.subrange(from, to), key, at, close),
    ensures
        field_at(text, key, at + from, close + from),
{
    let part = text.subrange(from, to);
    assert(text.subrange(at + from, at + from + key.len()) =~= part.subrange(at, at + key.len()));
    assert(text[close + from] == part[close]);
    assert forall|k: int| at + from + key.len() <= k < close + from implies #[trigger] text[k]
        != '\n' by {
        assert(text[k] == part[k - from]);
    }
}

/// The match of a text is, moved, the match of each part of the text that
/// holds every pair of the text whole.
pub proof fn lemma_match_of_part(
    text: Seq<char>,
    from: int,
    to: int,
    first: Seq<char>,
    second: Seq<char>,
    p: FieldPair,
)
    requires
        0 <= from <= to <= text.len(),
        is_match(text, first, second, p),
        forall|q: FieldPair| #[trigger]
            is_pair(text, first, second, q) ==> from <= q.first_at && q.second_close < to,
    ensures
        is_match(text.subrange(from, to), first, second, moved(p, -from)),
{
    let part = text.subrange(from, to);
    lemma_field_of_part(text, from, to, first, p.first_at, p.first_close);
    lemma_field_of_part(text, from, to, second, p.second_at, p.second_close);
    assert forall|q: FieldPair| #[trigger] is_pair(part, first, second, q) implies preferred_to(
        moved(p, -from),
        q,
    ) by {
        lemma_field_of_whole(text, from, to, first, q.first_at, q.first_close);
        lemma_field_of_whole(text, from, to, second, q.second_at, q.second_close);
        assert(is_pair(text, first, second, moved(q, from)));
    }
}

/// A pair that was found in a text, as indices into it.
#[derive(Clone, Copy, Debug)]
pub struct FoundPair {
    pub first_at: usize,
    pub first_close: usize,
    pub second_at: usize,
    pub second_close: usize,
}

impl View for FoundPair {
    type V = FieldPair;

    open spec fn view(&self) -> FieldPair {
        FieldPair {
            first_at: self.first_at as int,
            first_close: self.first_close as int,
            second_at: self.second_at as int,
            second_close: self.second_close as int,
        }
    }
}

/// Tells whether `key` stands in `text` at `at`.
pub fn key_at(text: &Vec<char>, key: &Vec<char>, at: usize) -> (b: bool)
    ensures
        b == occurs_at(text@, key@, at as int),
{
    let n: usize = text.len();
    let m: usize = key.len();
    if at > n || m > n - at {
        return false;
    }
    let mut i: usize = 0;
    while i < m
        invariant
            n == text.len(),
            m == key.len(),
            at + m <= n,
            i <= m,
            forall|j: int| 0 <= j < i ==> text@[at + j] == #[trigger] key@[j],
        decreases m - i,
    {
        if text[at + i] != key[i] {
            assert(text@.subrange(at as int, at + m)[i as int] == text@[at + i]);
            return false;
        }
        i += 1;
    }
    assert(text@.subrange(at as int, at + m) =~= key@);
    true
}

/// The last closing brace before `limit` of a field whose key stands at `at`.
pub fn closing_brace(text: &Vec<char>, key: &Vec<char>, at: usize, limit: usize) -> (r: Option<usize>)
    ensures
        match r {
            Some(close) => {
                &&& close < limit
                &&& field_at(text@, key@, at as int, close as int)
                &&& forall|c: int| c < limit && field_at(text@, key@, at as int, c) ==> c <= close
            },
            None => forall|c: int| c < limit ==> !field_at(text@, key@, at as int, c),
        },
{
    if !key_at(text, key, at) {
        return None;
    }
    let n: usize = text.len();
    let start: usize = at + key.len();
    let mut k: usize = start;
    let mut found: Option<usize> = None;
    while k < n && k < limit && text[k] != '\n'
        invariant
            n == text.len(),
            start == at + key.len(),
            start <= k <= n,
            single_line(text@, start as int, k as int),
            found matches Some(c) ==> start < c < k && c < limit && text@[c as int] == '}',
            forall|c: int| start < c < k && #[trigger] text@[c] == '}' ==> found is Some && c
                <= found->0,
        decreases n - k,
    {
        if k > start && text[k] == '}' {
            found = Some(k);
        }
        k += 1;
    }
    found
}

/// The last index at which a field with `key` starts.
pub fn last_field(text: &Vec<char>, key: &Vec<char>) -> (r: Option<usize>)
    ensures
        match r {
            Some(at) => {
                &&& field_starts_at(text@, key@, at as int)
                &&& forall|t: int| #[trigger] field_starts_at(text@, key@, t) ==> t <= at
            },
            None => forall|t: int| !#[trigger] field_starts_at(text@, key@, t),
        },
{
    let n: usize = text.len();
    let mut at: usize = n;
    while at > 0
        invariant
            n == text.len(),
            at <= n,
            forall|t: int| at <= t ==> !#[trigger] field_starts_at(text@, key@, t),
        decreases at,
    {
        at -= 1;
        if closing_brace(text, key, at, n).is_some() {
            return Some(at);
        }
    }
    None
}

/// The match of `text`: the pair of a field with key `first` and a later field
/// with key `second` that is preferred to all others, if there is any pair.
pub fn find_pair(text: &Vec<char>, first: &Vec<char>, second: &Vec<char>) -> (r: Option<FoundPair>)
    ensures
        match r {
            Some(p) => is_match(text@, first@, second@, p@),
            None => forall|q: FieldPair| !#[trigger] is_pair(text@, first@, second@, q),
        },
{
    let n: usize = text.len();
    let last: usize = match last_field(text, second) {
        Some(at) => at,
        None => {
            assert forall|q: FieldPair| !#[trigger] is_pair(text@, first@, second@, q) by {
                if is_pair(text@, first@, second@, q) {
                    assert(field_starts_at(text@, second@, q.second_at));
                }
            }
            return None;
        },
    };
    assert forall|q: FieldPair| #[trigger] is_pair(text@, first@, second@, q) implies q.second_at
        <= last by {
        assert(field_starts_at(text@, second@, q.second_at));
    }
    let mut a: usize = 0;
    while a < last
        invariant
            n == text.len(),
            last < n,
            a <= last,
            field_starts_at(text@, second@, last as int),
            forall|q: FieldPair| #[trigger] is_pair(text@, first@, second@, q) ==> q.second_at <= last,
            forall|q: FieldPair| #[trigger] is_pair(text@, first@, second@, q) ==> a <= q.first_at,
        decreases last - a,
    {
        if let Some(a_close) = closing_brace(text, first, a, last) {
            let mut t: usize = a_close + 1;
            let mut t_close: Option<usize> = closing_brace(text, second, t, n);
            while t_close.is_none()
                invariant
                    n == text.len(),
                    a_close < t <= last < n,
                    field_starts_at(text@, second@, last as int),
                    forall|s: int| a_close < s < t ==> !#[trigger] field_starts_at(text@, second@, s),
                    match t_close {
                        Some(close) => {
                            &&& field_at(text@, second@, t as int, close as int)
                            &&& forall|c: int| field_at(text@, second@, t as int, c) ==> c <= close
                        },
                        None => !field_starts_at(text@, second@, t as int),
                    },
                decreases last - t,
            {
                t += 1;
                t_close = closing_brace(text, second, t, n);
            }
            let found = FoundPair {
                first_at: a,
                first_close: a_close,
                second_at: t,
                second_close: t_close.unwrap(),
            };
            assert forall|q: FieldPair| #[trigger] is_pair(text@, first@, second@, q) implies preferred_to(
                found@,
                q,
            ) by {
                assert(field_starts_at(text@, second@, q.second_at));
            }
            return Some(found);
        }
        a += 1;
    }
    None
}

} // verus!
