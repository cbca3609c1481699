//! Character sequences: white space, trimming and occurrences of one text in another.

use vstd::prelude::*;

verus! {

/// The characters with the Unicode property `White_Space`.
pub open spec fn is_whitespace(c: char) -> bool {
    let n = c as u32;
    ||| 0x09 <= n <= 0x0D
    ||| n == 0x20
    ||| n == 0x85
    ||| n == 0xA0
    ||| n == 0x1680
    ||| 0x2000 <= n <= 0x200A
    ||| n == 0x2028
    ||| n == 0x2029
    ||| n == 0x202F
    ||| n == 0x205F
    ||| n == 0x3000
}

/// Index of the first character of `s` that is not white space; the length of
/// `s` where there is none.
pub open spec fn trim_start(s: Seq<char>) -> int
    decreases s.len(),
{
    if s.len() == 0 || !is_whitespace(s[0]) {
        0
    } else {
        1 + trim_start(s.drop_first())
    }
}

/// Index just behind the last character of `s` that is not white space; 0 where
/// there is none.
pub open spec fn trim_end(s: Seq<char>) -> int
    decreases s.len(),
{
    if s.len() == 0 || !is_whitespace(s.last()) {
        s.len() as int
    } else {
        trim_end(s.drop_last())
    }
}

/// `s` without its leading and trailing white space.
pub open spec fn trimmed(s: Seq<char>) -> Seq<char> {
    if trim_start(s) < trim_end(s) {
        s.subrange(trim_start(s), trim_end(s))
    } else {
        Seq::empty()
    }
}

/// `part` stands in `text` at index `at`.
pub open spec fn occurs_at(text: Seq<char>, part: Seq<char>, at: int) -> bool {
    &&& 0 <= at
    &&& at + part.len() <= text.len()
    &&& text.subrange(at, at + part.len()) == part
}

/// `part` stands somewhere in `text`.
pub open spec fn occurs_in(text: Seq<char>, part: Seq<char>) -> bool {
    exists|at: int| occurs_at(text, part, at)
}

/// `trim_start(s)` is the one index with only white space before it and none at it.
pub proof fn lemma_trim_start(s: Seq<char>, k: int)
    requires
        0 <= k <= s.len(),
        forall|j: int| 0 <= j < k ==> is_whitespace(#[trigger] s[j]),
        k < s.len() ==> !is_whitespace(s[k]),
    ensures
        trim_start(s) == k,
    decreases k,
{
    if k > 0 {
        let rest = s.drop_first();
        assert(is_whitespace(s[0]));
        assert forall|j: int| 0 <= j < k - 1 implies is_whitespace(#[trigger] rest[j]) by {
            assert(rest[j] == s[j + 1]);
        }
        if k < s.len() {
            assert(rest[k - 1] == s[k]);
        }
        lemma_trim_start(rest, k - 1);
    }
}

/// `trim_end(s)` is the one index with only white space from it on and none just before it.
pub proof fn lemma_trim_end(s: Seq<char>, k: int)
    requires
        0 <= k <= s.len(),
        forall|j: int| k <= j < s.len() ==> is_whitespace(#[trigger] s[j]),
        0 < k ==> !is_whitespace(s[k - 1]),
    ensures
        trim_end(s) == k,
    decreases s.len() - k,
{
    if k < s.len() {
        let rest = s.drop_last();
        assert(is_whitespace(s.last()));
        assert forall|j: int| k <= j < rest.len() implies is_whitespace(#[trigger] rest[j]) by {
            assert(rest[j] == s[j]);
        }
        if 0 < k {
            assert(rest[k - 1] == s[k - 1]);
        }
        lemma_trim_end(rest, k);
    }
}

/// Where the trimmed text begins and ends: white space outside, none at either end.
pub proof fn lemma_trim_bounds(s: Seq<char>)
    ensures
        0 <= trim_start(s) <= s.len(),
        0 <= trim_end(s) <= s.len(),
        forall|j: int| 0 <= j < trim_start(s) ==> is_whitespace(#[trigger] s[j]),
        forall|j: int| trim_end(s) <= j < s.len() ==> is_whitespace(#[trigger] s[j]),
        trim_start(s) < s.len() ==> !is_whitespace(s[trim_start(s)]),
        0 < trim_end(s) ==> !is_whitespace(s[trim_end(s) - 1]),
        trim_start(s) < s.len() <==> 0 < trim_end(s),
        trim_start(s) < s.len() ==> trim_start(s) < trim_end(s),
    decreases s.len(),
{
    if s.len() > 0 {
        let front = s.drop_last();
        let back = s.drop_first();
        lemma_trim_bounds(front);
        lemma_trim_bounds(back);
        if is_whitespace(s[0]) {
            assert forall|j: int| 0 <= j < trim_start(s) implies is_whitespace(#[trigger] s[j]) by {
                if j > 0 {
                    assert(s[j] == back[j - 1]);
                }
            }
            if trim_start(s) < s.len() {
                assert(s[trim_start(s)] == back[trim_start(back)]);
            }
        }
        if is_whitespace(s.last()) {
            assert forall|j: int| trim_end(s) <= j < s.len() implies is_whitespace(#[trigger] s[j]) by {
                if j < s.len() - 1 {
                    assert(s[j] == front[j]);
                }
            }
            if 0 < trim_end(s) {
                assert(s[trim_end(s) - 1] == front[trim_end(front) - 1]);
            }
        }
        if trim_start(s) < s.len() && trim_end(s) <= trim_start(s) {
            assert(is_whitespace(s[trim_start(s)]));
        }
        if 0 < trim_end(s) && trim_start(s) >= s.len() {
            assert(is_whitespace(s[trim_end(s) - 1]));
        }
    }
}

/// Trimming a trimmed text changes nothing.
pub proof fn lemma_trimmed_twice(s: Seq<char>)
    ensures
        trimmed(trimmed(s)) == trimmed(s),
{
    lemma_trim_bounds(s);
    let t = trimmed(s);
    if t.len() > 0 {
        lemma_trim_start(t, 0);
        lemma_trim_end(t, t.len() as int);
        assert(t.subrange(0, t.len() as int) =~= t);
    } else {
        assert(trimmed(t) =~= t);
    }
}

/// Tells whether `c` is white space.
pub fn char_is_whitespace(c: char) -> (b: bool)
    ensures
        b == is_whitespace(c),
{
    let n: u32 = c as u32;
    (0x09 <= n && n <= 0x0D) || n == 0x20 || n == 0x85 || n == 0xA0 || n == 0x1680 || (0x2000 <= n
        && n <= 0x200A) || n == 0x2028 || n == 0x2029 || n == 0x202F || n == 0x205F || n == 0x3000
}

/// The characters of `s`, in order.
pub fn chars_of(s: &str) -> (v: Vec<char>)
    ensures
        v@ == s@,
{
    let mut v: Vec<char> = Vec::new();
    for c in it: s.chars()
        invariant
            it.seq() == s@,
            v@ == s@.take(it.index() as int),
    {
        v.push(c);
    }
    v
}

/// The range of `chars` that is left when leading and trailing white space is
/// taken away: `(from, to)`, with `from == to` where nothing is left.
pub fn trim_range(chars: &Vec<char>) -> (range: (usize, usize))
    ensures
        range.0 <= range.1 <= chars.len(),
        chars@.subrange(range.0 as int, range.1 as int) == trimmed(chars@),
        range.0 == trim_start(chars@),
        range.0 < range.1 ==> range.1 == trim_end(chars@),
{
    let n: usize = chars.len();
    let mut from: usize = 0;
    while from < n && char_is_whitespace(chars[from])
        invariant
            from <= n == chars.len(),
            forall|j: int| 0 <= j < from ==> is_whitespace(#[trigger] chars@[j]),
        decreases n - from,
    {
        from += 1;
    }
    let mut to: usize = n;
    while to > from && char_is_whitespace(chars[to - 1])
        invariant
            from <= to <= n == chars.len(),
            forall|j: int| to <= j < n ==> is_whitespace(#[trigger] chars@[j]),
        decreases to,
    {
        to -= 1;
    }
    proof {
        lemma_trim_start(chars@, from as int);
        lemma_trim_bounds(chars@);
        if from < to {
            lemma_trim_end(chars@, to as int);
        } else {
            assert(chars@.subrange(from as int, to as int) =~= Seq::<char>::empty());
        }
    }
    (from, to)
}

} // verus!
