//! The choice of one reference of the list by the number typed for it.

use vstd::prelude::*;
use crate::display::{decimal, is_line_of, ListingLine};
use crate::reference::{BibTeXReference, Reference};
use crate::text::{chars_of, lemma_trim_end, lemma_trim_start, trim_range, trimmed};

verus! {

/// `c` is one of the digits `0` to `9`.
pub open spec fn is_digit(c: char) -> bool {
    0x30 <= c as u32 <= 0x39
}

/// The number that a sequence of digits denotes; 0 for the empty one.
pub open spec fn digits_value(digits: Seq<char>) -> nat
    decreases digits.len(),
{
    if digits.len() == 0 {
        0
    } else {
        digits_value(digits.drop_last()) * 10 + (digits.last() as u32 - 0x30) as nat
    }
}

/// Every character of `s` is a digit.
pub open spec fn all_digits(s: Seq<char>) -> bool {
    forall|i: int| 0 <= i < s.len() ==> is_digit(#[trigger] s[i])
}

/// The number that `s` denotes: `s` is one or more digits, with or without a
/// plus sign in front; any other text denotes none.
pub open spec fn numeral_value(s: Seq<char>) -> Option<nat> {
    let digits = if s.len() > 0 && s[0] == '+' {
        s.drop_first()
    } else {
        s
    };
    if digits.len() > 0 && all_digits(digits) {
        Some(digits_value(digits))
    } else {
        None
    }
}

/// The number typed on a line of input, white space around it set aside.
pub open spec fn selection_in(input: Seq<char>) -> Option<nat> {
    numeral_value(trimmed(input))
}

/// The number of a beginning of `digits` is at most that of the whole.
proof fn lemma_value_grows(digits: Seq<char>, k: int)
    requires
        0 <= k <= digits.len(),
    ensures
        digits_value(digits.take(k)) <= digits_value(digits),
    decreases digits.len() - k,
{
    if k < digits.len() {
        lemma_value_grows(digits.drop_last(), k);
        assert(digits.drop_last().take(k) =~= digits.take(k));
    } else {
        assert(digits.take(k) =~= digits);
    }
}

/// The decimal numeral of a number is made of digits and denotes that number.
pub proof fn lemma_decimal_denotes(n: nat)
    ensures
        decimal(n).len() > 0,
        all_digits(decimal(n)),
        digits_value(decimal(n)) == n,
    decreases n,
{
    reveal_strlit("0123456789");
    if n < 10 {
        assert(decimal(n).drop_last() =~= Seq::<char>::empty());
        assert(digits_value(decimal(n).drop_last()) == 0);
    } else {
        lemma_decimal_denotes(n / 10);
        let front = decimal(n / 10);
        assert(decimal(n).drop_last() =~= front);
        assert forall|i: int| 0 <= i < decimal(n).len() implies is_digit(#[trigger] decimal(n)[i]) by {
            if i < front.len() {
                assert(decimal(n)[i] == front[i]);
            }
        }
    }
}

/// The number in front of a line of the list, typed in, is read as the
/// number of that line; `select_reference` then gives the reference of the line.
pub proof fn lemma_number_selects_its_line(line: ListingLine, index: int, r: Reference)
    requires
        0 <= index,
        is_line_of(line, index, r),
    ensures
        selection_in(line.number@) == Some((index + 1) as nat),
{
    reveal_strlit(" ");
    let n = (index + 1) as nat;
    let numeral = decimal(n);
    let shown = line.number@;
    lemma_decimal_denotes(n);
    assert(is_digit(numeral[0]));
    assert(is_digit(numeral.last()));
    if n < 10 {
        assert(shown.len() == numeral.len() + 1);
        assert(shown[0] == ' ');
        assert(shown[1] == numeral[0]);
        assert(shown.last() == numeral.last());
        lemma_trim_start(shown, 1);
        lemma_trim_end(shown, shown.len() as int);
        assert(shown.subrange(1, shown.len() as int) =~= numeral);
    } else {
        lemma_trim_start(shown, 0);
        lemma_trim_end(shown, shown.len() as int);
        assert(shown.subrange(0, shown.len() as int) =~= numeral);
    }
}

/// Reads the number typed on a line of input.
///
/// The line holds a number when, white space around it set aside, it is one
/// or more digits, with or without a plus sign in front. A number too large
/// for `usize` is not read.
pub fn parse_selection(input: &str) -> (r: Option<usize>)
    ensures
        r == match selection_in(input@) {
            Some(n) => if n <= usize::MAX {
                Some(n as usize)
            } else {
                None
            },
            None => None,
        },
{
    let chars = chars_of(input);
    let (from, to) = trim_range(&chars);
    let ghost typed = chars@.subrange(from as int, to as int);
    let mut i: usize = from;
    if i < to && chars[i] == '+' {
        i += 1;
    }
    let start: usize = i;
    let ghost digits = chars@.subrange(start as int, to as int);
    proof {
        if start > from {
            assert(typed.drop_first() =~= digits);
        }
    }
    if start == to {
        return None;
    }
    let mut value: usize = 0;
    assert(digits.take(0) =~= Seq::<char>::empty());
    while i < to
        invariant
            start <= i <= to <= chars.len(),
            digits == chars@.subrange(start as int, to as int),
            selection_in(input@) == if all_digits(digits) {
                Some(digits_value(digits))
            } else {
                None
            },
            all_digits(digits.take(i - start)),
            value == digits_value(digits.take(i - start)),
        decreases to - i,
    {
        let n: u32 = chars[i] as u32;
        if n < 0x30 || n > 0x39 {
            assert(!is_digit(digits[i - start]));
            return None;
        }
        let d: usize = (n - 0x30) as usize;
        proof {
            let next = digits.take(i - start + 1);
            assert(next.drop_last() =~= digits.take(i - start));
            assert(next.last() == chars@[i as int]);
            assert forall|k: int| 0 <= k < next.len() implies is_digit(#[trigger] next[k]) by {
                if k < next.len() - 1 {
                    assert(next[k] == digits.take(i - start)[k]);
                }
            }
            lemma_value_grows(digits, i - start + 1);
        }
        if value > (usize::MAX - d) / 10 {
            return None;
        }
        value = value * 10 + d;
        i += 1;
    }
    assert(digits.take(i - start) =~= digits);
    Some(value)
}

/// The reference with the number `selection` in a list numbered from 1.
pub fn select_reference(bib_refs: &Vec<BibTeXReference>, selection: usize) -> (r: Option<
    &BibTeXReference,
>)
    ensures
        match r {
            Some(chosen) => 1 <= selection <= bib_refs.len() && *chosen == bib_refs[selection - 1],
            None => selection == 0 || selection > bib_refs.len(),
        },
{
    if 1 <= selection && selection <= bib_refs.len() {
        Some(&bib_refs[selection - 1])
    } else {
        None
    }
}

} // verus!
