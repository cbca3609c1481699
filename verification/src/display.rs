//! The numbered list of references: labels cut to the width of a line, and
//! the line that sums up a search.

use vstd::prelude::*;
use crate::reference::{label, BibTeXReference, Reference};

verus! {

/// The width of a line of the list.
pub const MAX_LINE_LENGTH: usize = 99;

/// The part of a line that is kept for the number in front of a label and the
/// dots behind it.
pub const LINE_MARGIN: usize = 7;

/// What stands behind a label that was cut.
pub const ELLIPSIS: &'static str = "...";

/// What stands between the number and the label.
pub const NUMBER_END: &'static str = ". ";

/// The summary of a search in a page without citation blocks.
pub const NO_BLOCKS: &'static str = "Found no articles. Do you have access to MathSciNet?";

/// The summary of a search in a page whose citation blocks hold no reference.
pub const NO_REFERENCES: &'static str =
    "Found no articles: no citation of the page could be read. Has its format changed?";

/// The decimal digit for `d`, which is below 10.
pub open spec fn digit(d: int) -> char {
    "0123456789"@[d]
}

/// The decimal numeral of `n`.
pub open spec fn decimal(n: nat) -> Seq<char>
    decreases n,
{
    if n < 10 {
        seq![digit(n as int)]
    } else {
        decimal(n / 10).push(digit((n % 10) as int))
    }
}

/// A label as the list shows it: whole where it fits the line, else its
/// beginning and three dots.
pub open spec fn shown(label: Seq<char>) -> Seq<char> {
    if label.len() > MAX_LINE_LENGTH - LINE_MARGIN {
        label.take(MAX_LINE_LENGTH - LINE_MARGIN) + ELLIPSIS@
    } else {
        label
    }
}

/// The number in front of a label, two characters wide up to 99.
pub open spec fn number_label(number: nat) -> Seq<char> {
    if number < 10 {
        " "@ + decimal(number)
    } else {
        decimal(number)
    }
}

/// The summary of a search that found `blocks` citation blocks and read
/// `references` references out of them.
pub open spec fn summary_text(blocks: nat, references: nat) -> Seq<char> {
    if references > 0 {
        "Found "@ + decimal(references) + " articles: \n"@
    } else if blocks == 0 {
        NO_BLOCKS@
    } else {
        NO_REFERENCES@
    }
}

/// One line of the list: the number of a reference and its label.
#[derive(Clone, Debug, PartialEq, Eq)]
pub struct ListingLine {
    /// The number, counted from 1.
    pub number: String,
    /// The label, cut to the width of the line.
    pub label: String,
}

/// The line of the list for the reference `r` at index `index`.
pub open spec fn is_line_of(line: ListingLine, index: int, r: Reference) -> bool {
    &&& line.number@ == number_label((index + 1) as nat)
    &&& line.label@ == shown(label(r))
}

/// A line of the list as text: the number, a dot and the label.
pub open spec fn line_text(line: ListingLine) -> Seq<char> {
    line.number@ + NUMBER_END@ + line.label@
}

/// A shown label is never wider than the line without its margin, the dots
/// counted in; a label that fits is shown as it is.
pub proof fn lemma_shown_fits(label: Seq<char>)
    ensures
        shown(label).len() <= MAX_LINE_LENGTH - LINE_MARGIN + ELLIPSIS@.len(),
        ELLIPSIS@.len() == 3,
        label.len() <= MAX_LINE_LENGTH - LINE_MARGIN ==> shown(label) == label,
        label.len() > MAX_LINE_LENGTH - LINE_MARGIN ==> shown(label).take(
            MAX_LINE_LENGTH - LINE_MARGIN,
        ) == label.take(MAX_LINE_LENGTH - LINE_MARGIN),
{
    reveal_strlit("...");
    if label.len() > MAX_LINE_LENGTH - LINE_MARGIN {
        let kept = label.take(MAX_LINE_LENGTH - LINE_MARGIN);
        assert((kept + ELLIPSIS@).take(MAX_LINE_LENGTH - LINE_MARGIN) =~= kept);
    }
}

/// Each of the first 99 lines of a list fits the width of a line.
pub proof fn lemma_line_fits(line: ListingLine, index: int, r: Reference)
    requires
        0 <= index < 99,
        is_line_of(line, index, r),
    ensures
        line_text(line).len() <= MAX_LINE_LENGTH,
{
    reveal_strlit(" ");
    reveal_strlit(". ");
    lemma_shown_fits(label(r));
    let number = (index + 1) as nat;
    if number >= 10 {
        assert(decimal(number / 10).len() == 1);
    }
}

impl ListingLine {
    /// The line as text: the number, a dot and the label.
    pub fn to_string(&self) -> (text: String)
        ensures
            text@ == line_text(*self),
    {
        let mut text = self.number.clone();
        text.append(NUMBER_END);
        text.append(self.label.as_str());
        text
    }
}

/// The decimal digit for `d` as a text.
fn digit_text(d: usize) -> (text: &'static str)
    requires
        d < 10,
    ensures
        text@ == seq![digit(d as int)],
{
    proof {
        reveal_strlit("0123456789");
        reveal_strlit("0");
        reveal_strlit("1");
        reveal_strlit("2");
        reveal_strlit("3");
        reveal_strlit("4");
        reveal_strlit("5");
        reveal_strlit("6");
        reveal_strlit("7");
        reveal_strlit("8");
        reveal_strlit("9");
    }
    let text = match d {
        0 => "0",
        1 => "1",
        2 => "2",
        3 => "3",
        4 => "4",
        5 => "5",
        6 => "6",
        7 => "7",
        8 => "8",
        _ => "9",
    };
    assert(text@ =~= seq![digit(d as int)]);
    text
}

/// The decimal numeral of `n`.
pub fn decimal_string(n: usize) -> (numeral: String)
    ensures
        numeral@ == decimal(n as nat),
    decreases n,
{
    if n < 10 {
        digit_text(n).to_owned()
    } else {
        let mut numeral = decimal_string(n / 10);
        numeral.append(digit_text(n % 10));
        numeral
    }
}

/// The label of a reference as the list shows it.
pub fn shown_label(bib_ref: &BibTeXReference) -> (text: String)
    ensures
        text@ == shown(label(bib_ref@)),
{
    let full = bib_ref.to_string();
    if full.as_str().unicode_len() > MAX_LINE_LENGTH - LINE_MARGIN {
        let mut text = full.as_str().substring_char(0, MAX_LINE_LENGTH - LINE_MARGIN).to_owned();
        text.append(ELLIPSIS);
        text
    } else {
        full
    }
}

/// The list of `bib_refs`: a line for each, numbered from 1 in their order.
pub fn list_bibtex_references(bib_refs: &Vec<BibTeXReference>) -> (lines: Vec<ListingLine>)
    ensures
        lines.len() == bib_refs.len(),
        forall|i: int| 0 <= i < lines.len() ==> is_line_of(#[trigger] lines[i], i, bib_refs[i]@),
{
    let mut lines: Vec<ListingLine> = Vec::new();
    let mut i: usize = 0;
    while i < bib_refs.len()
        invariant
            i <= bib_refs.len(),
            lines.len() == i,
            forall|k: int| 0 <= k < i ==> is_line_of(#[trigger] lines[k], k, bib_refs[k]@),
        decreases bib_refs.len() - i,
    {
        let id: usize = i + 1;
        let number = if id < 10 {
            let mut padded = " ".to_owned();
            padded.append(decimal_string(id).as_str());
            padded
        } else {
            decimal_string(id)
        };
        lines.push(ListingLine { number, label: shown_label(&bib_refs[i]) });
        i += 1;
    }
    lines
}

/// The line that sums up a search that found `blocks` citation blocks and
/// read `references` references out of them.
pub fn summary(blocks: usize, references: usize) -> (text: String)
    ensures
        text@ == summary_text(blocks as nat, references as nat),
{
    if references > 0 {
        let mut text = "Found ".to_owned();
        text.append(decimal_string(references).as_str());
        text.append(" articles: \n");
        text
    } else if blocks == 0 {
        NO_BLOCKS.to_owned()
    } else {
        NO_REFERENCES.to_owned()
    }
}

} // verus!
