//! A reference: the authors and the title of a citation, and the citation as it stood.

use vstd::prelude::*;
use crate::fields::{
    field_at, field_starts_at, field_value, find_pair, is_match, is_pair, lemma_match_exists,
    lemma_match_of_part, lemma_match_unique, moved, preferred_to, single_line, FieldPair,
};
use crate::text::{
    chars_of, is_whitespace, lemma_trim_bounds, lemma_trimmed_twice, occurs_at, occurs_in, trim_end,
    trim_range, trim_start, trimmed,
};

verus! {

/// The key that opens the author field of a citation.
pub const AUTHOR_KEY: &'static str = "AUTHOR = {";

/// The key that opens the title field of a citation.
pub const TITLE_KEY: &'static str = "TITLE = {";

/// The key that opens the author field, as characters.
pub open spec fn author_key() -> Seq<char> {
    AUTHOR_KEY@
}

/// The key that opens the title field, as characters.
pub open spec fn title_key() -> Seq<char> {
    TITLE_KEY@
}

/// What a reference holds.
pub struct Reference {
    /// The value of the author field, as it stands in the citation.
    pub authors: Seq<char>,
    /// The value of the title field, as it stands in the citation.
    pub title: Seq<char>,
    /// The whole citation, without the white space around it.
    pub raw: Seq<char>,
}

/// The reference that the pair `p` of an author and a title field gives in `text`.
pub open spec fn reference_at(text: Seq<char>, p: FieldPair) -> Reference {
    Reference {
        authors: field_value(text, author_key(), p.first_at, p.first_close),
        title: field_value(text, title_key(), p.second_at, p.second_close),
        raw: trimmed(text),
    }
}

/// The reference in `text`: that of its match, where an author field is
/// followed by a title field; none where no such pair stands in `text`.
pub open spec fn extracted(text: Seq<char>) -> Option<Reference> {
    if exists|p: FieldPair| is_pair(text, author_key(), title_key(), p) {
        Some(
            reference_at(
                text,
                choose|p: FieldPair| is_match(text, author_key(), title_key(), p),
            ),
        )
    } else {
        None
    }
}

/// The line that lists a reference: its title, a dash, its authors.
pub open spec fn label(r: Reference) -> Seq<char> {
    r.title + " - "@ + r.authors
}

impl Reference {
    /// A reference is well formed when its raw text gives this very reference:
    /// the authors and the title are the values of the fields that are found
    /// in the raw text, and the raw text has no white space around it.
    pub open spec fn wf(self) -> bool {
        extracted(self.raw) == Some(self)
    }
}

/// A key that stands at `at`, followed at once by a closing brace with which
/// the line or the text ends: braces that hold nothing.
pub open spec fn empty_braces_at(text: Seq<char>, key: Seq<char>, at: int) -> bool {
    let value = at + key.len();
    &&& value < text.len()
    &&& text[value] == '}'
    &&& (value + 1 == text.len() || text[value + 1] == '\n')
}

/// The match of a text decides the reference in it.
pub proof fn lemma_extracted_at(text: Seq<char>, p: FieldPair)
    requires
        is_match(text, author_key(), title_key(), p),
    ensures
        extracted(text) == Some(reference_at(text, p)),
{
    let chosen = choose|q: FieldPair| is_match(text, author_key(), title_key(), q);
    lemma_match_unique(text, author_key(), title_key(), p, chosen);
}

/// A text that holds a reference has a match, and the reference is read at it.
pub proof fn lemma_extracted_match(text: Seq<char>) -> (p: FieldPair)
    requires
        extracted(text) is Some,
    ensures
        is_match(text, author_key(), title_key(), p),
        extracted(text) == Some(reference_at(text, p)),
{
    let q = choose|q: FieldPair| is_pair(text, author_key(), title_key(), q);
    lemma_match_exists(text, author_key(), title_key(), q);
    choose|p: FieldPair| is_match(text, author_key(), title_key(), p)
}

/// Every pair of an author and a title field stands inside the trimmed text.
pub proof fn lemma_pair_within_trim(text: Seq<char>, p: FieldPair)
    requires
        is_pair(text, author_key(), title_key(), p),
    ensures
        trim_start(text) <= p.first_at,
        p.second_close < trim_end(text),
        trimmed(text) == text.subrange(trim_start(text), trim_end(text)),
{
    reveal_strlit("AUTHOR = {");
    lemma_trim_bounds(text);
    assert(text.subrange(p.first_at, p.first_at + author_key().len())[0] == text[p.first_at]);
    assert(!is_whitespace(text[p.first_at]));
    assert(!is_whitespace(text[p.second_close]));
}

/// A text without a title key holds no reference.
pub proof fn lemma_no_title_no_reference(text: Seq<char>)
    requires
        !occurs_in(text, title_key()),
    ensures
        extracted(text) is None,
{
    assert forall|p: FieldPair| !is_pair(text, author_key(), title_key(), p) by {
        if is_pair(text, author_key(), title_key(), p) {
            assert(occurs_at(text, title_key(), p.second_at));
        }
    }
}

/// A text without an author key holds no reference.
pub proof fn lemma_no_author_no_reference(text: Seq<char>)
    requires
        !occurs_in(text, author_key()),
    ensures
        extracted(text) is None,
{
    assert forall|p: FieldPair| !is_pair(text, author_key(), title_key(), p) by {
        if is_pair(text, author_key(), title_key(), p) {
            assert(occurs_at(text, author_key(), p.first_at));
        }
    }
}

/// A text in which every author key is followed by braces that hold nothing
/// holds no reference.
pub proof fn lemma_empty_author_no_reference(text: Seq<char>)
    requires
        forall|at: int| #[trigger]
            occurs_at(text, author_key(), at) ==> empty_braces_at(text, author_key(), at),
    ensures
        extracted(text) is None,
{
    assert forall|p: FieldPair| !is_pair(text, author_key(), title_key(), p) by {
        if is_pair(text, author_key(), title_key(), p) {
            let value = p.first_at + author_key().len();
            assert(occurs_at(text, author_key(), p.first_at));
            assert(empty_braces_at(text, author_key(), p.first_at));
            if value + 1 < p.first_close {
                assert(text[value + 1] != '\n');
            }
        }
    }
}

/// The raw text of a reference is the text it was read from, without the
/// white space around it and with nothing else changed: it is one stretch of
/// the text, with only white space before and behind it.
pub proof fn lemma_raw_is_trimmed_text(text: Seq<char>)
    requires
        extracted(text) is Some,
    ensures
        extracted(text)->0.raw == trimmed(text),
        trimmed(text) == text.subrange(trim_start(text), trim_end(text)),
        0 <= trim_start(text) < trim_end(text) <= text.len(),
        forall|j: int| 0 <= j < trim_start(text) ==> is_whitespace(#[trigger] text[j]),
        forall|j: int| trim_end(text) <= j < text.len() ==> is_whitespace(#[trigger] text[j]),
        !is_whitespace(text[trim_start(text)]),
        !is_whitespace(text[trim_end(text) - 1]),
{
    let p = lemma_extracted_match(text);
    lemma_pair_within_trim(text, p);
    lemma_trim_bounds(text);
}

/// The authors and the title of a reference stand in its raw text, and
/// neither is empty or holds a line break.
pub proof fn lemma_fields_stand_in_raw(text: Seq<char>)
    requires
        extracted(text) is Some,
    ensures
        occurs_in(extracted(text)->0.raw, extracted(text)->0.authors),
        occurs_in(extracted(text)->0.raw, extracted(text)->0.title),
        extracted(text)->0.authors.len() > 0,
        extracted(text)->0.title.len() > 0,
        single_line(extracted(text)->0.authors, 0, extracted(text)->0.authors.len() as int),
        single_line(extracted(text)->0.title, 0, extracted(text)->0.title.len() as int),
{
    let p = lemma_extracted_match(text);
    lemma_pair_within_trim(text, p);
    lemma_trim_bounds(text);
    let r = reference_at(text, p);
    let from = trim_start(text);
    let authors_at = p.first_at + author_key().len() - from;
    let title_at = p.second_at + title_key().len() - from;
    assert(r.raw.subrange(authors_at, authors_at + r.authors.len()) =~= r.authors);
    assert(occurs_at(r.raw, r.authors, authors_at));
    assert(r.raw.subrange(title_at, title_at + r.title.len()) =~= r.title);
    assert(occurs_at(r.raw, r.title, title_at));
}

/// In a well-formed reference the authors and the title stand in the raw
/// text, and neither is empty.
pub proof fn lemma_reference_fields_in_raw(r: Reference)
    requires
        r.wf(),
    ensures
        occurs_in(r.raw, r.authors),
        occurs_in(r.raw, r.title),
        r.authors.len() > 0,
        r.title.len() > 0,
{
    lemma_fields_stand_in_raw(r.raw);
}

/// The raw text of a reference gives the same reference again.
pub proof fn lemma_raw_gives_same_reference(text: Seq<char>)
    requires
        extracted(text) is Some,
    ensures
        extracted(text)->0.wf(),
{
    let p = lemma_extracted_match(text);
    let from = trim_start(text);
    let to = trim_end(text);
    lemma_pair_within_trim(text, p);
    lemma_trim_bounds(text);
    assert forall|q: FieldPair| #[trigger]
        is_pair(text, author_key(), title_key(), q) implies from <= q.first_at && q.second_close
        < to by {
        lemma_pair_within_trim(text, q);
    }
    let raw = text.subrange(from, to);
    let at = moved(p, -from);
    lemma_match_of_part(text, from, to, author_key(), title_key(), p);
    lemma_extracted_at(raw, at);
    lemma_trimmed_twice(text);
    assert(reference_at(raw, at).authors =~= reference_at(text, p).authors);
    assert(reference_at(raw, at).title =~= reference_at(text, p).title);
}

/// An author field is read whole where it is the first of the text and the
/// last closing brace of its line ends it: given that a title field follows,
/// the authors of the reference are the value between the key and that brace.
pub proof fn lemma_author_value_is_kept(text: Seq<char>, at: int, close: int)
    requires
        field_at(text, author_key(), at, close),
        forall|e: int| 0 <= e < at ==> !#[trigger] occurs_at(text, author_key(), e),
        forall|c: int|
            close < c < text.len() && single_line(text, close, c) ==> #[trigger] text[c] != '}',
        exists|t: int| close < t && #[trigger] field_starts_at(text, title_key(), t),
    ensures
        extracted(text) is Some,
        extracted(text)->0.authors == field_value(text, author_key(), at, close),
{
    let t = choose|t: int| close < t && #[trigger] field_starts_at(text, title_key(), t);
    let t_close = choose|c: int| field_at(text, title_key(), t, c);
    let q = FieldPair { first_at: at, first_close: close, second_at: t, second_close: t_close };
    assert(is_pair(text, author_key(), title_key(), q));
    let p = lemma_extracted_match(text);
    assert(preferred_to(p, q));
    assert(occurs_at(text, author_key(), p.first_at));
    if p.first_close > close {
        assert forall|k: int| close <= k < p.first_close implies #[trigger] text[k] != '\n' by {}
        assert(text[p.first_close] != '}');
    }
}

/// A citation found in a page.
#[derive(Clone, Debug, PartialEq, Eq)]
pub struct BibTeXReference {
    authors: String,
    title: String,
    raw: String,
}

impl View for BibTeXReference {
    type V = Reference;

    closed spec fn view(&self) -> Reference {
        Reference { authors: self.authors@, title: self.title@, raw: self.raw@ }
    }
}

impl DeepView for BibTeXReference {
    type V = Reference;

    open spec fn deep_view(&self) -> Reference {
        self@
    }
}

impl BibTeXReference {
    /// The reference is what its raw text gives when it is read again.
    pub open spec fn wf(&self) -> bool {
        self@.wf()
    }

    /// The title and the authors on one line.
    pub fn to_string(&self) -> (line: String)
        ensures
            line@ == label(self@),
    {
        let mut line = self.title.clone();
        line.append(" - ");
        line.append(self.authors.as_str());
        line
    }

    /// The value of the author field.
    pub fn authors(&self) -> (s: &str)
        ensures
            s@ == self@.authors,
    {
        self.authors.as_str()
    }

    /// The value of the title field.
    pub fn title(&self) -> (s: &str)
        ensures
            s@ == self@.title,
    {
        self.title.as_str()
    }

    /// The citation as it stood in the page, without the white space around it.
    pub fn raw(&self) -> (s: &str)
        ensures
            s@ == self@.raw,
    {
        self.raw.as_str()
    }
}

/// Reads a reference out of the text of one fragment of a page.
///
/// The text has to hold an author field and, somewhere behind it, a title
/// field; a fragment without such a pair gives no reference. The authors and
/// the title are the values of the two fields, letter for letter, and the raw
/// text is the fragment without the white space around it.
pub fn extract_bibtex_reference(fragment: &str) -> (r: Option<BibTeXReference>)
    ensures
        match r {
            Some(found) => extracted(fragment@) == Some(found@),
            None => extracted(fragment@) is None,
        },
        r matches Some(found) ==> {
            &&& found.wf()
            &&& found@.raw == trimmed(fragment@)
            &&& occurs_in(found@.raw, found@.authors)
            &&& occurs_in(found@.raw, found@.title)
        },
{
    let text = chars_of(fragment);
    let author = chars_of(AUTHOR_KEY);
    let title = chars_of(TITLE_KEY);
    match find_pair(&text, &author, &title) {
        Some(p) => {
            let (from, to) = trim_range(&text);
            proof {
                let chosen = choose|q: FieldPair| is_match(fragment@, author_key(), title_key(), q);
                lemma_match_unique(fragment@, author_key(), title_key(), p@, chosen);
                lemma_raw_gives_same_reference(fragment@);
                lemma_fields_stand_in_raw(fragment@);
            }
            Some(
                BibTeXReference {
                    authors: fragment.substring_char(p.first_at + author.len(), p.first_close).to_owned(),
                    title: fragment.substring_char(p.second_at + title.len(), p.second_close).to_owned(),
                    raw: fragment.substring_char(from, to).to_owned(),
                },
            )
        },
        None => None,
    }
}

} // verus!
