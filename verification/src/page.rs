//! The results page: the citation blocks in it, and the references in those.

use vstd::prelude::*;
use crate::reference::{extract_bibtex_reference, extracted, BibTeXReference, Reference};

verus! {

/// What `scraper` finds in a page: the inner markup of each element of the
/// parsed `document` that `selector` matches, in the order in which the
/// document's nodes are walked; `None` where `selector` is no selector.
pub uninterp spec fn selected_markup(document: Seq<char>, selector: Seq<char>) -> Option<
    Seq<Seq<char>>,
>;

/// The selector of a citation block: preformatted text inside a search result.
pub const CITATION_SELECTOR: &'static str = ".doc pre";

/// The citation blocks of a page, as markup.
pub open spec fn located(document: Seq<char>) -> Seq<Seq<char>> {
    match selected_markup(document, CITATION_SELECTOR@) {
        Some(fragments) => fragments,
        None => Seq::empty(),
    }
}

/// The references in a list of fragments: one for each fragment that holds
/// one, in the order of the fragments.
pub open spec fn references_in(fragments: Seq<Seq<char>>) -> Seq<Reference>
    decreases fragments.len(),
{
    if fragments.len() == 0 {
        Seq::empty()
    } else {
        let before = references_in(fragments.drop_last());
        match extracted(fragments.last()) {
            Some(r) => before.push(r),
            None => before,
        }
    }
}

/// The place of the reference of fragment `i` in the list of references: the
/// number of references in the fragments before it.
pub open spec fn place_of(fragments: Seq<Seq<char>>, i: int) -> int {
    references_in(fragments.take(i)).len() as int
}

/// The references in two lists of fragments, one behind the other, are the
/// references in the first followed by those in the second: it makes no
/// difference whether the fragments are read in one run or in several.
pub proof fn lemma_references_in_parts(a: Seq<Seq<char>>, b: Seq<Seq<char>>)
    ensures
        references_in(a + b) == references_in(a) + references_in(b),
    decreases b.len(),
{
    if b.len() == 0 {
        assert(a + b =~= a);
        assert(references_in(a) + references_in(b) =~= references_in(a));
    } else {
        lemma_references_in_parts(a, b.drop_last());
        assert((a + b).drop_last() =~= a + b.drop_last());
        assert((a + b).last() == b.last());
        let before = references_in(a) + references_in(b.drop_last());
        match extracted(b.last()) {
            Some(r) => {
                assert(before.push(r) =~= references_in(a) + references_in(b.drop_last()).push(r));
            },
            None => {},
        }
    }
}

/// A fragment that holds no reference changes nothing for the others: the
/// references are those of the list without it.
pub proof fn lemma_fragment_without_reference(
    before: Seq<Seq<char>>,
    fragment: Seq<char>,
    behind: Seq<Seq<char>>,
)
    requires
        extracted(fragment) is None,
    ensures
        references_in(before + seq![fragment] + behind) == references_in(before + behind),
{
    let one = seq![fragment];
    assert(one.last() == fragment);
    assert(references_in(one.drop_last()) =~= Seq::<Reference>::empty());
    assert(references_in(one) =~= Seq::<Reference>::empty());
    lemma_references_in_parts(before, one);
    lemma_references_in_parts(before + one, behind);
    lemma_references_in_parts(before, behind);
    assert(references_in(before) + references_in(one) =~= references_in(before));
}

/// The reference of a fragment stands in the list at the place of the
/// fragment: behind the references of all fragments before it.
pub proof fn lemma_reference_at_its_place(fragments: Seq<Seq<char>>, i: int)
    requires
        0 <= i < fragments.len(),
        extracted(fragments[i]) is Some,
    ensures
        0 <= place_of(fragments, i) < references_in(fragments).len(),
        references_in(fragments)[place_of(fragments, i)] == extracted(fragments[i])->0,
{
    let upto = fragments.take(i + 1);
    assert(upto.drop_last() =~= fragments.take(i));
    assert(upto.last() == fragments[i]);
    assert(upto + fragments.skip(i + 1) =~= fragments);
    lemma_references_in_parts(upto, fragments.skip(i + 1));
}

/// The order of the references is the order of their fragments: of two
/// fragments that hold a reference, the earlier has the earlier place.
pub proof fn lemma_places_keep_order(fragments: Seq<Seq<char>>, i: int, j: int)
    requires
        0 <= i < j <= fragments.len(),
        extracted(fragments[i]) is Some,
    ensures
        place_of(fragments, i) < place_of(fragments, j),
{
    let upto = fragments.take(i + 1);
    assert(upto.drop_last() =~= fragments.take(i));
    assert(upto.last() == fragments[i]);
    assert(upto + fragments.subrange(i + 1, j) =~= fragments.take(j));
    lemma_references_in_parts(upto, fragments.subrange(i + 1, j));
}

/// Every reference of the list is the reference of a fragment, and stands at
/// that fragment's place: none is made up and none stands twice.
pub proof fn lemma_reference_has_fragment(fragments: Seq<Seq<char>>, k: int) -> (i: int)
    requires
        0 <= k < references_in(fragments).len(),
    ensures
        0 <= i < fragments.len(),
        extracted(fragments[i]) == Some(references_in(fragments)[k]),
        place_of(fragments, i) == k,
    decreases fragments.len(),
{
    let front = fragments.drop_last();
    let last = fragments.len() - 1;
    assert(fragments.take(last) =~= front);
    if k < references_in(front).len() {
        let i = lemma_reference_has_fragment(front, k);
        assert(front.take(i) =~= fragments.take(i));
        i
    } else {
        last
    }
}

/// Parses `selector` with `scraper::Selector::parse` and `document` with
/// `scraper::Html::parse_document`, walks the matches with `Html::select` and
/// serialises the children of each with `ElementRef::inner_html`.
///
/// Trusted: the result is a function of the two texts alone. Parsing never
/// fails on a document; a text that is no selector gives `None`.
#[verifier::external_body]
fn select_markup(document: &str, selector: &str) -> (r: Option<Vec<String>>)
    ensures
        r.deep_view() == selected_markup(document@, selector@),
{
    match scraper::Selector::parse(selector) {
        Ok(parsed) => Some(
            scraper::Html::parse_document(document).select(&parsed).map(|e| e.inner_html()).collect(),
        ),
        Err(_) => None,
    }
}

/// The citation blocks of a page: the inner markup of each block, in the order
/// in which the page yields them. A page without such blocks has none.
pub fn locate(document: &str) -> (fragments: Vec<String>)
    ensures
        fragments.deep_view() == located(document@),
{
    match select_markup(document, CITATION_SELECTOR) {
        Some(fragments) => fragments,
        None => {
            let none: Vec<String> = Vec::new();
            assert(none.deep_view() =~= Seq::<Seq<char>>::empty());
            none
        },
    }
}

/// The references in `fragments`: each fragment is read by itself, those that
/// hold no reference are left out, and the others keep their order.
pub fn collect_references(fragments: &Vec<String>) -> (refs: Vec<BibTeXReference>)
    ensures
        refs.deep_view() == references_in(fragments.deep_view()),
{
    let ghost texts = fragments.deep_view();
    let mut refs: Vec<BibTeXReference> = Vec::new();
    let mut i: usize = 0;
    assert(texts.take(0) =~= Seq::<Seq<char>>::empty());
    assert(refs.deep_view() =~= Seq::<Reference>::empty());
    while i < fragments.len()
        invariant
            i <= fragments.len(),
            texts == fragments.deep_view(),
            refs.deep_view() == references_in(texts.take(i as int)),
        decreases fragments.len() - i,
    {
        let ghost before = refs.deep_view();
        let found = extract_bibtex_reference(fragments[i].as_str());
        proof {
            assert(texts.take(i + 1).drop_last() =~= texts.take(i as int));
            assert(texts.take(i + 1).last() == fragments@[i as int]@);
        }
        if let Some(r) = found {
            refs.push(r);
            assert(refs.deep_view() =~= before.push(r@));
        }
        i += 1;
    }
    assert(texts.take(i as int) =~= texts);
    refs
}

/// The references in a results page, in the order of its citation blocks.
pub fn find_bibtex_references(body: &str) -> (refs: Vec<BibTeXReference>)
    ensures
        refs.deep_view() == references_in(located(body@)),
{
    let fragments = locate(body);
    collect_references(&fragments)
}

} // verus!
