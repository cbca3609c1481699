//! The address of the results page for a query.

use vstd::prelude::*;

verus! {

/// The address up to the first place of the query.
pub const ADDRESS_HEAD: &'static str =
    "https://mathscinet-ams-org.proxy.library.reed.edu/mathscinet/search/publications.html?bdlall=&batch_title=Selected+Matches+for%3A+Author%3D%28";

/// What stands between the first and the second place of the query.
pub const ADDRESS_OR_TITLE: &'static str = "%29+OR+Title%3D%28";

/// What stands between the second and the third place of the query.
pub const ADDRESS_AUTHOR_TERM: &'static str = "%29&pg7=AUCN&yrop=eq&s8=All&pg4=AUCN&co7=AND&co5=AND&s6=&s5=";

/// What stands between the third and the fourth place of the query.
pub const ADDRESS_TITLE_TERM: &'static str = "&co4=OR&pg5=TI&co6=AND&pg6=PC&s4=";

/// The address behind the last place of the query.
pub const ADDRESS_TAIL: &'static str =
    "&arg3=&dr=all&yearRangeFirst=&pg8=ET&s7=&review_format=html&yearRangeSecond=&fmt=bibtex&sort=newest&searchin=";

/// The bytes that are escaped in a query: controls, space, everything from
/// `0x7F` on, and `"`, `#`, `<`, `>`, `?`, `` ` ``, `{`, `}`.
pub open spec fn is_escaped(b: u8) -> bool {
    ||| b <= 0x20
    ||| b > 0x7E
    ||| b == 0x22
    ||| b == 0x23
    ||| b == 0x3C
    ||| b == 0x3E
    ||| b == 0x3F
    ||| b == 0x60
    ||| b == 0x7B
    ||| b == 0x7D
}

/// The upper-case hexadecimal digit for `n`, which is below 16.
pub open spec fn hex_digit(n: int) -> char {
    "0123456789ABCDEF"@[n]
}

/// One byte of a query as it stands in an address: itself, or a percent sign
/// and its two hexadecimal digits.
pub open spec fn encoded_byte(b: u8) -> Seq<char> {
    if is_escaped(b) {
        seq!['%', hex_digit(b as int / 16), hex_digit(b as int % 16)]
    } else {
        seq![b as char]
    }
}

/// The percent-encoding of `bytes`.
pub open spec fn percent_encoded(bytes: Seq<u8>) -> Seq<char>
    decreases bytes.len(),
{
    if bytes.len() == 0 {
        Seq::empty()
    } else {
        percent_encoded(bytes.drop_last()) + encoded_byte(bytes.last())
    }
}

/// A query as it stands in an address: the percent-encoding of its UTF-8 form.
pub open spec fn encoded_query(query: Seq<char>) -> Seq<char> {
    percent_encoded(vstd::utf8::encode_utf8(query))
}

/// The address of the results page for a query that is already encoded.
pub open spec fn results_page(encoded: Seq<char>) -> Seq<char> {
    ADDRESS_HEAD@ + encoded + ADDRESS_OR_TITLE@ + encoded + ADDRESS_AUTHOR_TERM@ + encoded
        + ADDRESS_TITLE_TERM@ + encoded + ADDRESS_TAIL@
}

/// `url::percent_encoding::utf8_percent_encode` with `DEFAULT_ENCODE_SET`,
/// written out through its `Display`.
///
/// Trusted: each byte of the UTF-8 form of `text` that is in the set becomes a
/// percent sign and two upper-case hexadecimal digits; every other byte, all of
/// them ASCII, stays as it is.
#[verifier::external_body]
fn percent_encode(text: &str) -> (encoded: String)
    ensures
        encoded@ == encoded_query(text@),
{
    url::percent_encoding::utf8_percent_encode(text, url::percent_encoding::DEFAULT_ENCODE_SET)
        .to_string()
}

/// The address of the results page for a query that is already encoded.
pub fn results_page_for_encoded(encoded: &str) -> (address: String)
    ensures
        address@ == results_page(encoded@),
{
    let mut address = ADDRESS_HEAD.to_owned();
    address.append(encoded);
    address.append(ADDRESS_OR_TITLE);
    address.append(encoded);
    address.append(ADDRESS_AUTHOR_TERM);
    address.append(encoded);
    address.append(ADDRESS_TITLE_TERM);
    address.append(encoded);
    address.append(ADDRESS_TAIL);
    address
}

/// The address of the page that lists the publications whose author or title
/// matches `query`.
pub fn url_for_results_page(query: &str) -> (address: String)
    ensures
        address@ == results_page(encoded_query(query@)),
{
    let encoded = percent_encode(query);
    results_page_for_encoded(encoded.as_str())
}

} // verus!
