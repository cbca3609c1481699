use mathbib::query::{results_page_for_encoded, url_for_results_page};

const HEAD: &str = "https://mathscinet-ams-org.proxy.library.reed.edu/mathscinet/search/publications.html?bdlall=&batch_title=Selected+Matches+for%3A+Author%3D%28";
const TAIL: &str = "&arg3=&dr=all&yearRangeFirst=&pg8=ET&s7=&review_format=html&yearRangeSecond=&fmt=bibtex&sort=newest&searchin=";

fn address(e: &str) -> String {
    format!(
        "{}{}%29+OR+Title%3D%28{}%29&pg7=AUCN&yrop=eq&s8=All&pg4=AUCN&co7=AND&co5=AND&s6=&s5={}&co4=OR&pg5=TI&co6=AND&pg6=PC&s4={}{}",
        HEAD, e, e, e, e, TAIL
    )
}

#[test]
fn plain_query_stands_in_four_places() {
    assert_eq!(url_for_results_page("Euler"), address("Euler"));
    let whole = "https://mathscinet-ams-org.proxy.library.reed.edu/mathscinet/search/publications.html?bdlall=&batch_title=Selected+Matches+for%3A+Author%3D%28x%29+OR+Title%3D%28x%29&pg7=AUCN&yrop=eq&s8=All&pg4=AUCN&co7=AND&co5=AND&s6=&s5=x&co4=OR&pg5=TI&co6=AND&pg6=PC&s4=x&arg3=&dr=all&yearRangeFirst=&pg8=ET&s7=&review_format=html&yearRangeSecond=&fmt=bibtex&sort=newest&searchin=";
    assert_eq!(url_for_results_page("x"), whole);
}

#[test]
fn empty_query_leaves_the_places_empty() {
    assert_eq!(url_for_results_page(""), address(""));
}

#[test]
fn space_and_question_mark_are_escaped() {
    assert_eq!(url_for_results_page("foo bar?"), address("foo%20bar%3F"));
}

#[test]
fn escaped_set_is_controls_space_and_nine_signs() {
    assert_eq!(
        url_for_results_page(" \"#<>?`{}\u{0}\t\n\u{1f}\u{7f}"),
        address("%20%22%23%3C%3E%3F%60%7B%7D%00%09%0A%1F%7F")
    );
    let kept = "!$%&'()*+,-./0123456789:;=@ABCDEFGHIJKLMNOPQRSTUVWXYZ[\\]^_abcdefghijklmnopqrstuvwxyz|~";
    assert_eq!(url_for_results_page(kept), address(kept));
}

#[test]
fn text_beyond_ascii_is_escaped_byte_by_byte() {
    assert_eq!(url_for_results_page("Erd\u{151}s"), address("Erd%C5%91s"));
    assert_eq!(url_for_results_page("\u{e9}\u{20ac}\u{1F600}"), address("%C3%A9%E2%82%AC%F0%9F%98%80"));
}

#[test]
fn encoded_query_is_set_in_as_it_is() {
    assert_eq!(results_page_for_encoded("a%20b"), address("a%20b"));
    assert_eq!(results_page_for_encoded("a b"), address("a b"));
}
