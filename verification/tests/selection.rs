use mathbib::reference::{extract_bibtex_reference, BibTeXReference};
use mathbib::selection::{parse_selection, select_reference};

fn references(n: usize) -> Vec<BibTeXReference> {
    (1..=n)
        .map(|i| extract_bibtex_reference(&format!("AUTHOR = {{A{}}}\nTITLE = {{T{}}}", i, i)).expect("a reference"))
        .collect()
}

#[test]
fn number_is_read_as_the_standard_library_reads_it() {
    let lines = [
        "1", "12\n", "  7  ", "+3", "007", "0", "", " ", "+", "-", "-1", "1.5", "1 2", "a", "1a", "++1", "+-1",
        "\u{a0}42\u{3000}", "\u{663}", "18446744073709551615", "18446744073709551616", "4294967295", "4294967296",
        "99999999999999999999999999", "00000000000000000000000000001", "1e3", "0x10", "+ 1", "1\u{200b}",
    ];
    for line in lines {
        assert_eq!(parse_selection(line), line.trim().parse::<usize>().ok(), "{:?}", line);
    }
}

#[test]
fn numbers_are_read() {
    assert_eq!(parse_selection("3\n"), Some(3));
    assert_eq!(parse_selection(" 120 "), Some(120));
    assert_eq!(parse_selection("three"), None);
    assert_eq!(parse_selection(&usize::MAX.to_string()), Some(usize::MAX));
    assert_eq!(parse_selection(&format!("{}0", usize::MAX)), None);
}

#[test]
fn selection_counts_from_one() {
    let refs = references(3);
    assert_eq!(select_reference(&refs, 1).map(|r| r.title()), Some("T1"));
    assert_eq!(select_reference(&refs, 2).map(|r| r.title()), Some("T2"));
    assert_eq!(select_reference(&refs, 3), Some(&refs[2]));
}

#[test]
fn selection_outside_the_list_is_none() {
    let refs = references(3);
    assert!(select_reference(&refs, 0).is_none());
    assert!(select_reference(&refs, 4).is_none());
    assert!(select_reference(&refs, usize::MAX).is_none());
    assert!(select_reference(&Vec::new(), 1).is_none());
}

#[test]
fn selected_reference_hands_out_its_raw_text() {
    let refs = references(2);
    let chosen = parse_selection("2\n").and_then(|n| select_reference(&refs, n)).expect("a choice");
    assert_eq!(chosen.raw(), "AUTHOR = {A2}\nTITLE = {T2}");
}
