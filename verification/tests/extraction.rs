use mathbib::reference::{extract_bibtex_reference, BibTeXReference};

fn read(fragment: &str) -> BibTeXReference {
    extract_bibtex_reference(fragment).expect("the fragment holds a reference")
}

#[test]
fn one_fragment_gives_authors_and_title() {
    let r = read("AUTHOR = {Euler, L.}\nTITLE = {On a new type of series}");
    assert_eq!(r.authors(), "Euler, L.");
    assert_eq!(r.title(), "On a new type of series");
    assert_eq!(r.raw(), "AUTHOR = {Euler, L.}\nTITLE = {On a new type of series}");
}

#[test]
fn whole_entry_is_kept_as_raw_text() {
    let entry = "@article {MR0000001,\n    AUTHOR = {Gauss, C. F. and Riemann, B.},\n     TITLE = {Disquisitiones {$\\Gamma$}},\n   JOURNAL = {J. Reine Angew. Math.},\n      YEAR = {1801},\n}";
    let fragment = format!("\n{}\n  ", entry);
    let r = read(&fragment);
    assert_eq!(r.authors(), "Gauss, C. F. and Riemann, B.");
    assert_eq!(r.title(), "Disquisitiones {$\\Gamma$}");
    assert_eq!(r.raw(), entry);
}

#[test]
fn empty_author_braces_give_no_reference() {
    assert!(extract_bibtex_reference("AUTHOR = {}\nTITLE = {On a new type of series}").is_none());
    assert!(extract_bibtex_reference("AUTHOR = {}").is_none());
}

#[test]
fn empty_title_braces_give_no_reference() {
    assert!(extract_bibtex_reference("AUTHOR = {Euler, L.}\nTITLE = {}").is_none());
    assert!(extract_bibtex_reference("AUTHOR = {Euler, L.}\nTITLE = {}\n").is_none());
}

#[test]
fn missing_title_gives_no_reference() {
    assert!(extract_bibtex_reference("AUTHOR = {Euler, L.}\nYEAR = {1740}").is_none());
}

#[test]
fn missing_author_gives_no_reference() {
    assert!(extract_bibtex_reference("TITLE = {On a new type of series}\nYEAR = {1740}").is_none());
}

#[test]
fn title_before_author_gives_no_reference() {
    assert!(extract_bibtex_reference("TITLE = {On a new type of series}\nAUTHOR = {Euler, L.}").is_none());
}

#[test]
fn empty_and_blank_fragments_give_no_reference() {
    assert!(extract_bibtex_reference("").is_none());
    assert!(extract_bibtex_reference(" \n\t ").is_none());
}

#[test]
fn keys_are_matched_letter_for_letter() {
    assert!(extract_bibtex_reference("author = {Euler, L.}\ntitle = {Series}").is_none());
    assert!(extract_bibtex_reference("AUTHOR={Euler, L.}\nTITLE={Series}").is_none());
    assert!(extract_bibtex_reference("AUTHOR = {Euler, L.\nTITLE = {Series}").is_none());
}

#[test]
fn raw_text_loses_only_the_white_space_around_it() {
    let r = read(" \t\n AUTHOR = {A  B}\n\n  TITLE = { T\t}  x \u{a0}\u{2003}\n");
    assert_eq!(r.raw(), "AUTHOR = {A  B}\n\n  TITLE = { T\t}  x");
    assert_eq!(r.authors(), "A  B");
    assert_eq!(r.title(), " T\t");
}

#[test]
fn fields_are_parts_of_the_raw_text() {
    let fragments = [
        "AUTHOR = {Euler, L.}\nTITLE = {On a new type of series}",
        "  x AUTHOR = {a}b} TITLE = {c}d}\n}",
        "AUTHOR = {K\u{f6}nig, D.}, TITLE = {\u{dc}ber Graphen}",
    ];
    for fragment in fragments {
        let r = read(fragment);
        assert!(r.raw().contains(r.authors()));
        assert!(r.raw().contains(r.title()));
        assert!(!r.authors().is_empty() && !r.title().is_empty());
        assert!(!r.authors().contains('\n') && !r.title().contains('\n'));
        assert!(r.raw().contains(&format!("AUTHOR = {{{}}}", r.authors())));
        assert!(r.raw().contains(&format!("TITLE = {{{}}}", r.title())));
    }
}

#[test]
fn raw_text_gives_the_same_reference_again() {
    let r = read("\n  AUTHOR = {Noether, E.},\n  TITLE = {Idealtheorie in Ringbereichen},\n");
    let again = read(r.raw());
    assert_eq!(again, r);
}

#[test]
fn value_runs_to_the_last_brace_of_its_line() {
    let r = read("AUTHOR = {Erd{\\H o}s, P.},\nTITLE = {On {$k$}-sets} and more},\n");
    assert_eq!(r.authors(), "Erd{\\H o}s, P.");
    assert_eq!(r.title(), "On {$k$}-sets} and more");
}

#[test]
fn value_does_not_run_over_a_line_break() {
    assert!(extract_bibtex_reference("AUTHOR = {Euler,\nL.}\nTITLE = {Series}").is_none());
    assert!(extract_bibtex_reference("AUTHOR = {Euler, L.}\nTITLE = {On a\nnew type}").is_none());
    let r = read("AUTHOR = {Euler,\nL.} AUTHOR = {Bernoulli, J.}\nTITLE = {Series}");
    assert_eq!(r.authors(), "Bernoulli, J.");
}

#[test]
fn author_value_in_one_pair_of_braces_is_kept_whole() {
    let r = read("NOTE = {n}\nAUTHOR = { Cantor,  G. and Dedekind, R. }\nYEAR = {1872}\nTITLE = {t}");
    assert_eq!(r.authors(), " Cantor,  G. and Dedekind, R. ");
}

#[test]
fn other_fields_may_stand_before_between_and_behind() {
    let r = read("KEY = {k},\nAUTHOR = {A},\nYEAR = {1900},\nJOURNAL = {J},\nTITLE = {T},\nPAGES = {1--2},");
    assert_eq!(r.authors(), "A");
    assert_eq!(r.title(), "T");
}

#[test]
fn fields_on_one_line() {
    let r = read("AUTHOR = {A} TITLE = {T}");
    assert_eq!(r.authors(), "A");
    assert_eq!(r.title(), "T");
    let r = read("AUTHOR = {A} TITLE = {T}\nTITLE = {U}");
    assert_eq!(r.authors(), "A} TITLE = {T");
    assert_eq!(r.title(), "U");
}

#[test]
fn first_author_field_is_paired_with_the_first_title_behind_it() {
    let r = read("AUTHOR = {A1}\nTITLE = {T1}\nAUTHOR = {A2}\nTITLE = {T2}\n");
    assert_eq!(r.authors(), "A1");
    assert_eq!(r.title(), "T1");
    let r = read("TITLE = {T0}\nAUTHOR = {A1}\nTITLE = {}\nTITLE = {T2}\nTITLE = {T3}");
    assert_eq!(r.authors(), "A1");
    assert_eq!(r.title(), "T2");
}

#[test]
fn author_key_with_empty_braces_is_passed_over() {
    let r = read("AUTHOR = {}\nAUTHOR = {B}\nTITLE = {T}");
    assert_eq!(r.authors(), "B");
    let r = read("AUTHOR = {}}\nTITLE = {T}");
    assert_eq!(r.authors(), "}");
}

#[test]
fn label_is_title_dash_authors() {
    let r = read("AUTHOR = {Euler, L.}\nTITLE = {On a new type of series}");
    assert_eq!(r.to_string(), "On a new type of series - Euler, L.");
}

#[test]
fn text_beyond_ascii_is_read_by_characters() {
    let r = read("\u{2003}AUTHOR = {\u{c9}variste Galois}\n\u{3b1}\u{3b2} TITLE = {M\u{e9}moire \u{2014} \u{221e}}\u{3000}");
    assert_eq!(r.authors(), "\u{c9}variste Galois");
    assert_eq!(r.title(), "M\u{e9}moire \u{2014} \u{221e}");
    assert_eq!(r.raw(), "AUTHOR = {\u{c9}variste Galois}\n\u{3b1}\u{3b2} TITLE = {M\u{e9}moire \u{2014} \u{221e}}");
}
