use mathbib::text::{char_is_whitespace, chars_of, trim_range};

#[test]
fn white_space_is_what_the_character_set_says() {
    let mut n: u32 = 0;
    while n <= 0x10FFFF {
        if let Some(c) = char::from_u32(n) {
            assert_eq!(char_is_whitespace(c), c.is_whitespace(), "U+{:04X}", n);
        }
        n += 1;
    }
}

#[test]
fn characters_come_in_order() {
    assert_eq!(chars_of("a\u{e9}\u{1F600}z"), vec!['a', '\u{e9}', '\u{1F600}', 'z']);
    assert_eq!(chars_of(""), Vec::<char>::new());
}

#[test]
fn trimming_takes_the_white_space_around_a_text() {
    let texts = [
        "",
        " ",
        "\n\t\r ",
        "a",
        " a",
        "a ",
        "  a b  ",
        "\u{a0}x\u{3000}",
        "\u{2003}\u{2028}x y\u{85}\u{1680}",
        "\u{200b}x\u{200b}",
        " \u{feff}x ",
        "\u{1F600} ",
    ];
    for text in texts {
        let chars = chars_of(text);
        let (from, to) = trim_range(&chars);
        let kept: String = chars[from..to].iter().collect();
        assert_eq!(kept, text.trim(), "{:?}", text);
    }
}

#[test]
fn trim_range_counts_characters() {
    let chars: Vec<char> = " \u{e9}\u{e9} x \n".chars().collect();
    assert_eq!(trim_range(&chars), (1, 5));
    let blank: Vec<char> = " \n ".chars().collect();
    assert_eq!(trim_range(&blank), (3, 3));
    assert_eq!(trim_range(&Vec::new()), (0, 0));
}
