use audiolog_randomizer::text::{
    all_whitespace, chars_of, clone_opt, is_whitespace, same_text, substring, trim_bounds,
};

#[test]
fn white_space_is_the_unicode_property() {
    for code in 0..=0x10FFFFu32 {
        if let Some(c) = char::from_u32(code) {
            assert_eq!(is_whitespace(c), c.is_whitespace(), "U+{:04X}", code);
        }
    }
}

#[test]
fn characters_of_a_text() {
    assert_eq!(chars_of(""), Vec::<char>::new());
    assert_eq!(chars_of("aé\u{2003}😀"), vec!['a', 'é', '\u{2003}', '😀']);
}

#[test]
fn texts_compare_by_characters() {
    assert!(same_text("", ""));
    assert!(same_text("abc", "abc"));
    assert!(!same_text("abc", "abd"));
    assert!(!same_text("abc", "ab"));
    assert!(!same_text("e\u{301}", "\u{e9}"));
}

#[test]
fn optional_text_is_copied() {
    assert_eq!(clone_opt(&None), None);
    assert_eq!(clone_opt(&Some("x.sub".to_string())), Some("x.sub".to_string()));
}

#[test]
fn trimming_agrees_with_the_platform() {
    for text in ["", " ", "a", " a ", "\r\n a b \t\r\n", "\u{3000}x\u{00A0}", "  \u{2028}  ", "a\u{200B}"] {
        let chars: Vec<char> = text.chars().collect();
        let (from, to) = trim_bounds(&chars, 0, chars.len());
        assert_eq!(substring(&chars, from, to), text.trim(), "text {:?}", text);
        assert_eq!(all_whitespace(&chars), text.trim().is_empty(), "text {:?}", text);
    }
}

#[test]
fn trimming_stays_inside_its_bounds() {
    let chars: Vec<char> = "ab  cd  ef".chars().collect();
    assert_eq!(trim_bounds(&chars, 2, 8), (4, 6));
    assert_eq!(trim_bounds(&chars, 2, 4), (4, 4));
    assert_eq!(trim_bounds(&chars, 3, 3), (3, 3));
    assert_eq!(trim_bounds(&chars, 0, 10), (0, 10));
    assert_eq!(substring(&chars, 4, 6), "cd");
    assert_eq!(substring(&chars, 10, 10), "");
}
