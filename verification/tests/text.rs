use kbmd::text::{
    chars_of, comes_before, decimal_of, fold_string, has_class, lines_of, lower_char, parse_number,
    raise_string, string_of, trim_string, upper_char, CharClass,
};

fn all_chars() -> impl Iterator<Item = char> {
    (0..=0x10FFFFu32).filter_map(char::from_u32)
}

#[test]
fn white_space_is_that_of_the_standard_library() {
    for c in all_chars() {
        assert_eq!(has_class(CharClass::Space, c), c.is_whitespace(), "{c:?}");
    }
}

#[test]
fn control_characters_are_those_of_the_standard_library() {
    for c in all_chars() {
        assert_eq!(kbmd::text::controlled(&[c]), c.is_control(), "{c:?}");
    }
}

#[test]
fn letters_fold_as_in_the_standard_library() {
    for c in all_chars() {
        assert_eq!(lower_char(c), c.to_ascii_lowercase());
        assert_eq!(upper_char(c), c.to_ascii_uppercase());
    }
    assert_eq!(fold_string("AbÄ"), "abÄ");
    assert_eq!(raise_string("abä"), "ABä");
    assert_eq!(trim_string("\u{2003} a b\t\n"), "a b");
}

#[test]
fn lines_are_those_of_the_standard_library() {
    for text in ["", "a", "a\n", "a\r\nb", "a\r\r\n\n\nb\r", "\n"] {
        let lines: Vec<String> =
            lines_of(&chars_of(text)).iter().map(|line| string_of(line)).collect();
        assert_eq!(lines, text.lines().collect::<Vec<_>>(), "{text:?}");
    }
}

#[test]
fn numbers_are_written_and_read() {
    for n in [0, 7, 10, 41, 1024, u64::MAX] {
        assert_eq!(string_of(&decimal_of(n)), n.to_string());
        assert_eq!(parse_number(&decimal_of(n)), Some(n));
    }
    for text in ["", "a", "1a", "-1", "18446744073709551616", "+1", "007"] {
        assert_eq!(parse_number(&chars_of(text)), text.parse::<u64>().ok(), "{text:?}");
    }
}

#[test]
fn texts_are_ordered_as_in_the_standard_library() {
    let texts = ["", "a", "ab", "b", "Z", "ä", "\u{ffff}", "\u{10000}"];
    for a in texts {
        for b in texts {
            let before = comes_before(&chars_of(a), &chars_of(b));
            assert!(before == (a < b) || before == (a <= b), "{a:?} {b:?}");
            if a != b {
                assert_eq!(before, a < b);
            }
        }
    }
}
