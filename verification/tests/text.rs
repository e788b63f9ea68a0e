use aptmatic::table::Table;
use aptmatic::text::{
    cat, chars_of, ends_with, has, join, last_position, lines_of, lower, number, pad_right,
    position, same_text, signed_number, split_words, starts_with, strip_leading, strip_trailing,
    to_text, trim_text, white,
};

#[test]
fn white_space_is_what_the_standard_library_says() {
    for n in 0..=0x10ffffu32 {
        if let Some(c) = char::from_u32(n) {
            assert_eq!(white(c), c.is_whitespace(), "{n:x}");
        }
    }
}

#[test]
fn lower_case_is_what_the_standard_library_says() {
    for s in ["", "WEB1", "Straße", "ÀÉÎ", "ΑΣ", "İstanbul", "mixed Case 123"] {
        assert_eq!(lower(s), s.to_lowercase());
    }
}

#[test]
fn trimming_is_what_the_standard_library_says() {
    for s in ["", " ", "a", "  a b\t", "\u{3000}x\u{a0}", "\n\r\n", "no blanks"] {
        assert_eq!(trim_text(s), s.trim());
    }
}

#[test]
fn lines_are_what_the_standard_library_says() {
    for s in ["", "\n", "a", "a\n", "a\nb", "a\r\nb\r", "\r\n", "a\n\nb\n", "x\ry\n"] {
        assert_eq!(lines_of(s), s.lines().collect::<Vec<_>>());
    }
}

#[test]
fn words_are_what_the_standard_library_says() {
    for s in ["", "  ", "a", " a  b\tc ", "\u{2003}x\u{2003}y"] {
        let cs = chars_of(s);
        let words: Vec<String> = split_words(&cs).iter().map(|w| to_text(w)).collect();
        assert_eq!(words, s.split_whitespace().collect::<Vec<_>>());
    }
}

#[test]
fn searching_is_what_the_standard_library_says() {
    for s in ["", "a", "abcabc", "aaab", "upgradable from: 1.0]"] {
        let cs = chars_of(s);
        for p in ["a", "abc", "ab", "from: ", "]", "zzz", ""] {
            let ps = chars_of(p);
            assert_eq!(position(&cs, &ps), s.find(p));
            assert_eq!(last_position(&cs, &ps), s.rfind(p));
            assert_eq!(has(&cs, p), s.contains(p));
            assert_eq!(starts_with(&cs, p), s.starts_with(p));
            assert_eq!(ends_with(&cs, p), s.ends_with(p));
        }
    }
    assert!(same_text("ab", "ab"));
    assert!(!same_text("ab", "abc"));
}

#[test]
fn stripping_is_what_the_standard_library_says() {
    for s in ["", "*", "a*", "a**", "*a", "a\n\n"] {
        assert_eq!(strip_trailing(s, '*'), s.trim_end_matches('*'));
        assert_eq!(strip_trailing(s, '\n'), s.trim_end_matches('\n'));
    }
    for s in ["", "linux-image-6.1", "linux-image-linux-image-x", "linux-imag", "6.1"] {
        assert_eq!(strip_leading(s, "linux-image-"), s.trim_start_matches("linux-image-"));
    }
}

#[test]
fn numbers_are_written_in_decimal() {
    for n in [0, 7, 10, 42, 65535, u64::MAX] {
        assert_eq!(number(n), n.to_string());
    }
    for n in [0, -1, 100, i32::MAX, i32::MIN] {
        assert_eq!(signed_number(n), n.to_string());
    }
}

#[test]
fn texts_are_put_together() {
    assert_eq!(cat("a", "b"), "ab");
    assert_eq!(join(&vec![], ", "), "");
    assert_eq!(join(&vec!["a".to_string()], ", "), "a");
    assert_eq!(join(&vec!["a".to_string(), "b".to_string(), "".to_string()], ", "), "a, b, ");
    assert_eq!(pad_right("web", 6), format!("{:<6}", "web"));
    assert_eq!(pad_right("longer", 3), "longer");
}

#[test]
fn a_table_keeps_one_value_for_each_key() {
    let mut t: Table<u32> = Table::new();
    assert!(t.get("a").is_none());
    t.insert("a".to_string(), 1);
    t.insert("b".to_string(), 2);
    t.insert("a".to_string(), 3);
    assert_eq!(t.get("a"), Some(&3));
    assert_eq!(t.get("b"), Some(&2));
    assert!(t.contains_key("b"));
    assert!(!t.contains_key("c"));
    assert_eq!(t.entries().len(), 2);
}
