use byrradar::text;

fn chars(s: &str) -> Vec<char> {
    s.chars().collect()
}

#[test]
fn white_space_is_that_of_unicode() {
    for code in 0..=0x10ffffu32 {
        if let Some(c) = char::from_u32(code) {
            assert_eq!(text::white(c), c.is_whitespace(), "{code:x}");
        }
    }
}

#[test]
fn trimming_takes_white_space_off_both_ends() {
    for s in ["", " ", "a", " a ", "\u{3000}中 文\u{a0}\n", "\t\r\n", "x\u{200b}"] {
        assert_eq!(text::trimmed_text(s), s.trim());
        assert_eq!(text::blank(s), s.trim().is_empty());
    }
}

#[test]
fn splitting_and_replacing() {
    for s in ["", ",", "a,b", ",a,,b\n", "no"] {
        let pieces: Vec<String> =
            text::pieces(&chars(s), &[',', '\n']).iter().map(|p| p.iter().collect()).collect();
        let expected: Vec<&str> = s.split(|c: char| c == ',' || c == '\n').collect();
        assert_eq!(pieces, expected);
    }
    for (s, from, to) in [("aaa", "aa", "b"), ("a\\\"b\\\\", "\\\"", "\""), ("x", "y", "z"), ("GiBGiB1", "GiB", "")] {
        let replaced: String = text::replaced(&chars(s), &chars(from), &chars(to)).iter().collect();
        assert_eq!(replaced, s.replace(from, to));
    }
    let bare: String = text::without_end(&chars("http://h//"), '/').iter().collect();
    assert_eq!(bare, "http://h");
}

#[test]
fn searching_and_comparing() {
    assert_eq!(text::position(&chars("abcabc"), &chars("ca")), Some(2));
    assert_eq!(text::position(&chars("abc"), &chars("")), Some(0));
    assert_eq!(text::position(&chars("ab"), &chars("abc")), None);
    assert!(text::same_text("中", "中"));
    assert!(!text::same_text("中", "中文"));
    let small: String = text::lowered(&chars("ÄBC中Z")).iter().collect();
    assert_eq!(small, "ÄBC中Z".to_ascii_lowercase());
    assert!(text::among('b', &['a', 'b']));
}

#[test]
fn numbers_are_written_in_full() {
    for n in [0u64, 7, 10, 1234567890, u64::MAX] {
        let mut line = String::from("n=");
        text::append_number(&mut line, n);
        assert_eq!(line, format!("n={n}"));
    }
    for n in [0i64, -1, 42, i64::MIN, i64::MAX] {
        let mut line = String::new();
        text::append_signed(&mut line, n);
        assert_eq!(line, n.to_string());
    }
}
