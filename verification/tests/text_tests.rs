use jupyter_edit::text::{byte_len, push_decimal, split_lines, trimmed, trimmed_end};

#[test]
fn lines_split_at_newlines_and_crlf() {
    assert_eq!(split_lines("a\r\nb\nc"), vec!["a", "b", "c"]);
    assert_eq!(split_lines("a\n\nb\n"), vec!["a", "", "b"]);
    assert_eq!(split_lines(""), Vec::<String>::new());
    assert_eq!(split_lines("x\r"), vec!["x\r"]);
    assert_eq!(split_lines("\n"), vec![""]);
}

#[test]
fn lines_match_std_lines() {
    for s in ["one\ntwo\r\nthree\r\n", "\r\n\r\n", "a\rb\nc", "tail\n\n", "ü\nß\r\n"] {
        let std_lines: Vec<String> = s.lines().map(|l| l.to_string()).collect();
        assert_eq!(split_lines(s), std_lines);
    }
}

#[test]
fn trimming_matches_std() {
    for s in ["  a b  ", "\t\n x\u{3000}", "", "   ", "\u{a0}y\u{2028}"] {
        assert_eq!(trimmed(s), s.trim());
        assert_eq!(trimmed_end(s), s.trim_end());
    }
}

#[test]
fn decimal_numbers() {
    let mut s = String::from("n=");
    push_decimal(&mut s, 0);
    push_decimal(&mut s, 1);
    push_decimal(&mut s, 1234567890);
    assert_eq!(s, "n=011234567890");
    let mut t = String::new();
    push_decimal(&mut t, u64::MAX);
    assert_eq!(t, u64::MAX.to_string());
}

#[test]
fn byte_length_counts_utf8_bytes() {
    assert_eq!(byte_len("abc"), 3);
    assert_eq!(byte_len("é"), 2);
    assert_eq!(byte_len("€"), 3);
    assert_eq!(byte_len("😀"), 4);
    assert_eq!(byte_len(""), 0);
}
