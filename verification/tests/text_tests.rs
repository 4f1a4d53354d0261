use fixreader::text::{chars_of, contains_seq, split_equals, split_pieces, string_of};

fn pieces(s: &str, sep: &str) -> Vec<String> {
    split_pieces(&chars_of(s), &chars_of(sep))
}

#[test]
fn pieces_stop_at_first_empty_piece() {
    assert_eq!(pieces("8=FIX|9=5||35=A", "|"), vec!["8=FIX", "9=5"]);
    assert_eq!(pieces("8=FIX|9=5|", "|"), vec!["8=FIX", "9=5"]);
    assert_eq!(pieces("|8=FIX", "|"), Vec::<String>::new());
    assert_eq!(pieces("", "|"), Vec::<String>::new());
}

#[test]
fn pieces_match_std_split_take_while() {
    let cases = [
        ("a^A b^A c^A ", "^A "),
        ("35=D\u{1}49=X\u{1}", "\u{1}"),
        ("a\\x01b\\x01\\x01c", "\\x01"),
        ("no separator here", "|"),
        ("aaa", "aa"),
        ("abc", ""),
    ];
    for (s, sep) in cases {
        let expected: Vec<String> = s
            .split(sep)
            .take_while(|p| !p.is_empty())
            .map(|p| p.to_string())
            .collect();
        assert_eq!(pieces(s, sep), expected, "input {:?} sep {:?}", s, sep);
    }
}

#[test]
fn split_equals_uses_first_equals_sign() {
    assert_eq!(
        split_equals(&chars_of("58=a=b")),
        Some(("58".to_string(), "a=b".to_string()))
    );
    assert_eq!(split_equals(&chars_of("=x")), Some((String::new(), "x".to_string())));
    assert_eq!(split_equals(&chars_of("novalue")), None);
}

#[test]
fn contains_and_substrings() {
    assert!(contains_seq(&chars_of("8=FIX^A 9=1"), &chars_of("^A ")));
    assert!(!contains_seq(&chars_of("8=FIX^A9=1"), &chars_of("^A ")));
    assert!(contains_seq(&chars_of("abc"), &chars_of("")));
    assert_eq!(string_of(&chars_of("héllo"), 1, 4), "éll");
}

#[test]
fn every_piece_is_nonempty_and_holds_no_separator() {
    for (s, sep) in [("a||b|c", "|"), ("x^A y^A ^A z", "^A "), ("1\\x012\\x01", "\\x01")] {
        for p in pieces(s, sep) {
            assert!(!p.is_empty());
            assert!(!contains_seq(&chars_of(&p), &chars_of(sep)));
        }
    }
}
