use datalang::annotation::{read_annotations, read_attribute};
use datalang::constraint::{decimal, read_length_limit};
use datalang::text::{
    char_is_space, contains_char, find_char, lines, split_whitespace, str_eq, to_chars, trim,
    trimmed_lines,
};
use datalang::ParseError;

#[test]
fn whitespace_is_what_unicode_says() {
    for code in 0u32..0x11000 {
        if let Some(c) = char::from_u32(code) {
            assert_eq!(char_is_space(c), c.is_whitespace(), "U+{:04X}", code);
        }
    }
}

#[test]
fn trim_agrees_with_std() {
    for s in ["", " ", "a", "  a b \t\n", "\u{a0}x\u{3000}", "é ", " \r\n", "no-space"] {
        assert_eq!(trim(s), s.trim(), "{:?}", s);
    }
}

#[test]
fn lines_are_split_at_line_feeds() {
    assert!(lines("").is_empty());
    assert_eq!(lines("a"), vec!["a"]);
    assert_eq!(lines("a\n"), vec!["a"]);
    assert_eq!(lines("a\n\nb"), vec!["a", "", "b"]);
    assert_eq!(lines("\n"), vec![""]);
    assert_eq!(lines("a\r\nb\r\n"), vec!["a\r", "b\r"]);
    assert_eq!(trimmed_lines("  a\r\n\t b  \r\n"), vec!["a", "b"]);
    for s in ["x\ny\nz", "\n\nfoo\n", "é\nñ", "one line"] {
        let expected: Vec<&str> = s.lines().collect();
        assert_eq!(lines(s), expected, "{:?}", s);
    }
}

#[test]
fn words_agree_with_std() {
    for s in ["", "   ", "term Name {", "  a\tb\u{a0}c  ", "é  ñ", "one"] {
        let expected: Vec<&str> = s.split_whitespace().collect();
        assert_eq!(split_whitespace(s), expected, "{:?}", s);
    }
}

#[test]
fn characters_and_equality() {
    assert!(contains_char("term {", '{'));
    assert!(!contains_char("term", '{'));
    assert!(!contains_char("", '{'));
    assert!(str_eq("has", "has"));
    assert!(!str_eq("has", "hat"));
    assert!(!str_eq("has", "ha"));
    assert_eq!(to_chars("aé"), vec!['a', 'é']);
    let v = to_chars("a]b]");
    assert_eq!(find_char(&v, 0, ']'), 1);
    assert_eq!(find_char(&v, 2, ']'), 3);
    assert_eq!(find_char(&v, 4, ']'), 4);
    assert_eq!(find_char(&v, 0, 'x'), 4);
}

#[test]
fn length_limits() {
    assert_eq!(read_length_limit("< 10"), Some(10));
    assert_eq!(read_length_limit("<10"), Some(10));
    assert_eq!(read_length_limit("<  007 "), Some(7));
    assert_eq!(read_length_limit("< 0"), Some(0));
    assert_eq!(read_length_limit("< 18446744073709551615"), Some(u64::MAX));
    assert_eq!(read_length_limit("< 18446744073709551616"), None);
    assert_eq!(read_length_limit("< 99999999999999999999999"), None);
    assert_eq!(read_length_limit("<"), None);
    assert_eq!(read_length_limit("< "), None);
    assert_eq!(read_length_limit(""), None);
    assert_eq!(read_length_limit("10"), None);
    assert_eq!(read_length_limit("< 1 0"), None);
    assert_eq!(read_length_limit("< -1"), None);
    assert_eq!(read_length_limit("< ten"), None);
    assert_eq!(read_length_limit("> 10"), None);
}

#[test]
fn decimal_text() {
    assert_eq!(decimal(0), "0");
    assert_eq!(decimal(9), "9");
    assert_eq!(decimal(10), "10");
    assert_eq!(decimal(1234567890), "1234567890");
    assert_eq!(decimal(u64::MAX), "18446744073709551615");
}

#[test]
fn one_annotation() {
    let a = read_attribute(" length < 10 ").unwrap();
    assert_eq!(a.name, "length");
    assert_eq!(a.constraint, Some("< 10".to_string()));
    let a = read_attribute("required").unwrap();
    assert_eq!(a.name, "required");
    assert_eq!(a.constraint, None);
    match read_attribute("  ") {
        Err(ParseError::MissingIdentifier(m)) => assert_eq!(m, "Expected attribute name"),
        other => panic!("unexpected: {:?}", other),
    }
    match read_attribute("< 10") {
        Err(ParseError::MissingIdentifier(m)) => assert_eq!(m, "Expected attribute name"),
        other => panic!("unexpected: {:?}", other),
    }
    match read_attribute("length <") {
        Err(ParseError::InvalidSyntax(m)) => assert_eq!(m, "Expected a value after <"),
        other => panic!("unexpected: {:?}", other),
    }
}

#[test]
fn annotations_in_front_of_a_field() {
    let (attributes, rest) = read_annotations("#[a]  #[length<3]   name").unwrap();
    assert_eq!(attributes.len(), 2);
    assert_eq!(attributes[0].name, "a");
    assert_eq!(attributes[1].constraint, Some("< 3".to_string()));
    assert_eq!(rest, "name");
    let (attributes, rest) = read_annotations("#[a]").unwrap();
    assert_eq!(attributes.len(), 1);
    assert_eq!(rest, "");
    let (attributes, rest) = read_annotations("+Name").unwrap();
    assert!(attributes.is_empty());
    assert_eq!(rest, "+Name");
    match read_annotations("#[length < 10 name") {
        Err(ParseError::InvalidSyntax(m)) => assert_eq!(m, "Expected closing bracket after attribute"),
        other => panic!("unexpected: {:?}", other),
    }
}
