use vocab_pop::parse::{parse_line, parse_vocab_text};

#[test]
fn line_with_all_fields() {
    let e = parse_line("猫\tneko\tcat\tN5").unwrap();
    assert_eq!(e.word, "猫");
    assert_eq!(e.reading.as_deref(), Some("neko"));
    assert_eq!(e.meaning.as_deref(), Some("cat"));
    assert_eq!(e.codes.as_deref(), Some("N5"));
}

#[test]
fn line_with_word_only() {
    let e = parse_line("猫").unwrap();
    assert_eq!(e.word, "猫");
    assert!(e.reading.is_none());
    assert!(e.meaning.is_none());
    assert!(e.codes.is_none());
}

#[test]
fn blank_line_is_skipped() {
    assert!(parse_line("").is_none());
    assert!(parse_line("   \t  ").is_none());
}

#[test]
fn comment_line_is_skipped() {
    assert!(parse_line("# a comment").is_none());
    assert!(parse_line("   # indented comment").is_none());
}

#[test]
fn blank_fields_are_absent_not_empty() {
    let e = parse_line("word\t \tmeaning").unwrap();
    assert!(e.reading.is_none());
    assert_eq!(e.meaning.as_deref(), Some("meaning"));
    assert!(e.codes.is_none());
}

#[test]
fn fields_are_trimmed() {
    let e = parse_line("  word \t neko \t a cat ").unwrap();
    assert_eq!(e.word, "word");
    assert_eq!(e.reading.as_deref(), Some("neko"));
    assert_eq!(e.meaning.as_deref(), Some("a cat"));
}

#[test]
fn extra_fields_are_ignored() {
    let e = parse_line("w\ta\tb\tc\td\te").unwrap();
    assert_eq!(e.codes.as_deref(), Some("c"));
}

#[test]
fn leading_whitespace_is_trimmed_before_splitting() {
    // The whole line is trimmed first, so a leading tab does not make
    // a blank word field: the first field after the trim is the word.
    let e = parse_line("\treading\tmeaning").unwrap();
    assert_eq!(e.word, "reading");
    assert_eq!(e.reading.as_deref(), Some("meaning"));
}

#[test]
fn text_parses_line_by_line() {
    let text = "# vocab file\n猫\tneko\tcat\tN5\n\n日\thi\n   \n# done\n";
    let v = parse_vocab_text(text);
    assert_eq!(v.len(), 2);
    assert_eq!(v[0].word, "猫");
    assert_eq!(v[1].word, "日");
    assert_eq!(v[1].reading.as_deref(), Some("hi"));
}

#[test]
fn windows_line_endings_are_trimmed() {
    let v = parse_vocab_text("猫\tneko\r\n日\thi\r\n");
    assert_eq!(v.len(), 2);
    assert_eq!(v[0].reading.as_deref(), Some("neko"));
    assert_eq!(v[1].reading.as_deref(), Some("hi"));
}

#[test]
fn empty_text_yields_no_entries() {
    assert!(parse_vocab_text("").is_empty());
}
