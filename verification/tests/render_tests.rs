use vocab_pop::entry::{render, Entry};

fn entry(word: &str, reading: Option<&str>, meaning: Option<&str>, codes: Option<&str>) -> Entry {
    Entry {
        word: word.to_owned(),
        reading: reading.map(|s| s.to_owned()),
        meaning: meaning.map(|s| s.to_owned()),
        codes: codes.map(|s| s.to_owned()),
    }
}

#[test]
fn body_of_word_only_is_empty() {
    let (title, body) = render(&entry("word", None, None, None));
    assert_eq!(title, "word");
    assert_eq!(body, "");
}

#[test]
fn body_of_reading_and_meaning_is_joined_by_dash() {
    let (title, body) = render(&entry("cat", Some("neko"), Some("a cat"), None));
    assert_eq!(title, "cat");
    assert_eq!(body, "neko — a cat");
}

#[test]
fn body_of_meaning_and_codes_has_no_leading_dash() {
    let (_, body) = render(&entry("cat", None, Some("a cat"), Some("N5")));
    assert_eq!(body, "a cat (N5)");
}

#[test]
fn body_of_all_fields() {
    let (_, body) = render(&entry("cat", Some("neko"), Some("a cat"), Some("N5")));
    assert_eq!(body, "neko — a cat (N5)");
}

#[test]
fn body_of_reading_only() {
    let (_, body) = render(&entry("cat", Some("neko"), None, None));
    assert_eq!(body, "neko");
}

#[test]
fn body_of_reading_and_codes_skips_meaning() {
    let (_, body) = render(&entry("cat", Some("neko"), None, Some("N5")));
    assert_eq!(body, "neko (N5)");
}
