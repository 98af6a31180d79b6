use predictive_text::text::word_is_stopword;
use predictive_text::{acronymize_context, exclude_words, sanitize_text, split_words};

fn owned(words: &[&str]) -> Vec<String> {
    words.iter().map(|w| w.to_string()).collect()
}

#[test]
fn sanitize_strips_punctuation_and_lowercases() {
    assert_eq!(sanitize_text("Hello, World!"), "hello world");
    assert_eq!(sanitize_text("It's 5 o'clock\tNOW"), "its 5 oclock\tnow");
    assert_eq!(sanitize_text("a-b_c.d"), "abcd");
    assert_eq!(sanitize_text(""), "");
    assert_eq!(sanitize_text("?!"), "");
}

#[test]
fn sanitize_keeps_letters_and_digits_of_any_script() {
    assert_eq!(sanitize_text("ÉCOLE №7 — Ünïcödé"), "école 7  ünïcödé");
    assert_eq!(sanitize_text("日本語、テスト"), "日本語テスト");
}

#[test]
fn sanitize_keeps_every_kind_of_white_space() {
    assert_eq!(sanitize_text("a\nb\r\nc\u{3000}d"), "a\nb\r\nc\u{3000}d");
}

#[test]
fn split_gives_the_runs_between_white_space() {
    assert_eq!(split_words("  a  bc\td\n"), owned(&["a", "bc", "d"]));
    assert_eq!(split_words("single"), owned(&["single"]));
    assert_eq!(split_words("x y"), owned(&["x", "y"]));
    assert_eq!(split_words("tail "), owned(&["tail"]));
    assert_eq!(split_words(" head"), owned(&["head"]));
    assert_eq!(split_words("wide\u{3000}space"), owned(&["wide", "space"]));
}

#[test]
fn split_of_blank_text_is_empty() {
    assert!(split_words("").is_empty());
    assert!(split_words("   ").is_empty());
    assert!(split_words("\t\n\r").is_empty());
}

#[test]
fn split_agrees_with_the_standard_split() {
    for text in ["", " ", "a", " a b ", "the quick\tbrown\n\nfox ", "\u{a0}x\u{2003}y"] {
        let expected: Vec<String> = text.split_whitespace().map(|w| w.to_string()).collect();
        assert_eq!(split_words(text), expected);
    }
}

#[test]
fn every_stopword_is_recognised() {
    let stopwords = [
        "and", "or", "but", "if", "of", "at", "by", "for", "with", "to", "in", "on", "am", "is",
        "are", "was", "were", "be", "been", "being", "have", "has", "had", "having", "the", "a",
        "an",
    ];
    for word in stopwords {
        assert!(word_is_stopword(word), "{word}");
    }
    assert!(exclude_words(owned(&stopwords)).is_empty());
}

#[test]
fn other_words_are_no_stopwords() {
    for word in ["", "cat", "The", "AND", "ands", "as", "i", "not", "bee", "t", "th", " the"] {
        assert!(!word_is_stopword(word), "{word}");
    }
}

#[test]
fn exclude_keeps_the_order_of_the_rest() {
    assert_eq!(
        exclude_words(owned(&["the", "cat", "is", "on", "a", "mat", "cat"])),
        owned(&["cat", "mat", "cat"])
    );
    assert!(exclude_words(Vec::new()).is_empty());
    assert_eq!(exclude_words(owned(&["xylophone"])), owned(&["xylophone"]));
}

#[test]
fn acronym_takes_the_first_characters() {
    assert_eq!(acronymize_context(&owned(&["apple", "banana", "carrot"])), "abc");
    assert_eq!(acronymize_context(&owned(&["Zebra"])), "z");
    assert_eq!(acronymize_context(&owned(&["Émile", "Ørsted"])), "éø");
    assert_eq!(acronymize_context(&owned(&["42", "is"])), "4i");
}

#[test]
fn acronym_of_nothing_is_empty() {
    assert_eq!(acronymize_context(&[]), "");
    assert_eq!(acronymize_context(&owned(&["", ""])), "");
    assert_eq!(acronymize_context(&owned(&["", "b", ""])), "b");
}
