use predictive_text::process_input;
use predictive_text::Vocabulary;

#[test]
fn test_first_level_context() {
    let input = "Apple banana carrot orange";
    let context = process_input(input, &Vocabulary::new());

    assert_eq!(context.first_level_context, "abc", "The first level context did not match the expected value.");
}

#[test]
fn test_first_level_short_context() {
    let input = "carrot orange";
    let context = process_input(input, &Vocabulary::new());

    assert_eq!(context.first_level_context, "c", "The first level context did not match the expected value.");
}

#[test]
fn test_first_level_long_context() {
    let input = "sweater if you think you need";
    let context = process_input(input, &Vocabulary::new());

    assert_eq!(context.first_level_context, "yty", "The first level context did not match the expected value.");
    assert_eq!(context.second_level_context, "s", "The second level context did not match the expected value.");
}

#[test]
fn test_second_level_context() {
    let input = "Xylophone Yacht is Zebra Apple banana carrot orange";
    let context = process_input(input, &Vocabulary::new());

    assert_eq!(context.second_level_context, "xyz", "The second level context did not match the expected value.");
}

#[test]
fn test_anchor_only() {
    let input = "orange";
    let context = process_input(input, &Vocabulary::new());

    assert_eq!(context.first_level_context, "", "The first level context did not match the expected value.");
    assert_eq!(context.second_level_context, "", "The second level context did not match the expected value.");
}

fn vocabulary_of(entries: &[(i32, &str)]) -> Vocabulary {
    let mut table = std::collections::HashMap::new();
    for (id, word) in entries {
        table.insert(*id, word.to_string());
    }
    Vocabulary::from_tokens(table)
}

#[test]
fn empty_input_gives_the_empty_query() {
    for input in ["", "   ", "\t\n", "?!...", " - "] {
        let context = process_input(input, &vocabulary_of(&[(1, "orange")]));
        assert_eq!(context.anchor, "");
        assert_eq!(context.anchor_token, -1);
        assert_eq!(context.first_level_context, "");
        assert_eq!(context.second_level_context, "");
        assert_eq!(context.quality, 0);
        assert!(context.prediction.is_empty());
    }
}

#[test]
fn anchor_is_the_last_word_in_normal_form() {
    let context = process_input("Carrot, ORANGE!", &Vocabulary::new());
    assert_eq!(context.anchor, "orange");
    assert_eq!(context.anchor_token, -1);
    assert_eq!(context.quality, 0);
    assert!(context.prediction.is_empty());
}

#[test]
fn anchor_token_comes_from_the_vocabulary() {
    let vocabulary = vocabulary_of(&[(7, "Orange"), (8, "carrot")]);
    assert_eq!(process_input("carrot orange", &vocabulary).anchor_token, 7);
    assert_eq!(process_input("orange CARROT.", &vocabulary).anchor_token, 8);
    assert_eq!(process_input("orange carrots", &vocabulary).anchor_token, -1);
}

#[test]
fn first_level_takes_three_words_at_most() {
    let context = process_input("one two three four five six", &Vocabulary::new());
    assert_eq!(context.anchor, "six");
    assert_eq!(context.first_level_context, "tff");
    let context = process_input("Two  three\tfour", &Vocabulary::new());
    assert_eq!(context.first_level_context, "tt");
}

#[test]
fn first_level_keeps_stopwords() {
    let context = process_input("cat is on mat", &Vocabulary::new());
    assert_eq!(context.first_level_context, "cio");
    assert_eq!(context.second_level_context, "");
}

#[test]
fn second_level_needs_more_than_three_words() {
    assert_eq!(process_input("banana carrot orange", &Vocabulary::new()).second_level_context, "");
    assert_eq!(
        process_input("apple banana carrot orange", &Vocabulary::new()).second_level_context,
        ""
    );
    assert_eq!(
        process_input("zebra apple banana carrot orange", &Vocabulary::new()).second_level_context,
        "z"
    );
}

#[test]
fn second_level_takes_the_nearest_three_words() {
    let context = process_input(
        "kiwi lemon mango nectarine apple banana carrot orange",
        &Vocabulary::new(),
    );
    assert_eq!(context.first_level_context, "abc");
    assert_eq!(context.second_level_context, "lmn");
}

#[test]
fn second_level_skips_stopwords_before_counting() {
    let context = process_input(
        "kiwi the lemon of a mango with an apple banana carrot orange",
        &Vocabulary::new(),
    );
    assert_eq!(context.first_level_context, "abc");
    assert_eq!(context.second_level_context, "klm");
}

#[test]
fn second_level_looks_back_twenty_words() {
    let fill = |n: usize| vec!["the"; n].join(" ");
    let near = format!("zeta yoke {} apple banana carrot orange", fill(19));
    assert_eq!(process_input(&near, &Vocabulary::new()).second_level_context, "y");
    let far = format!("zeta yoke {} apple banana carrot orange", fill(20));
    assert_eq!(process_input(&far, &Vocabulary::new()).second_level_context, "");
    let edge = format!("zeta yoke {} apple banana carrot orange", fill(18));
    assert_eq!(process_input(&edge, &Vocabulary::new()).second_level_context, "zy");
}

#[test]
fn second_level_window_ends_where_the_first_begins() {
    let input = format!("{} apple banana carrot orange", vec!["the"; 26].join(" "));
    let context = process_input(&input, &Vocabulary::new());
    assert_eq!(context.first_level_context, "abc");
    assert_eq!(context.second_level_context, "");
}
