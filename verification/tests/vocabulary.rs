use predictive_text::{sanitize_text, Vocabulary};
use std::collections::HashMap;

fn table(entries: &[(i32, &str)]) -> HashMap<i32, String> {
    entries.iter().map(|(id, word)| (*id, word.to_string())).collect()
}

#[test]
fn empty_vocabulary_knows_nothing() {
    let vocabulary = Vocabulary::new();
    assert_eq!(vocabulary.token_of("apple"), None);
    assert_eq!(vocabulary.token_of(""), None);
    assert!(vocabulary.word_of(0).is_none());
    assert!(vocabulary.words().is_empty());
}

#[test]
fn forward_lookup_gives_the_stored_word() {
    let vocabulary = Vocabulary::from_tokens(table(&[(1, "Apple"), (-7, "banana split"), (0, "")]));
    assert_eq!(vocabulary.word_of(1).map(|w| w.as_str()), Some("Apple"));
    assert_eq!(vocabulary.word_of(-7).map(|w| w.as_str()), Some("banana split"));
    assert_eq!(vocabulary.word_of(0).map(|w| w.as_str()), Some(""));
    assert!(vocabulary.word_of(2).is_none());
    assert_eq!(vocabulary.words(), &table(&[(1, "Apple"), (-7, "banana split"), (0, "")]));
}

#[test]
fn inverse_lookup_goes_by_the_normal_form() {
    let vocabulary = Vocabulary::from_tokens(table(&[(1, "Apple"), (2, "don't"), (3, "x y")]));
    assert_eq!(vocabulary.token_of("apple"), Some(1));
    assert_eq!(vocabulary.token_of("Apple"), None);
    assert_eq!(vocabulary.token_of("dont"), Some(2));
    assert_eq!(vocabulary.token_of("don't"), None);
    assert_eq!(vocabulary.token_of("x y"), Some(3));
    assert_eq!(vocabulary.token_of("pear"), None);
}

#[test]
fn round_trip_leads_back_to_the_token() {
    let entries = [(1, "Apple"), (2, "banana"), (30, "Cherry-pie"), (-4, "42"), (5, "")];
    let vocabulary = Vocabulary::from_tokens(table(&entries));
    for (id, _) in entries {
        let word = vocabulary.word_of(id).expect("stored");
        assert_eq!(vocabulary.token_of(&sanitize_text(word)), Some(id));
    }
}

#[test]
fn of_colliding_words_the_greater_token_wins() {
    let entries = [(9, "apple"), (2, "Apple"), (5, "APPLE!"), (-3, "a.p.p.l.e"), (4, "pear")];
    let vocabulary = Vocabulary::from_tokens(table(&entries));
    assert_eq!(vocabulary.token_of("apple"), Some(9));
    assert_eq!(vocabulary.token_of("pear"), Some(4));
    for (id, _) in entries {
        let word = vocabulary.word_of(id).expect("stored");
        let found = vocabulary.token_of(&sanitize_text(word)).expect("indexed");
        assert!(found >= id);
        assert_eq!(
            sanitize_text(vocabulary.word_of(found).expect("stored")),
            sanitize_text(word)
        );
    }
}

#[test]
fn collisions_do_not_depend_on_the_order_of_insertion() {
    for order in [[1, 2, 3], [3, 2, 1], [2, 3, 1], [2, 1, 3]] {
        let mut words = HashMap::new();
        for id in order {
            words.insert(id, "Same".to_string());
        }
        assert_eq!(Vocabulary::from_tokens(words).token_of("same"), Some(3));
    }
}
