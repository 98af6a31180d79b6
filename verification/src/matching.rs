use crate::context::PredictiveTextContext;
use crate::distance::{edit_distance, levenshtein};
use crate::keys::map_keys;
use crate::quality::{calculate_quality, stage_quality, STAGE_QUALITY_MAX};
use crate::tree::{node_of, Node};
use crate::vocabulary::Vocabulary;
use std::collections::HashMap;
use vstd::prelude::*;

verus! {

broadcast use vstd::std_specs::hash::group_hash_axioms;

/// What the exact match of the anchor adds to the quality.
pub const ANCHOR_QUALITY: i32 = 50;

/// The two levels of context below the anchor.
#[derive(Clone, Copy, Debug, PartialEq, Eq, Structural)]
pub enum ContextLevel {
    First,
    Second,
}

/// Whether the child under `key` takes part in a fuzzy match: its key must
/// have a word in the vocabulary to compare the signature with.
pub open spec fn is_candidate(
    children: Map<i32, Node>,
    words: Map<i32, Seq<char>>,
    key: i32,
) -> bool {
    children.contains_key(key) && words.contains_key(key)
}

/// The edit distance between the signature and the word of `key`.
pub open spec fn key_distance(words: Map<i32, Seq<char>>, signature: Seq<char>, key: i32) -> nat {
    edit_distance(signature, words[key])
}

/// The order of preference among keys: the smaller distance first, and of
/// two keys at the same distance the smaller token.
pub open spec fn precedes(
    words: Map<i32, Seq<char>>,
    signature: Seq<char>,
    key: i32,
    other: i32,
) -> bool {
    let d = key_distance(words, signature, key);
    let e = key_distance(words, signature, other);
    d < e || (d == e && key <= other)
}

/// Whether `key` is the candidate that every other candidate comes after.
pub open spec fn is_closest(
    children: Map<i32, Node>,
    words: Map<i32, Seq<char>>,
    signature: Seq<char>,
    key: i32,
) -> bool {
    is_candidate(children, words, key) && forall|other: i32|
        is_candidate(children, words, other) ==> precedes(words, signature, key, other)
}

/// The key of the child that a fuzzy match selects, if there is a candidate.
pub open spec fn closest_key(
    children: Map<i32, Node>,
    words: Map<i32, Seq<char>>,
    signature: Seq<char>,
) -> Option<i32> {
    if exists|key: i32| is_candidate(children, words, key) {
        Some(choose|key: i32| is_closest(children, words, signature, key))
    } else {
        None
    }
}

/// The outcome of one fuzzy stage on `node`: the selected child with the
/// points it earns, or nothing and no points where `node` is no inner level
/// or has no candidate.
pub open spec fn level_match(
    signature: Seq<char>,
    node: Node,
    words: Map<i32, Seq<char>>,
    max_distance: nat,
) -> (Option<Node>, int) {
    match node {
        Node::Branch(children) => match closest_key(children@, words, signature) {
            Some(key) => (
                Some(children@[key]),
                stage_quality(key_distance(words, signature, key), max_distance),
            ),
            None => (None, 0),
        },
        _ => (None, 0),
    }
}

/// Whether `key` is the closest of the candidates below `bound`.
spec fn is_closest_below(
    children: Map<i32, Node>,
    words: Map<i32, Seq<char>>,
    signature: Seq<char>,
    bound: int,
    key: i32,
) -> bool {
    key < bound && is_candidate(children, words, key) && forall|other: i32|
        other < bound && is_candidate(children, words, other) ==> precedes(
            words,
            signature,
            key,
            other,
        )
}

proof fn lemma_closest_below(
    children: Map<i32, Node>,
    words: Map<i32, Seq<char>>,
    signature: Seq<char>,
    bound: int,
)
    requires
        i32::MIN <= bound <= i32::MAX + 1,
    ensures
        (forall|key: i32| key < bound ==> !is_candidate(children, words, key)) || (exists|key: i32|
            is_closest_below(children, words, signature, bound, key)),
    decreases bound - i32::MIN,
{
    if bound > i32::MIN {
        lemma_closest_below(children, words, signature, bound - 1);
        let top = (bound - 1) as i32;
        let below = bound - 1;
        if exists|key: i32| is_closest_below(children, words, signature, below, key) {
            let best = choose|key: i32| is_closest_below(children, words, signature, below, key);
            if is_candidate(children, words, top) && !precedes(words, signature, best, top) {
                assert forall|other: i32|
                    other < bound && is_candidate(children, words, other) implies precedes(
                    words,
                    signature,
                    top,
                    other,
                ) by {
                    if other != top {
                        assert(precedes(words, signature, best, other));
                    }
                }
                assert(is_closest_below(children, words, signature, bound, top));
            } else {
                assert forall|other: i32|
                    other < bound && is_candidate(children, words, other) implies precedes(
                    words,
                    signature,
                    best,
                    other,
                ) by {
                    if other != top {
                        assert(other < bound - 1);
                    }
                }
                assert(is_closest_below(children, words, signature, bound, best));
            }
        } else if is_candidate(children, words, top) {
            assert forall|other: i32|
                other < bound && is_candidate(children, words, other) implies precedes(
                words,
                signature,
                top,
                other,
            ) by {
                if other != top {
                    assert(other < bound - 1);
                }
            }
            assert(is_closest_below(children, words, signature, bound, top));
        } else {
            assert forall|key: i32| key < bound implies !is_candidate(children, words, key) by {
                if key != top {
                    assert(key < bound - 1);
                }
            }
        }
    }
}

/// No two keys are both the closest.
pub proof fn lemma_closest_is_unique(
    children: Map<i32, Node>,
    words: Map<i32, Seq<char>>,
    signature: Seq<char>,
    key: i32,
    other: i32,
)
    requires
        is_closest(children, words, signature, key),
        is_closest(children, words, signature, other),
    ensures
        key == other,
{
    assert(precedes(words, signature, key, other));
    assert(precedes(words, signature, other, key));
}

/// A fuzzy match selects the closest candidate, and selects nothing exactly
/// when there is no candidate.
pub proof fn lemma_closest_key(
    children: Map<i32, Node>,
    words: Map<i32, Seq<char>>,
    signature: Seq<char>,
)
    ensures
        match closest_key(children, words, signature) {
            Some(key) => is_closest(children, words, signature, key),
            None => forall|key: i32| !is_candidate(children, words, key),
        },
{
    if exists|key: i32| is_candidate(children, words, key) {
        let bound = i32::MAX + 1;
        lemma_closest_below(children, words, signature, bound);
        let best = choose|key: i32| is_closest_below(children, words, signature, bound, key);
        assert(is_closest(children, words, signature, best));
    }
}

/// The signature of `context` that the stage of `level` compares.
pub open spec fn signature_at(
    context: crate::context::ContextModel,
    level: ContextLevel,
) -> Seq<char> {
    match level {
        ContextLevel::First => context.first_level_context,
        ContextLevel::Second => context.second_level_context,
    }
}

/// The exact stage: looks the anchor token of `processed_input` up in the
/// root level `dictionary`. Gives the node found there with
/// `ANCHOR_QUALITY`, or nothing and no points.
pub fn filter_dictionary_on_anchor<'a>(
    processed_input: &PredictiveTextContext,
    dictionary: &'a HashMap<i32, Node>,
) -> (r: (Option<&'a Node>, i32))
    ensures
        node_of(r.0) == dictionary@.get(processed_input.anchor_token),
        r.1 == if dictionary@.contains_key(processed_input.anchor_token) {
            ANCHOR_QUALITY
        } else {
            0
        },
{
    let filtered_data = dictionary.get(&processed_input.anchor_token);
    let anchor_quality = if filtered_data.is_some() {
        ANCHOR_QUALITY
    } else {
        0
    };
    (filtered_data, anchor_quality)
}

/// A fuzzy stage: matches the signature of `processed_input` for `level`
/// against the children of `filtered_dictionary`.
pub fn filter_on_x_level_context<'a>(
    processed_input: &PredictiveTextContext,
    filtered_dictionary: &'a Node,
    vocabulary: &Vocabulary,
    level: ContextLevel,
    max_distance: usize,
) -> (r: (Option<&'a Node>, i32))
    ensures
        node_of(r.0) == level_match(
            signature_at(processed_input@, level),
            *filtered_dictionary,
            vocabulary@,
            max_distance as nat,
        ).0,
        r.1 == level_match(
            signature_at(processed_input@, level),
            *filtered_dictionary,
            vocabulary@,
            max_distance as nat,
        ).1,
        0 <= r.1 <= STAGE_QUALITY_MAX,
{
    let signature = match level {
        ContextLevel::First => processed_input.first_level_context.as_str(),
        ContextLevel::Second => processed_input.second_level_context.as_str(),
    };
    match_x_level_context(signature, filtered_dictionary, vocabulary, max_distance)
}

/// Selects among the children of `filtered_dict` the one whose key has the
/// word nearest to `x_level_context`, and scores the match. Of several keys
/// at the least distance the smallest token is taken. Keys without a word in
/// the vocabulary are passed over.
pub fn match_x_level_context<'a>(
    x_level_context: &str,
    filtered_dict: &'a Node,
    vocabulary: &Vocabulary,
    max_distance: usize,
) -> (r: (Option<&'a Node>, i32))
    ensures
        node_of(r.0) == level_match(
            x_level_context@,
            *filtered_dict,
            vocabulary@,
            max_distance as nat,
        ).0,
        r.1 == level_match(x_level_context@, *filtered_dict, vocabulary@, max_distance as nat).1,
        0 <= r.1 <= STAGE_QUALITY_MAX,
{
    match filtered_dict {
        Node::Branch(children) => {
            let ghost words = vocabulary@;
            let ghost signature = x_level_context@;
            let keys = map_keys(children);
            let n = keys.len();
            let mut best: Option<(i32, usize)> = None;
            let mut i: usize = 0;
            while i < n
                invariant
                    n == keys@.len(),
                    i <= n,
                    words == vocabulary@,
                    signature == x_level_context@,
                    best is None ==> forall|j: int|
                        0 <= j < i ==> !is_candidate(children@, words, #[trigger] keys@[j]),
                    best matches Some((key, distance)) ==> {
                        &&& is_candidate(children@, words, key)
                        &&& distance == key_distance(words, signature, key)
                        &&& forall|j: int|
                            0 <= j < i && is_candidate(children@, words, #[trigger] keys@[j])
                                ==> precedes(words, signature, key, keys@[j])
                    },
                    keys@.to_set() == children@.dom(),
                decreases n - i,
            {
                let key = keys[i];
                assert(children@.contains_key(key)) by {
                    assert(keys@.contains(keys@[i as int]));
                    assert(keys@.to_set().contains(key));
                }
                match vocabulary.word_of(key) {
                    Some(word) => {
                        let distance = levenshtein(x_level_context, word.as_str());
                        let closer = match best {
                            Some((found, least)) => distance < least || (distance == least && key
                                < found),
                            None => true,
                        };
                        if closer {
                            best = Some((key, distance));
                        }
                    },
                    None => {},
                }
                i += 1;
            }
            match best {
                Some((key, distance)) => {
                    proof {
                        assert forall|other: i32|
                            is_candidate(children@, words, other) implies precedes(
                            words,
                            signature,
                            key,
                            other,
                        ) by {
                            assert(keys@.to_set().contains(other));
                            let j = choose|j: int| 0 <= j < keys@.len() && keys@[j] == other;
                            assert(is_candidate(children@, words, keys@[j]));
                        }
                        assert(is_closest(children@, words, signature, key));
                        lemma_closest_key(children@, words, signature);
                        lemma_closest_is_unique(
                            children@,
                            words,
                            signature,
                            key,
                            closest_key(children@, words, signature)->0,
                        );
                    }
                    (children.get(&key), calculate_quality(distance, max_distance))
                },
                None => {
                    proof {
                        assert forall|other: i32| !is_candidate(children@, words, other) by {
                            if children@.contains_key(other) {
                                assert(keys@.to_set().contains(other));
                                let j = choose|j: int| 0 <= j < keys@.len() && keys@[j] == other;
                                assert(!is_candidate(children@, words, keys@[j]));
                            }
                        }
                    }
                    (None, 0)
                },
            }
        },
        _ => (None, 0),
    }
}

} // verus!
