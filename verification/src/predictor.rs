use crate::codec::{decode_error_message, decode_token_table, decoded_token_table};
use crate::context::{process_input, query_of, ContextModel, PredictiveTextContext};
use crate::matching::{
    closest_key, filter_dictionary_on_anchor, filter_on_x_level_context, is_closest, key_distance,
    lemma_closest_is_unique, lemma_closest_key, level_match, ContextLevel, ANCHOR_QUALITY,
};
use crate::quality::{lemma_stage_quality_bounds, stage_quality};
use crate::render::{extract_predictions, phrases, rendering};
use crate::tree::Node;
use crate::vocabulary::Vocabulary;
use std::collections::HashMap;
use vstd::prelude::*;

verus! {

/// Why an operation of the predictor failed.
#[derive(Debug)]
pub enum PredictorError {
    /// The bytes do not decode into the expected shape; the text is the
    /// decoder's own description.
    Decode(String),
    /// A prediction was asked for before both the vocabulary and the context
    /// tree were loaded.
    NotLoaded,
}

/// The state of the engine: the vocabulary and the context tree, each absent
/// until it is loaded and replaced as a whole by each load.
pub struct Predictor {
    pub vocabulary: Option<Vocabulary>,
    pub dictionary: Option<HashMap<i32, Node>>,
}

/// Where matching ends and what it scores. The anchor must be a key of the
/// root, which earns `ANCHOR_QUALITY`. From the node found there, up to two
/// fuzzy stages descend, the first by the first-level signature and the
/// second by the second-level signature. A node that is no inner level ends
/// the descent and is the result. A stage on an inner level that selects no
/// child ends it with no node.
pub open spec fn descent(
    query: ContextModel,
    dictionary: Map<i32, Node>,
    words: Map<i32, Seq<char>>,
    max_distance: nat,
) -> (Option<Node>, int) {
    if !dictionary.contains_key(query.anchor_token) {
        (None, 0)
    } else {
        let anchored = dictionary[query.anchor_token];
        if !(anchored is Branch) {
            (Some(anchored), ANCHOR_QUALITY as int)
        } else {
            let first = level_match(query.first_level_context, anchored, words, max_distance);
            match first.0 {
                None => (None, ANCHOR_QUALITY as int),
                Some(inner) => if !(inner is Branch) {
                    (Some(inner), ANCHOR_QUALITY + first.1)
                } else {
                    let second = level_match(
                        query.second_level_context,
                        inner,
                        words,
                        max_distance,
                    );
                    (second.0, ANCHOR_QUALITY + first.1 + second.1)
                },
            }
        }
    }
}

/// The answer to a typed text: its query, with the quality that matching
/// scores and the phrases that the node it ends on renders to.
pub open spec fn prediction_of(
    words: Map<i32, Seq<char>>,
    dictionary: Map<i32, Node>,
    input: Seq<char>,
    max_distance: nat,
) -> ContextModel {
    let query = query_of(words, input);
    let end = descent(query, dictionary, words, max_distance);
    ContextModel {
        anchor: query.anchor,
        anchor_token: query.anchor_token,
        first_level_context: query.first_level_context,
        second_level_context: query.second_level_context,
        quality: end.1 as i32,
        prediction: rendering(words, end.0),
    }
}

/// A list of continuations that the first-level signature selects below the
/// anchor is what gets predicted: where the anchor leads to an inner level
/// and `key` is the closest candidate there for the first-level signature,
/// with a list as its child, the predictions are the phrases of that list,
/// and the quality is that of the anchor and of this one match.
pub proof fn lemma_selected_list_is_predicted(
    words: Map<i32, Seq<char>>,
    dictionary: Map<i32, Node>,
    input: Seq<char>,
    max_distance: nat,
    key: i32,
)
    requires
        dictionary.contains_key(query_of(words, input).anchor_token),
        dictionary[query_of(words, input).anchor_token] is Branch,
        is_closest(
            dictionary[query_of(words, input).anchor_token]->Branch_0@,
            words,
            query_of(words, input).first_level_context,
            key,
        ),
        (dictionary[query_of(words, input).anchor_token]->Branch_0@)[key] is List,
    ensures
        prediction_of(words, dictionary, input, max_distance).prediction == phrases(
            words,
            (dictionary[query_of(words, input).anchor_token]->Branch_0@)[key]->List_0@,
        ),
        prediction_of(words, dictionary, input, max_distance).quality == ANCHOR_QUALITY
            + stage_quality(
            key_distance(words, query_of(words, input).first_level_context, key),
            max_distance,
        ),
{
    let query = query_of(words, input);
    let children = dictionary[query.anchor_token]->Branch_0@;
    lemma_closest_key(children, words, query.first_level_context);
    lemma_closest_is_unique(
        children,
        words,
        query.first_level_context,
        key,
        closest_key(children, words, query.first_level_context)->0,
    );
    lemma_stage_quality_bounds(
        key_distance(words, query.first_level_context, key),
        max_distance,
    );
}

impl PredictorError {
    /// The error as a text for the caller.
    pub fn message(&self) -> (r: String)
        ensures
            match self {
                PredictorError::Decode(text) => r@ == text@,
                PredictorError::NotLoaded => r@
                    == "the vocabulary and the context tree must be loaded first"@,
            },
    {
        match self {
            PredictorError::Decode(text) => text.clone(),
            PredictorError::NotLoaded => String::from_str(
                "the vocabulary and the context tree must be loaded first",
            ),
        }
    }
}

impl Predictor {
    /// An engine with nothing loaded.
    pub fn new() -> (r: Self)
        ensures
            r.vocabulary is None,
            r.dictionary is None,
    {
        Predictor { vocabulary: None, dictionary: None }
    }
}

/// Replaces the context tree by `dictionary`, the root level keyed by anchor
/// token.
pub fn load_dictionary(state: &mut Predictor, dictionary: HashMap<i32, Node>)
    ensures
        final(state).dictionary == Some(dictionary),
        final(state).vocabulary == old(state).vocabulary,
{
    state.dictionary = Some(dictionary);
}

/// Decodes `data` as a token table and replaces the vocabulary by it. Bytes
/// that do not decode leave the state as it was.
pub fn load_tokens(state: &mut Predictor, data: &[u8]) -> (r: Result<(), PredictorError>)
    ensures
        final(state).dictionary == old(state).dictionary,
        match decoded_token_table(data@) {
            Some(table) => {
                &&& r is Ok
                &&& final(state).vocabulary is Some
                &&& final(state).vocabulary->0@ == table
            },
            None => {
                &&& r is Err
                &&& r->Err_0 is Decode
                &&& final(state).vocabulary == old(state).vocabulary
            },
        },
{
    match decode_token_table(data) {
        Ok(table) => {
            state.vocabulary = Some(Vocabulary::from_tokens(table));
            Ok(())
        },
        Err(error) => Err(PredictorError::Decode(decode_error_message(&error))),
    }
}

/// Predicts the continuations of the typed text `input`. The edit distance
/// at which a fuzzy stage earns no more points is `max_distance`.
pub fn get_predictive_text(state: &Predictor, input: &str, max_distance: usize) -> (r: Result<
    PredictiveTextContext,
    PredictorError,
>)
    ensures
        match r {
            Ok(context) => {
                &&& state.vocabulary is Some
                &&& state.dictionary is Some
                &&& context@ == prediction_of(
                    state.vocabulary->0@,
                    state.dictionary->0@,
                    input@,
                    max_distance as nat,
                )
                &&& 0 <= context.quality <= 150
            },
            Err(error) => error is NotLoaded && (state.vocabulary is None || state.dictionary
                is None),
        },
{
    let vocabulary = match &state.vocabulary {
        Some(vocabulary) => vocabulary,
        None => {
            return Err(PredictorError::NotLoaded);
        },
    };
    let dictionary = match &state.dictionary {
        Some(dictionary) => dictionary,
        None => {
            return Err(PredictorError::NotLoaded);
        },
    };
    let mut context = process_input(input, vocabulary);
    let (anchored, anchor_quality) = filter_dictionary_on_anchor(&context, dictionary);
    let mut quality = anchor_quality;
    let mut last: Option<&Node> = None;
    match anchored {
        Some(node) => {
            if !is_inner(node) {
                last = anchored;
            } else {
                let (inner, first_quality) = filter_on_x_level_context(
                    &context,
                    node,
                    vocabulary,
                    ContextLevel::First,
                    max_distance,
                );
                quality = quality + first_quality;
                match inner {
                    Some(inner_node) => {
                        if !is_inner(inner_node) {
                            last = inner;
                        } else {
                            let (leaf, second_quality) = filter_on_x_level_context(
                                &context,
                                inner_node,
                                vocabulary,
                                ContextLevel::Second,
                                max_distance,
                            );
                            quality = quality + second_quality;
                            last = leaf;
                        }
                    },
                    None => {},
                }
            }
        },
        None => {},
    }
    context.quality = quality;
    context.prediction = extract_predictions(last, vocabulary);
    Ok(context)
}

/// Tells whether `node` is an inner level.
fn is_inner(node: &Node) -> (r: bool)
    ensures
        r == (*node is Branch),
{
    match node {
        Node::Branch(_) => true,
        _ => false,
    }
}

} // verus!
