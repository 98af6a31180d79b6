//! Predictive text: continuations of a partially typed sentence, looked up in
//! a context tree.
//!
//! The last word typed is the anchor. The words before it are condensed into
//! two signatures, acronyms of the nearest context. Matching finds the anchor
//! in the root of the tree and then descends by the signatures, each time to
//! the child whose word is nearest in edit distance, and scores how well the
//! context fitted. The node reached is rendered into phrases through the
//! vocabulary.

pub mod codec;
pub mod context;
pub mod distance;
pub mod keys;
pub mod matching;
pub mod predictor;
pub mod quality;
pub mod render;
pub mod text;
pub mod tree;
pub mod vocabulary;

pub use context::{process_input, PredictiveTextContext};
pub use matching::{
    filter_dictionary_on_anchor, filter_on_x_level_context, match_x_level_context, ContextLevel,
};
pub use predictor::{get_predictive_text, load_dictionary, load_tokens, Predictor, PredictorError};
pub use quality::calculate_quality;
pub use render::extract_predictions;
pub use text::{acronymize_context, exclude_words, sanitize_text, split_words};
pub use tree::Node;
pub use vocabulary::Vocabulary;
