use crate::text::{
    acronym, acronymize_context, exclude_words, sanitize_text, sanitized, split_words, strings_of,
    without_stopwords, words_of,
};
use crate::vocabulary::{token_for, Vocabulary};
use vstd::prelude::*;
use vstd::slice::slice_subrange;

verus! {

/// The anchor token of a query whose anchor is not in the vocabulary.
pub const NO_TOKEN: i32 = -1;

/// How many words a context signature is made of at most.
pub const SIGNATURE_WORDS: usize = 3;

/// How many words before the first-level window the second level looks at.
pub const LOOKBACK_WORDS: usize = 20;

/// A prediction request and its answer: the anchor with its two context
/// signatures, and, once matched, the quality and the predicted phrases.
#[derive(Debug)]
pub struct PredictiveTextContext {
    pub anchor: String,
    pub anchor_token: i32,
    pub first_level_context: String,
    pub second_level_context: String,
    pub quality: i32,
    pub prediction: Vec<String>,
}

/// What a `PredictiveTextContext` holds, as plain texts.
pub struct ContextModel {
    pub anchor: Seq<char>,
    pub anchor_token: i32,
    pub first_level_context: Seq<char>,
    pub second_level_context: Seq<char>,
    pub quality: i32,
    pub prediction: Seq<Seq<char>>,
}

impl View for PredictiveTextContext {
    type V = ContextModel;

    open spec fn view(&self) -> ContextModel {
        ContextModel {
            anchor: self.anchor@,
            anchor_token: self.anchor_token,
            first_level_context: self.first_level_context@,
            second_level_context: self.second_level_context@,
            quality: self.quality,
            prediction: strings_of(self.prediction@),
        }
    }
}

/// The first-level window: the words just before the anchor, three at most,
/// in their order. The anchor is the last of `words`.
pub open spec fn first_level_words(words: Seq<Seq<char>>) -> Seq<Seq<char>> {
    let end = words.len() - 1;
    let start = if end >= SIGNATURE_WORDS {
        end - SIGNATURE_WORDS
    } else {
        0
    };
    words.subrange(start, end)
}

/// The second-level window. It exists where more than three words were
/// typed: of the twenty words at most that precede the first-level window,
/// the stopwords are dropped, and the last three at most of the others are
/// taken, in their order.
pub open spec fn second_level_words(words: Seq<Seq<char>>) -> Seq<Seq<char>> {
    if words.len() > SIGNATURE_WORDS {
        let end = words.len() - 1 - SIGNATURE_WORDS;
        let start = if end >= LOOKBACK_WORDS {
            end - LOOKBACK_WORDS
        } else {
            0
        };
        let kept = without_stopwords(words.subrange(start, end));
        let from = if kept.len() >= SIGNATURE_WORDS {
            kept.len() - SIGNATURE_WORDS
        } else {
            0
        };
        kept.subrange(from, kept.len() as int)
    } else {
        Seq::empty()
    }
}

/// The token of the anchor: what the vocabulary gives for its normal form,
/// and `NO_TOKEN` where it gives nothing.
pub open spec fn anchor_token_of(vocabulary: Map<i32, Seq<char>>, anchor: Seq<char>) -> i32 {
    match token_for(vocabulary, sanitized(anchor)) {
        Some(id) => id,
        None => NO_TOKEN,
    }
}

/// The query that a typed text stands for. The text is normalised and split
/// into words; the last word is the anchor, and the words before it give the
/// two signatures. A text without a word gives the empty query.
pub open spec fn query_of(vocabulary: Map<i32, Seq<char>>, input: Seq<char>) -> ContextModel {
    let words = words_of(sanitized(input));
    if words.len() == 0 {
        ContextModel {
            anchor: Seq::empty(),
            anchor_token: NO_TOKEN,
            first_level_context: Seq::empty(),
            second_level_context: Seq::empty(),
            quality: 0,
            prediction: Seq::empty(),
        }
    } else {
        ContextModel {
            anchor: words.last(),
            anchor_token: anchor_token_of(vocabulary, words.last()),
            first_level_context: acronym(first_level_words(words)),
            second_level_context: acronym(second_level_words(words)),
            quality: 0,
            prediction: Seq::empty(),
        }
    }
}

/// Copies the words `words[start..end]`.
fn copy_words(words: &Vec<String>, start: usize, end: usize) -> (window: Vec<String>)
    requires
        start <= end <= words@.len(),
    ensures
        strings_of(window@) == strings_of(words@).subrange(start as int, end as int),
{
    let mut window: Vec<String> = Vec::new();
    let mut i = start;
    while i < end
        invariant
            start <= i <= end <= words@.len(),
            strings_of(window@) == strings_of(words@).subrange(start as int, i as int),
        decreases end - i,
    {
        let ghost before = strings_of(window@);
        let word = words[i].clone();
        assert(word@ == strings_of(words@)[i as int]);
        window.push(word);
        assert(strings_of(window@) =~= before.push(strings_of(words@)[i as int]));
        i += 1;
        assert(strings_of(window@) =~= strings_of(words@).subrange(start as int, i as int));
    }
    window
}

/// Derives the query from the typed text `input`.
pub fn process_input(input: &str, vocabulary: &Vocabulary) -> (context: PredictiveTextContext)
    ensures
        context@ == query_of(vocabulary@, input@),
{
    let sanitized_input = sanitize_text(input);
    let words = split_words(sanitized_input.as_str());
    let n = words.len();
    let ghost texts = strings_of(words@);
    if n == 0 {
        let prediction: Vec<String> = Vec::new();
        assert(strings_of(prediction@) =~= Seq::empty());
        return PredictiveTextContext {
            anchor: String::new(),
            anchor_token: NO_TOKEN,
            first_level_context: String::new(),
            second_level_context: String::new(),
            quality: 0,
            prediction,
        };
    }
    let anchor = words[n - 1].clone();
    let key = sanitize_text(anchor.as_str());
    let anchor_token = match vocabulary.token_of(key.as_str()) {
        Some(id) => id,
        None => NO_TOKEN,
    };
    let end = n - 1;
    let start = if end >= SIGNATURE_WORDS {
        end - SIGNATURE_WORDS
    } else {
        0
    };
    let first_window = slice_subrange(words.as_slice(), start, end);
    assert(strings_of(first_window@) =~= first_level_words(texts));
    let first_level_context = acronymize_context(first_window);
    let second_level_context = if n > SIGNATURE_WORDS {
        let end = n - 1 - SIGNATURE_WORDS;
        let start = if end >= LOOKBACK_WORDS {
            end - LOOKBACK_WORDS
        } else {
            0
        };
        let kept = exclude_words(copy_words(&words, start, end));
        let m = kept.len();
        let from = if m >= SIGNATURE_WORDS {
            m - SIGNATURE_WORDS
        } else {
            0
        };
        let second_window = slice_subrange(kept.as_slice(), from, m);
        assert(strings_of(second_window@) =~= second_level_words(texts));
        acronymize_context(second_window)
    } else {
        String::new()
    };
    let prediction: Vec<String> = Vec::new();
    assert(strings_of(prediction@) =~= Seq::empty());
    PredictiveTextContext {
        anchor,
        anchor_token,
        first_level_context,
        second_level_context,
        quality: 0,
        prediction,
    }
}

} // verus!
