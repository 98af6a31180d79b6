use crate::keys::map_keys;
use crate::text::{sanitize_text, sanitized};
use std::collections::HashMap;
use vstd::hash_map::StringHashMap;
use vstd::prelude::*;

verus! {

broadcast use vstd::std_specs::hash::group_hash_axioms;

/// The words of a token table as texts.
pub open spec fn table_words(table: Map<i32, String>) -> Map<i32, Seq<char>> {
    Map::new(|id: i32| table.contains_key(id), |id: i32| table[id]@)
}

/// Whether token `id` stands in `words` for a word whose normal form is `key`.
pub open spec fn names(words: Map<i32, Seq<char>>, key: Seq<char>, id: i32) -> bool {
    words.contains_key(id) && sanitized(words[id]) == key
}

/// Whether `id` is the token that a lookup of `key` gives: the greatest of
/// the tokens that name `key`.
pub open spec fn is_token_for(words: Map<i32, Seq<char>>, key: Seq<char>, id: i32) -> bool {
    names(words, key, id) && forall|other: i32| names(words, key, other) ==> other <= id
}

/// The token that the inverse mapping gives for `key`, if any token names it.
/// Where the words of several tokens share one normal form, the table is
/// taken in ascending order of token and the later entry wins.
pub open spec fn token_for(words: Map<i32, Seq<char>>, key: Seq<char>) -> Option<i32> {
    if exists|id: i32| names(words, key, id) {
        Some(choose|id: i32| is_token_for(words, key, id))
    } else {
        None
    }
}

/// The inverse mapping as a whole: from normal forms to tokens.
pub open spec fn index_of(words: Map<i32, Seq<char>>) -> Map<Seq<char>, i32> {
    Map::new(
        |key: Seq<char>| token_for(words, key) is Some,
        |key: Seq<char>| token_for(words, key)->0,
    )
}

proof fn lemma_greatest_name(words: Map<i32, Seq<char>>, key: Seq<char>, id: i32, top: int)
    requires
        names(words, key, id),
        id <= top <= i32::MAX,
        forall|other: i32| names(words, key, other) ==> other <= top,
    ensures
        exists|best: i32| is_token_for(words, key, best),
    decreases top - id,
{
    if names(words, key, top as i32) {
        assert(is_token_for(words, key, top as i32));
    } else {
        lemma_greatest_name(words, key, id, top - 1);
    }
}

/// What a lookup gives: the greatest token that names the key, and nothing
/// exactly when no token names it.
pub proof fn lemma_token_for(words: Map<i32, Seq<char>>, key: Seq<char>)
    ensures
        match token_for(words, key) {
            Some(id) => is_token_for(words, key, id),
            None => forall|id: i32| !names(words, key, id),
        },
{
    if exists|id: i32| names(words, key, id) {
        let id = choose|id: i32| names(words, key, id);
        lemma_greatest_name(words, key, id, i32::MAX as int);
    }
}

/// The two directions are inverse to each other: looking up the normal form
/// of a stored word leads back to a token whose word has that normal form,
/// and to the very token it was stored under unless a greater token shares
/// the normal form, in which case the greater one wins.
pub proof fn lemma_lookup_round_trip(words: Map<i32, Seq<char>>, id: i32)
    requires
        words.contains_key(id),
    ensures
        token_for(words, sanitized(words[id])) is Some,
        token_for(words, sanitized(words[id]))->0 >= id,
        names(words, sanitized(words[id]), token_for(words, sanitized(words[id]))->0),
        (forall|other: i32| other > id ==> !names(words, sanitized(words[id]), other))
            ==> token_for(words, sanitized(words[id])) == Some(id),
{
    let key = sanitized(words[id]);
    assert(names(words, key, id));
    lemma_token_for(words, key);
}

/// The vocabulary: token identifiers with their words, and the inverse
/// mapping from the normal forms of the words back to the tokens.
pub struct Vocabulary {
    words: HashMap<i32, String>,
    tokens: StringHashMap<i32>,
}

impl View for Vocabulary {
    type V = Map<i32, Seq<char>>;

    closed spec fn view(&self) -> Map<i32, Seq<char>> {
        table_words(self.words@)
    }
}

impl Vocabulary {
    #[verifier::type_invariant]
    spec fn indexed(&self) -> bool {
        self.tokens@ == index_of(table_words(self.words@))
    }

    /// A vocabulary without any token.
    pub fn new() -> (r: Self)
        ensures
            r@ == Map::<i32, Seq<char>>::empty(),
    {
        let words: HashMap<i32, String> = HashMap::new();
        let tokens: StringHashMap<i32> = StringHashMap::new();
        proof {
            assert(table_words(words@) =~= Map::<i32, Seq<char>>::empty());
            assert(tokens@ =~= index_of(table_words(words@)));
        }
        Vocabulary { words, tokens }
    }

    /// Builds the vocabulary of a token table, with its inverse mapping.
    pub fn from_tokens(words: HashMap<i32, String>) -> (r: Self)
        ensures
            r@ == table_words(words@),
    {
        let ghost texts = table_words(words@);
        let keys = map_keys(&words);
        let mut tokens: StringHashMap<i32> = StringHashMap::new();
        let n = keys.len();
        let mut i: usize = 0;
        while i < n
            invariant
                n == keys@.len(),
                i <= n,
                keys@.to_set() == words@.dom(),
                texts == table_words(words@),
                forall|key: Seq<char>| #[trigger]
                    tokens@.contains_key(key) ==> names(texts, key, tokens@[key]),
                forall|j: int|
                    0 <= j < i ==> tokens@.contains_key(sanitized(texts[#[trigger] keys@[j]]))
                        && tokens@[sanitized(texts[keys@[j]])] >= keys@[j],
            decreases n - i,
        {
            let id = keys[i];
            assert(keys@.to_set().contains(id)) by {
                assert(keys@.contains(keys@[i as int]));
            }
            let word = words.get(&id);
            assert(word is Some);
            let key = sanitize_text(word.unwrap().as_str());
            let later = match tokens.get(key.as_str()) {
                Some(found) => *found < id,
                None => true,
            };
            if later {
                tokens.insert(key, id);
            }
            i += 1;
        }
        proof {
            let index = index_of(texts);
            assert forall|key: Seq<char>| #[trigger]
                tokens@.contains_key(key) == index.contains_key(key) && (tokens@.contains_key(key)
                    ==> tokens@[key] == index[key]) by {
                lemma_token_for(texts, key);
                if tokens@.contains_key(key) {
                    assert(names(texts, key, tokens@[key]));
                }
                if token_for(texts, key) is Some {
                    let best = token_for(texts, key)->0;
                    assert(keys@.to_set().contains(best));
                    let j = choose|j: int| 0 <= j < keys@.len() && keys@[j] == best;
                    assert(tokens@.contains_key(sanitized(texts[keys@[j]])));
                }
            }
            assert(tokens@ =~= index);
        }
        Vocabulary { words, tokens }
    }

    /// The token whose word has the normal form `key`.
    pub fn token_of(&self, key: &str) -> (r: Option<i32>)
        ensures
            r == token_for(self@, key@),
    {
        proof {
            use_type_invariant(self);
        }
        match self.tokens.get(key) {
            Some(id) => Some(*id),
            None => None,
        }
    }

    /// The word of token `id`.
    pub fn word_of(&self, id: i32) -> (r: Option<&String>)
        ensures
            match r {
                Some(word) => self@.contains_key(id) && word@ == self@[id],
                None => !self@.contains_key(id),
            },
    {
        self.words.get(&id)
    }

    /// The token table itself.
    pub fn words(&self) -> (r: &HashMap<i32, String>)
        ensures
            table_words(r@) == self@,
    {
        &self.words
    }
}

} // verus!
