use vstd::prelude::*;

verus! {

/// Whether `c` is alphanumeric in the sense of `char::is_alphanumeric`.
pub uninterp spec fn is_alphanumeric(c: char) -> bool;

/// Whether `c` is white space in the sense of `char::is_whitespace`.
pub uninterp spec fn is_whitespace(c: char) -> bool;

/// The lowercase form of a text in the sense of `str::to_lowercase`.
pub uninterp spec fn lowercase(s: Seq<char>) -> Seq<char>;

/// Calls `char::is_alphanumeric`; the contract only gives the answer its name.
#[verifier::external_body]
fn char_is_alphanumeric(c: char) -> (r: bool)
    ensures
        r == is_alphanumeric(c),
{
    c.is_alphanumeric()
}

/// Calls `char::is_whitespace`; the contract only gives the answer its name.
#[verifier::external_body]
fn char_is_whitespace(c: char) -> (r: bool)
    ensures
        r == is_whitespace(c),
{
    c.is_whitespace()
}

/// Calls `str::to_lowercase`; the contract only gives the result its name.
#[verifier::external_body]
fn str_to_lowercase(s: &str) -> (r: String)
    ensures
        r@ == lowercase(s@),
{
    s.to_lowercase()
}

/// Calls `String::push`, which appends one character to the end of the string.
#[verifier::external_body]
pub(crate) fn string_push(s: &mut String, c: char)
    ensures
        final(s)@ == old(s)@.push(c),
{
    s.push(c)
}

/// Calls `str::eq`, which holds exactly when the two strings consist of the
/// same characters.
#[verifier::external_body]
fn str_eq(a: &str, b: &str) -> (r: bool)
    ensures
        r == (a@ == b@),
{
    a == b
}

/// A character that normalisation keeps: a letter, a digit or white space.
pub open spec fn is_kept(c: char) -> bool {
    is_alphanumeric(c) || is_whitespace(c)
}

/// The normal form of a text: every character that is neither alphanumeric
/// nor white space is dropped, and what remains is put in lowercase.
pub open spec fn sanitized(text: Seq<char>) -> Seq<char> {
    lowercase(text.filter(|c: char| is_kept(c)))
}

/// Normalises `text`: strips punctuation and lowercases the rest.
pub fn sanitize_text(text: &str) -> (r: String)
    ensures
        r@ == sanitized(text@),
{
    broadcast use vstd::string::group_string_axioms;

    let mut kept = String::new();
    let ghost keep = |c: char| is_kept(c);
    proof {
        assert(text@.take(0).filter(keep) =~= Seq::<char>::empty()) by {
            reveal(Seq::filter);
        }
    }
    for c in it: text.chars()
        invariant
            it.seq() == text@,
            keep == (|c: char| is_kept(c)),
            kept@ == text@.take(it.index()).filter(keep),
    {
        proof {
            let done = text@.take(it.index());
            assert(text@.take(it.index() + 1) =~= done.push(c));
            done.lemma_filter_push(c, keep);
        }
        if char_is_alphanumeric(c) || char_is_whitespace(c) {
            string_push(&mut kept, c);
        }
    }
    proof {
        assert(text@.take(text@.len() as int) =~= text@);
    }
    str_to_lowercase(kept.as_str())
}

/// The texts that a list of strings holds, in the same order.
pub open spec fn strings_of(v: Seq<String>) -> Seq<Seq<char>> {
    v.map_values(|s: String| s@)
}

/// The words of a text: its maximal runs of characters that are not white
/// space, from left to right. Reading the text from the left, a character
/// that is not white space extends the word in progress when the character
/// before it belongs to one, and starts a new word otherwise.
pub open spec fn words_of(text: Seq<char>) -> Seq<Seq<char>>
    decreases text.len(),
{
    if text.len() == 0 {
        Seq::empty()
    } else {
        let before = text.drop_last();
        let c = text.last();
        if is_whitespace(c) {
            words_of(before)
        } else if before.len() > 0 && !is_whitespace(before.last()) {
            let earlier = words_of(before);
            earlier.drop_last().push(earlier.last().push(c))
        } else {
            words_of(before).push(seq![c])
        }
    }
}

/// Every word is non-empty and free of white space, and a text that ends in
/// a character other than white space ends in its last word.
pub proof fn lemma_words_are_runs(text: Seq<char>)
    ensures
        forall|i: int|
            0 <= i < words_of(text).len() ==> (#[trigger] words_of(text)[i]).len() > 0,
        forall|i: int, j: int|
            0 <= i < words_of(text).len() && 0 <= j < words_of(text)[i].len() ==> !is_whitespace(
                #[trigger] words_of(text)[i][j],
            ),
        text.len() > 0 && !is_whitespace(text.last()) ==> words_of(text).len() > 0 && words_of(
            text,
        ).last().last() == text.last(),
    decreases text.len(),
{
    if text.len() > 0 {
        let before = text.drop_last();
        let c = text.last();
        lemma_words_are_runs(before);
        let earlier = words_of(before);
        let now = words_of(text);
        if is_whitespace(c) {
        } else if before.len() > 0 && !is_whitespace(before.last()) {
            let grown = earlier.last().push(c);
            assert(now == earlier.drop_last().push(grown));
            assert forall|i: int| 0 <= i < now.len() implies (#[trigger] now[i]).len() > 0 by {
                if i < now.len() - 1 {
                    assert(now[i] == earlier[i]);
                }
            }
            assert forall|i: int, j: int| 0 <= i < now.len() && 0 <= j < now[i].len() implies
                !is_whitespace(#[trigger] now[i][j]) by {
                if i < now.len() - 1 {
                    assert(now[i] == earlier[i]);
                } else if j < grown.len() - 1 {
                    assert(now[i][j] == earlier.last()[j]);
                }
            }
        } else {
            assert(now == earlier.push(seq![c]));
            assert forall|i: int| 0 <= i < now.len() implies (#[trigger] now[i]).len() > 0 by {
                if i < now.len() - 1 {
                    assert(now[i] == earlier[i]);
                }
            }
            assert forall|i: int, j: int| 0 <= i < now.len() && 0 <= j < now[i].len() implies
                !is_whitespace(#[trigger] now[i][j]) by {
                if i < now.len() - 1 {
                    assert(now[i] == earlier[i]);
                }
            }
        }
    }
}

/// Splits `text` on white space into its words.
pub fn split_words(text: &str) -> (words: Vec<String>)
    ensures
        strings_of(words@) == words_of(text@),
{
    broadcast use vstd::string::group_string_axioms;

    let mut words: Vec<String> = Vec::new();
    let mut current = String::new();
    let mut open = false;
    for c in it: text.chars()
        invariant
            it.seq() == text@,
            open <==> it.index() > 0 && !is_whitespace(text@[it.index() - 1]),
            open ==> words_of(text@.take(it.index())) == strings_of(words@).push(current@),
            !open ==> words_of(text@.take(it.index())) == strings_of(words@),
            !open ==> current@.len() == 0,
    {
        proof {
            let done = text@.take(it.index());
            let next = text@.take(it.index() + 1);
            assert(next.drop_last() =~= done);
            assert(next.last() == c);
            if it.index() > 0 {
                assert(done.last() == text@[it.index() - 1]);
            }
        }
        let ghost before = strings_of(words@);
        if char_is_whitespace(c) {
            if open {
                let ghost finished = current@;
                words.push(current);
                current = String::new();
                open = false;
                assert(strings_of(words@) =~= before.push(finished));
            }
        } else {
            let ghost partial = current@;
            string_push(&mut current, c);
            proof {
                if open {
                    let earlier = words_of(text@.take(it.index()));
                    assert(earlier.drop_last() =~= before);
                    assert(earlier.last() == partial);
                } else {
                    assert(partial.push(c) =~= seq![c]);
                }
            }
            open = true;
        }
    }
    proof {
        assert(text@.take(text@.len() as int) =~= text@);
    }
    if open {
        let ghost before = strings_of(words@);
        words.push(current);
        assert(strings_of(words@) =~= before.push(current@));
    }
    words
}

/// Whether `word` is one of the function words (conjunctions, prepositions,
/// auxiliaries and articles) that carry no context of their own.
pub open spec fn is_stopword(word: Seq<char>) -> bool {
    ||| word == "and"@
    ||| word == "or"@
    ||| word == "but"@
    ||| word == "if"@
    ||| word == "of"@
    ||| word == "at"@
    ||| word == "by"@
    ||| word == "for"@
    ||| word == "with"@
    ||| word == "to"@
    ||| word == "in"@
    ||| word == "on"@
    ||| word == "am"@
    ||| word == "is"@
    ||| word == "are"@
    ||| word == "was"@
    ||| word == "were"@
    ||| word == "be"@
    ||| word == "been"@
    ||| word == "being"@
    ||| word == "have"@
    ||| word == "has"@
    ||| word == "had"@
    ||| word == "having"@
    ||| word == "the"@
    ||| word == "a"@
    ||| word == "an"@
}

/// Tells whether `word` is a stopword.
pub fn word_is_stopword(word: &str) -> (r: bool)
    ensures
        r == is_stopword(word@),
{
    str_eq(word, "and")
        || str_eq(word, "or")
        || str_eq(word, "but")
        || str_eq(word, "if")
        || str_eq(word, "of")
        || str_eq(word, "at")
        || str_eq(word, "by")
        || str_eq(word, "for")
        || str_eq(word, "with")
        || str_eq(word, "to")
        || str_eq(word, "in")
        || str_eq(word, "on")
        || str_eq(word, "am")
        || str_eq(word, "is")
        || str_eq(word, "are")
        || str_eq(word, "was")
        || str_eq(word, "were")
        || str_eq(word, "be")
        || str_eq(word, "been")
        || str_eq(word, "being")
        || str_eq(word, "have")
        || str_eq(word, "has")
        || str_eq(word, "had")
        || str_eq(word, "having")
        || str_eq(word, "the")
        || str_eq(word, "a")
        || str_eq(word, "an")
}

/// The words that remain once the stopwords are taken out, in their order.
pub open spec fn without_stopwords(words: Seq<Seq<char>>) -> Seq<Seq<char>> {
    words.filter(|w: Seq<char>| !is_stopword(w))
}

/// Removes the stopwords from `words`, keeping the order of the others.
pub fn exclude_words(words: Vec<String>) -> (kept: Vec<String>)
    ensures
        strings_of(kept@) == without_stopwords(strings_of(words@)),
{
    let ghost all = strings_of(words@);
    let ghost keep = |w: Seq<char>| !is_stopword(w);
    let mut kept: Vec<String> = Vec::new();
    proof {
        assert(all.take(0).filter(keep) =~= Seq::<Seq<char>>::empty()) by {
            reveal(Seq::filter);
        }
    }
    for word in it: words
        invariant
            it.seq() == words@,
            all == strings_of(words@),
            keep == (|w: Seq<char>| !is_stopword(w)),
            strings_of(kept@) == all.take(it.index()).filter(keep),
    {
        proof {
            let done = all.take(it.index());
            assert(all.take(it.index() + 1) =~= done.push(word@));
            done.lemma_filter_push(word@, keep);
        }
        if !word_is_stopword(word.as_str()) {
            let ghost before = strings_of(kept@);
            let ghost text = word@;
            kept.push(word);
            assert(strings_of(kept@) =~= before.push(text));
        }
    }
    proof {
        assert(all.take(all.len() as int) =~= all);
    }
    kept
}

/// The first character of each word that has one, in the order of the words.
pub open spec fn initials(words: Seq<Seq<char>>) -> Seq<char> {
    words.filter_map(
        |w: Seq<char>|
            if w.len() > 0 {
                Some(w[0])
            } else {
                None
            },
    )
}

/// The signature of a run of words: their initials in lowercase, and the
/// empty text where there is no initial.
pub open spec fn acronym(words: Seq<Seq<char>>) -> Seq<char> {
    if initials(words).len() == 0 {
        Seq::empty()
    } else {
        lowercase(initials(words))
    }
}

/// Builds the acronym of `words`: the first character of each, lowercased.
pub fn acronymize_context(words: &[String]) -> (r: String)
    ensures
        r@ == acronym(strings_of(words@)),
{
    let ghost all = strings_of(words@);
    let ghost first = |w: Seq<char>|
        if w.len() > 0 {
            Some(w[0])
        } else {
            None
        };
    let mut letters = String::new();
    let n = words.len();
    let mut i: usize = 0;
    while i < n
        invariant
            n == words@.len(),
            i <= n,
            all == strings_of(words@),
            first == (|w: Seq<char>|
                if w.len() > 0 {
                    Some(w[0])
                } else {
                    None
                }),
            letters@ == all.take(i as int).filter_map(first),
        decreases n - i,
    {
        proof {
            all.lemma_filter_map_take_succ(first, i as int);
        }
        let word = words[i].as_str();
        if !word.is_empty() {
            let c = word.get_char(0);
            let ghost before = letters@;
            string_push(&mut letters, c);
            assert(letters@ =~= before + seq![c]);
        }
        i += 1;
    }
    proof {
        assert(all.take(n as int) =~= all);
    }
    if letters.as_str().is_empty() {
        assert(letters@ =~= Seq::empty());
        letters
    } else {
        str_to_lowercase(letters.as_str())
    }
}

} // verus!
