use crate::keys::{ascending, sorted_keys};
use crate::text::{string_push, strings_of};
use crate::tree::Node;
use crate::vocabulary::Vocabulary;
use std::collections::HashMap;
use vstd::prelude::*;
use vstd::string::StringExecFns;

verus! {

broadcast use vstd::std_specs::hash::group_hash_axioms;

/// The word that stands for `id` in a phrase: its word in the vocabulary,
/// and the empty text where it has none.
pub open spec fn word_or_empty(words: Map<i32, Seq<char>>, id: i32) -> Seq<char> {
    if words.contains_key(id) {
        words[id]
    } else {
        Seq::empty()
    }
}

/// The texts of `parts` in a row, with one space between neighbours.
pub open spec fn joined(parts: Seq<Seq<char>>) -> Seq<char>
    decreases parts.len(),
{
    if parts.len() == 0 {
        Seq::empty()
    } else if parts.len() == 1 {
        parts[0]
    } else {
        joined(parts.drop_last()) + seq![' '] + parts.last()
    }
}

/// The phrase that a sequence of tokens renders to.
pub open spec fn phrase(words: Map<i32, Seq<char>>, ids: Seq<i32>) -> Seq<char> {
    joined(ids.map_values(|id: i32| word_or_empty(words, id)))
}

/// The phrases of a list of candidate continuations, in the stored order.
pub open spec fn phrases(words: Map<i32, Seq<char>>, lists: Seq<Vec<i32>>) -> Seq<Seq<char>> {
    lists.map_values(|ids: Vec<i32>| phrase(words, ids@))
}

/// What a child adds when its parent is rendered: its phrases where it is a
/// list of continuations, and nothing otherwise.
pub open spec fn child_phrases(words: Map<i32, Seq<char>>, node: Node) -> Seq<Seq<char>> {
    match node {
        Node::List(lists) => phrases(words, lists@),
        _ => Seq::empty(),
    }
}

/// The phrases of the children whose key is below `bound`, child after child
/// in ascending order of key.
pub open spec fn phrases_below(
    words: Map<i32, Seq<char>>,
    children: Map<i32, Node>,
    bound: int,
) -> Seq<Seq<char>>
    decreases bound - i32::MIN,
{
    if bound <= i32::MIN {
        Seq::empty()
    } else {
        let key = (bound - 1) as i32;
        let earlier = phrases_below(words, children, bound - 1);
        if children.contains_key(key) {
            earlier + child_phrases(words, children[key])
        } else {
            earlier
        }
    }
}

/// The predictions that a node renders to. A list of continuations gives its
/// phrases; an inner level gives the phrases of those of its children that
/// are lists, in ascending order of their keys; anything else gives nothing.
pub open spec fn rendering(words: Map<i32, Seq<char>>, node: Option<Node>) -> Seq<Seq<char>> {
    match node {
        Some(Node::List(lists)) => phrases(words, lists@),
        Some(Node::Branch(children)) => phrases_below(words, children@, i32::MAX + 1),
        _ => Seq::empty(),
    }
}

proof fn lemma_phrases_below_gap(
    words: Map<i32, Seq<char>>,
    children: Map<i32, Node>,
    low: int,
    high: int,
)
    requires
        i32::MIN <= low <= high <= i32::MAX + 1,
        forall|key: i32| low <= key < high ==> !children.contains_key(key),
    ensures
        phrases_below(words, children, high) == phrases_below(words, children, low),
    decreases high - low,
{
    if low < high {
        lemma_phrases_below_gap(words, children, low, high - 1);
    }
}

/// Renders one continuation: the words of its tokens, separated by spaces.
pub fn render_phrase(ids: &Vec<i32>, vocabulary: &Vocabulary) -> (r: String)
    ensures
        r@ == phrase(vocabulary@, ids@),
{
    let ghost parts = ids@.map_values(|id: i32| word_or_empty(vocabulary@, id));
    let mut out = String::new();
    let n = ids.len();
    let mut i: usize = 0;
    while i < n
        invariant
            n == ids@.len(),
            i <= n,
            parts == ids@.map_values(|id: i32| word_or_empty(vocabulary@, id)),
            out@ == joined(parts.take(i as int)),
        decreases n - i,
    {
        let ghost before = out@;
        if i > 0 {
            string_push(&mut out, ' ');
        }
        match vocabulary.word_of(ids[i]) {
            Some(word) => {
                out.append(word.as_str());
            },
            None => {},
        }
        proof {
            let next = parts.take(i + 1);
            assert(next.drop_last() =~= parts.take(i as int));
            assert(next.last() == word_or_empty(vocabulary@, ids@[i as int]));
            if i == 0 {
                assert(out@ =~= next[0]);
            } else {
                assert(out@ =~= before + seq![' '] + next.last());
            }
        }
        i += 1;
    }
    proof {
        assert(parts.take(n as int) =~= parts);
    }
    out
}

/// Appends the phrases of `lists` to `out`.
fn push_phrases(out: &mut Vec<String>, lists: &Vec<Vec<i32>>, vocabulary: &Vocabulary)
    ensures
        strings_of(final(out)@) == strings_of(old(out)@) + phrases(vocabulary@, lists@),
{
    let ghost start = strings_of(out@);
    let ghost all = phrases(vocabulary@, lists@);
    let n = lists.len();
    let mut i: usize = 0;
    while i < n
        invariant
            n == lists@.len(),
            i <= n,
            all == phrases(vocabulary@, lists@),
            strings_of(out@) == start + all.take(i as int),
        decreases n - i,
    {
        let ghost before = strings_of(out@);
        let text = render_phrase(&lists[i], vocabulary);
        let ghost shown = text@;
        out.push(text);
        proof {
            assert(strings_of(out@) =~= before.push(shown));
            assert(all.take(i + 1) =~= all.take(i as int).push(all[i as int]));
            assert(strings_of(out@) =~= start + all.take(i + 1));
        }
        i += 1;
    }
    proof {
        assert(all.take(n as int) =~= all);
    }
}

/// Renders the node that matching ended on into the predicted phrases.
pub fn extract_predictions(filtered_node: Option<&Node>, vocabulary: &Vocabulary) -> (r: Vec<
    String,
>)
    ensures
        strings_of(r@) == rendering(vocabulary@, crate::tree::node_of(filtered_node)),
{
    let mut out: Vec<String> = Vec::new();
    assert(strings_of(out@) =~= Seq::empty());
    match filtered_node {
        Some(Node::List(lists)) => {
            push_phrases(&mut out, lists, vocabulary);
            assert(strings_of(out@) =~= phrases(vocabulary@, lists@));
        },
        Some(Node::Branch(children)) => {
            let keys = sorted_keys(children);
            let n = keys.len();
            let ghost mut low: int = i32::MIN as int;
            let mut i: usize = 0;
            while i < n
                invariant
                    n == keys@.len(),
                    i <= n,
                    ascending(keys@),
                    keys@.to_set() == children@.dom(),
                    i32::MIN <= low <= i32::MAX + 1,
                    forall|j: int| i <= j < n ==> low <= #[trigger] keys@[j],
                    forall|j: int| 0 <= j < i ==> #[trigger] keys@[j] < low,
                    strings_of(out@) == phrases_below(vocabulary@, children@, low),
                decreases n - i,
            {
                let key = keys[i];
                proof {
                    assert(keys@.to_set().contains(key)) by {
                        assert(keys@.contains(keys@[i as int]));
                    }
                    assert forall|k: i32| low <= k < key implies !children@.contains_key(k) by {
                        if children@.contains_key(k) {
                            assert(keys@.to_set().contains(k));
                            let j = choose|j: int| 0 <= j < keys@.len() && keys@[j] == k;
                            if j < i {
                                assert(keys@[j] < low);
                            } else if j > i {
                                assert(keys@[i as int] < keys@[j]);
                            }
                        }
                    }
                    lemma_phrases_below_gap(vocabulary@, children@, low, key as int);
                }
                let child = children.get(&key);
                assert(child is Some);
                match child.unwrap() {
                    Node::List(lists) => {
                        push_phrases(&mut out, lists, vocabulary);
                    },
                    _ => {
                        assert(strings_of(out@) + Seq::<Seq<char>>::empty() =~= strings_of(out@));
                    },
                }
                proof {
                    low = key + 1;
                }
                i += 1;
            }
            proof {
                assert forall|k: i32| low <= k < i32::MAX + 1 implies !children@.contains_key(
                    k,
                ) by {
                    if children@.contains_key(k) {
                        assert(keys@.to_set().contains(k));
                        let j = choose|j: int| 0 <= j < keys@.len() && keys@[j] == k;
                        assert(keys@[j] < low);
                    }
                }
                lemma_phrases_below_gap(vocabulary@, children@, low, i32::MAX + 1);
            }
        },
        _ => {},
    }
    out
}

} // verus!
