//! The embedded word lists: a fixed ordered list of adjectives and a fixed
//! ordered list of nouns, all lowercase. Every adjective's first letter is
//! shared by at least one noun, which is what keeps generated names
//! alliterative.

use vstd::prelude::*;
use vstd::string::StringExecFns;

use super::is_lower_alpha;

verus! {

/// The adjective at a given position of the embedded list (empty outside it).
pub open spec fn spec_adjective(i: int) -> Seq<char> {
    if i == 0 {
        seq!['a', 'i', 'r', 'y']
    } else if i == 1 {
        seq!['b', 'r', 'a', 'v', 'e']
    } else if i == 2 {
        seq!['c', 'a', 'l', 'm']
    } else if i == 3 {
        seq!['l', 'o', 'o', 'n', 'y']
    } else if i == 4 {
        seq!['m', 'e', 'r', 'r', 'y']
    } else if i == 5 {
        seq!['o', 'd', 'd']
    } else if i == 6 {
        seq!['p', 'r', 'o', 'u', 'd']
    } else if i == 7 {
        seq!['s', 'a', 'l', 't', 'y']
    } else {
        Seq::empty()
    }
}

/// The embedded adjective list, in order.
pub open spec fn spec_adjectives() -> Seq<Seq<char>> {
    Seq::new(8, |i: int| spec_adjective(i))
}

/// The noun at a given position of the embedded list (empty outside it).
pub open spec fn spec_noun(i: int) -> Seq<char> {
    if i == 0 {
        seq!['a', 'l', 'b', 'a', 't', 'r', 'o', 's', 's']
    } else if i == 1 {
        seq!['a', 'n', 'c', 'h', 'o', 'r']
    } else if i == 2 {
        seq!['b', 'a', 'd', 'g', 'e', 'r']
    } else if i == 3 {
        seq!['c', 'r', 'i', 'c', 'k', 'e', 't']
    } else if i == 4 {
        seq!['l', 'e', 'm', 'u', 'r']
    } else if i == 5 {
        seq!['l', 'i', 'o', 'n', 'f', 'i', 's', 'h']
    } else if i == 6 {
        seq!['l', 'l', 'a', 'm', 'a']
    } else if i == 7 {
        seq!['m', 'a', 'r', 'm', 'o', 't']
    } else if i == 8 {
        seq!['o', 't', 't', 'e', 'r']
    } else if i == 9 {
        seq!['p', 'a', 'n', 'd', 'a']
    } else {
        seq!['s', 'e', 'a', 'l']
    }
}

/// The embedded noun list, in order.
pub open spec fn spec_nouns() -> Seq<Seq<char>> {
    Seq::new(11, |i: int| spec_noun(i))
}

/// A well-formed list word: non-empty and entirely lowercase ASCII letters.
pub open spec fn word_wf(w: Seq<char>) -> bool {
    w.len() > 0 && (forall|j: int| 0 <= j < w.len() ==> is_lower_alpha(#[trigger] w[j]))
}

/// Every word of both embedded lists is non-empty, lowercase ASCII.
pub proof fn lemma_words_wf()
    ensures
        forall|i: int| 0 <= i < spec_adjectives().len() ==> word_wf(#[trigger] spec_adjectives()[i]),
        forall|i: int| 0 <= i < spec_nouns().len() ==> word_wf(#[trigger] spec_nouns()[i]),
{
    assert forall|i: int| 0 <= i < spec_adjectives().len() implies word_wf(
        #[trigger] spec_adjectives()[i],
    ) by {
        assert(word_wf(spec_adjective(i)));
    }
    assert forall|i: int| 0 <= i < spec_nouns().len() implies word_wf(
        #[trigger] spec_nouns()[i],
    ) by {
        assert(word_wf(spec_noun(i)));
    }
}

/// Build the adjective list as runtime strings, in the embedded order.
pub fn adjectives() -> (r: Vec<String>)
    ensures
        r@.len() == spec_adjectives().len(),
        forall|i: int| 0 <= i < r@.len() ==> #[trigger] r@[i]@ == spec_adjectives()[i],
{
    let mut r: Vec<String> = Vec::new();
    r.push(String::from_str("airy"));
    r.push(String::from_str("brave"));
    r.push(String::from_str("calm"));
    r.push(String::from_str("loony"));
    r.push(String::from_str("merry"));
    r.push(String::from_str("odd"));
    r.push(String::from_str("proud"));
    r.push(String::from_str("salty"));
    proof {
        reveal_strlit("airy");
        reveal_strlit("brave");
        reveal_strlit("calm");
        reveal_strlit("loony");
        reveal_strlit("merry");
        reveal_strlit("odd");
        reveal_strlit("proud");
        reveal_strlit("salty");
        assert forall|i: int| 0 <= i < r@.len() implies #[trigger] r@[i]@ == spec_adjectives()[i] by {
            assert(r@[i]@ =~= spec_adjective(i));
        }
    }
    r
}

/// Build the noun list as runtime strings, in the embedded order.
pub fn nouns() -> (r: Vec<String>)
    ensures
        r@.len() == spec_nouns().len(),
        forall|i: int| 0 <= i < r@.len() ==> #[trigger] r@[i]@ == spec_nouns()[i],
{
    let mut r: Vec<String> = Vec::new();
    r.push(String::from_str("albatross"));
    r.push(String::from_str("anchor"));
    r.push(String::from_str("badger"));
    r.push(String::from_str("cricket"));
    r.push(String::from_str("lemur"));
    r.push(String::from_str("lionfish"));
    r.push(String::from_str("llama"));
    r.push(String::from_str("marmot"));
    r.push(String::from_str("otter"));
    r.push(String::from_str("panda"));
    r.push(String::from_str("seal"));
    proof {
        reveal_strlit("albatross");
        reveal_strlit("anchor");
        reveal_strlit("badger");
        reveal_strlit("cricket");
        reveal_strlit("lemur");
        reveal_strlit("lionfish");
        reveal_strlit("llama");
        reveal_strlit("marmot");
        reveal_strlit("otter");
        reveal_strlit("panda");
        reveal_strlit("seal");
        assert forall|i: int| 0 <= i < r@.len() implies #[trigger] r@[i]@ == spec_nouns()[i] by {
            assert(r@[i]@ =~= spec_noun(i));
        }
    }
    r
}

} // verus!
