//! Fuzzy matching of candidates against a filter text.
//!
//! The score of one candidate comes from the matcher. Which candidates are
//! kept and in what order they are returned is decided here.

use crate::matcher::{match_score, FilterLimits};
use crate::ranking::{descending, is_ranking, lemma_ranking_keeps_descending, rank};
use vstd::prelude::*;

verus! {

/// Anything that is matched by a string of its own.
pub trait Matchable {
    /// The characters of the match string.
    spec fn match_text(&self) -> Seq<char>;

    /// The string this item is matched by.
    fn match_string(&self) -> (text: &str)
        ensures
            text@ == self.match_text(),
    ;
}

/// Pairs an item with its score, if the filter text matches it.
pub open spec fn scored<T: Matchable>(filter_text: Seq<char>) -> spec_fn(T) -> Option<(T, u32)> {
    |item: T|
        match match_score(filter_text, item.match_text()) {
            Some(score) => Some((item, score)),
            None => None,
        }
}

/// The items that the filter text matches, each with its score, in the order
/// of `items`.
pub open spec fn matches_of<T: Matchable>(filter_text: Seq<char>, items: Seq<T>) -> Seq<(T, u32)> {
    items.filter_map(scored(filter_text))
}

/// Every item with score 0.
pub open spec fn all_matched<T>(items: Seq<T>) -> Seq<(T, u32)> {
    items.map_values(|item: T| (item, 0u32))
}

/// An empty filter text matches every item, with score 0.
pub proof fn lemma_empty_filter_matches_all<T: Matchable>(filter_text: Seq<char>, items: Seq<T>)
    requires
        filter_text.len() == 0,
    ensures
        matches_of(filter_text, items) == all_matched(items),
    decreases items.len(),
{
    if items.len() > 0 {
        lemma_empty_filter_matches_all(filter_text, items.drop_last());
        assert(all_matched(items) =~= all_matched(items.drop_last()) + seq![(items.last(), 0u32)]);
    } else {
        assert(all_matched(items) =~= Seq::<(T, u32)>::empty());
    }
}

/// Matches `items` against `filter_text` and returns those that match, each
/// with its score: best score first, equal scores in the order of `items`.
/// With an empty filter text that is every item, in the order given.
///
/// An item matches where [`match_score`] gives it a score. That is where the
/// matcher does, but for the texts the matcher cannot be asked on (see
/// [`score_candidate`](crate::matcher::score_candidate)): on those an item
/// does not match.
pub fn fuzzy_match<T: Matchable>(filter_text: &str, items: Vec<T>) -> (matched: Vec<(T, u32)>)
    ensures
        is_ranking(matches_of(filter_text@, items@), matched@),
        filter_text@.len() == 0 ==> matched@ == all_matched(items@),
{
    let limits = FilterLimits::of(filter_text);
    let mut found: Vec<(T, u32)> = Vec::new();
    for item in iter: items
        invariant
            iter.seq() == items@,
            limits.describes(filter_text@),
            found@ == matches_of(filter_text@, items@.take(iter.index())),
    {
        proof {
            items@.lemma_filter_map_take_succ(scored(filter_text@), iter.index());
        }
        let score: Option<u32> = limits.score(filter_text, item.match_string());
        match score {
            Some(score) => {
                found.push((item, score));
            },
            None => {},
        }
    }
    proof {
        assert(items@.take(items@.len() as int) =~= items@);
        if filter_text@.len() == 0 {
            lemma_empty_filter_matches_all(filter_text@, items@);
            assert(descending(all_matched(items@)));
        }
    }
    let matched = rank(found);
    proof {
        if filter_text@.len() == 0 {
            lemma_ranking_keeps_descending(found@, matched@);
        }
    }
    matched
}

} // verus!
