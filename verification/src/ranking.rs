//! Ranking of scored matches: best score first, and among equal scores the
//! match that came first stays first.

use vstd::prelude::*;

verus! {

/// Whether a match was given `score`.
pub open spec fn has_score<T>(score: u32) -> spec_fn((T, u32)) -> bool {
    |scored: (T, u32)| scored.1 == score
}

/// The matches that were given `score`, in their order.
pub open spec fn with_score<T>(matches: Seq<(T, u32)>, score: u32) -> Seq<(T, u32)> {
    matches.filter(has_score(score))
}

/// No match is followed by one with a higher score.
pub open spec fn descending<T>(matches: Seq<(T, u32)>) -> bool {
    forall|i: int, j: int| 0 <= i < j < matches.len() ==> matches[i].1 >= matches[j].1
}

/// `ranked` holds the matches of `matches` by descending score, and those of
/// each score in the order they have in `matches`.
pub open spec fn is_ranking<T>(matches: Seq<(T, u32)>, ranked: Seq<(T, u32)>) -> bool {
    &&& descending(ranked)
    &&& forall|score: u32| #[trigger] with_score(ranked, score) == with_score(matches, score)
}

/// Where a match with `score` goes into `ranked`: behind every match that
/// scores as high or higher, before every match that scores lower.
fn insertion_point<T>(ranked: &Vec<(T, u32)>, score: u32) -> (pos: usize)
    requires
        descending(ranked@),
    ensures
        pos <= ranked.len(),
        forall|i: int| 0 <= i < pos ==> ranked[i].1 >= score,
        forall|i: int| pos <= i < ranked.len() ==> ranked[i].1 < score,
{
    let mut low: usize = 0;
    let mut high: usize = ranked.len();
    while low < high
        invariant
            low <= high <= ranked.len(),
            descending(ranked@),
            forall|i: int| 0 <= i < low ==> ranked[i].1 >= score,
            forall|i: int| high <= i < ranked.len() ==> ranked[i].1 < score,
        decreases high - low,
    {
        let mid: usize = low + (high - low) / 2;
        if ranked[mid].1 >= score {
            low = mid + 1;
        } else {
            high = mid;
        }
    }
    low
}

/// Among matches that all score differently from `score`, none has it.
proof fn lemma_with_score_none<T>(matches: Seq<(T, u32)>, score: u32)
    requires
        forall|i: int| 0 <= i < matches.len() ==> matches[i].1 != score,
    ensures
        with_score(matches, score) == Seq::<(T, u32)>::empty(),
{
    let pred = has_score::<T>(score);
    let kept = matches.filter(pred);
    if kept.len() > 0 {
        matches.lemma_filter_pred(pred, 0);
        assert(kept.contains(kept[0]));
        matches.lemma_filter_contains_rev(pred, kept[0]);
    }
    assert(kept =~= Seq::<(T, u32)>::empty());
}

/// A match that goes in before nothing but lower scores joins the end of the
/// matches with its own score and leaves the others as they were.
proof fn lemma_with_score_insert<T>(ranked: Seq<(T, u32)>, pos: int, scored: (T, u32), score: u32)
    requires
        0 <= pos <= ranked.len(),
        forall|i: int| pos <= i < ranked.len() ==> ranked[i].1 < scored.1,
    ensures
        with_score(ranked.insert(pos, scored), score) == if scored.1 == score {
            with_score(ranked, score).push(scored)
        } else {
            with_score(ranked, score)
        },
{
    let pred = has_score::<T>(score);
    let front = ranked.subrange(0, pos);
    let back = ranked.subrange(pos, ranked.len() as int);
    assert(ranked =~= front + back);
    Seq::filter_distributes_over_add(front, back, pred);
    Seq::filter_distributes_over_add(front.push(scored), back, pred);
    front.lemma_filter_push(scored, pred);
    if scored.1 == score {
        lemma_with_score_none(back, score);
        assert(front.filter(pred).push(scored) + Seq::<(T, u32)>::empty() =~= (front.filter(pred)
            + Seq::<(T, u32)>::empty()).push(scored));
    }
}

/// Ranks `matches`: by descending score, ties in the order given.
pub fn rank<T>(matches: Vec<(T, u32)>) -> (ranked: Vec<(T, u32)>)
    ensures
        is_ranking(matches@, ranked@),
{
    let mut ranked: Vec<(T, u32)> = Vec::new();
    for scored in iter: matches
        invariant
            iter.seq() == matches@,
            descending(ranked@),
            forall|score: u32| #[trigger]
                with_score(ranked@, score) == with_score(matches@.take(iter.index()), score),
    {
        let pos: usize = insertion_point(&ranked, scored.1);
        proof {
            let seen = matches@.take(iter.index());
            assert(matches@.take(iter.index() + 1) =~= seen.push(scored));
            assert forall|score: u32| #[trigger]
                with_score(ranked@.insert(pos as int, scored), score) == with_score(
                    seen.push(scored),
                    score,
                ) by {
                lemma_with_score_insert(ranked@, pos as int, scored, score);
                seen.lemma_filter_push(scored, has_score(score));
            }
            ranked@.insert_ensures(pos as int, scored);
        }
        ranked.insert(pos, scored);
    }
    assert(matches@.take(matches@.len() as int) =~= matches@);
    ranked
}

/// How the matches with `score` change when the last match is taken away.
proof fn lemma_with_score_drop_last<T>(matches: Seq<(T, u32)>, score: u32)
    requires
        matches.len() > 0,
    ensures
        with_score(matches, score) == if matches.last().1 == score {
            with_score(matches.drop_last(), score).push(matches.last())
        } else {
            with_score(matches.drop_last(), score)
        },
{
    assert(matches =~= matches.drop_last().push(matches.last()));
    matches.drop_last().lemma_filter_push(matches.last(), has_score(score));
}

/// Every match with `score` is one of the matches.
proof fn lemma_with_score_contains<T>(matches: Seq<(T, u32)>, score: u32, scored: (T, u32))
    ensures
        with_score(matches, score).contains(scored) <==> matches.contains(scored) && scored.1
            == score,
{
    let pred = has_score::<T>(score);
    if with_score(matches, score).contains(scored) {
        matches.lemma_filter_contains_rev(pred, scored);
        let i = choose|i: int|
            0 <= i < matches.filter(pred).len() && matches.filter(pred)[i] == scored;
        matches.lemma_filter_pred(pred, i);
    }
    if matches.contains(scored) && scored.1 == score {
        let i = choose|i: int| 0 <= i < matches.len() && matches[i] == scored;
        matches.lemma_filter_contains(pred, i);
    }
}

/// Two sequences by descending score that agree on the matches of every
/// score are the same sequence.
proof fn lemma_descending_groups_equal<T>(first: Seq<(T, u32)>, second: Seq<(T, u32)>)
    requires
        descending(first),
        descending(second),
        forall|score: u32| #[trigger] with_score(first, score) == with_score(second, score),
    ensures
        first == second,
    decreases first.len(),
{
    if first.len() == 0 || second.len() == 0 {
        if first.len() > 0 {
            lemma_with_score_drop_last(first, first.last().1);
            assert(with_score(second, first.last().1).len() == 0);
        }
        if second.len() > 0 {
            lemma_with_score_drop_last(second, second.last().1);
            assert(with_score(first, second.last().1).len() == 0);
        }
        assert(first =~= second);
    } else {
        let x = first.last();
        let y = second.last();
        lemma_with_score_drop_last(first, x.1);
        lemma_with_score_drop_last(second, y.1);
        assert(y.1 >= x.1) by {
            assert(with_score(second, y.1).last() == y);
            assert(with_score(first, y.1).contains(y));
            lemma_with_score_contains(first, y.1, y);
        }
        assert(x.1 >= y.1) by {
            assert(with_score(first, x.1).last() == x);
            assert(with_score(second, x.1).contains(x));
            lemma_with_score_contains(second, x.1, x);
        }
        assert(x == y) by {
            assert(with_score(first, x.1).last() == x);
            assert(with_score(second, x.1).last() == y);
        }
        assert forall|score: u32| #[trigger]
            with_score(first.drop_last(), score) == with_score(second.drop_last(), score) by {
            lemma_with_score_drop_last(first, score);
            lemma_with_score_drop_last(second, score);
            if x.1 == score {
                assert(with_score(first.drop_last(), score) =~= with_score(first, score).drop_last());
                assert(with_score(second.drop_last(), score) =~= with_score(
                    second,
                    score,
                ).drop_last());
            }
        }
        lemma_descending_groups_equal(first.drop_last(), second.drop_last());
        assert(first =~= first.drop_last().push(x));
        assert(second =~= second.drop_last().push(y));
    }
}

/// Matches have one ranking only: two sequences that both rank `matches` are
/// equal, item for item.
pub proof fn lemma_ranking_unique<T>(
    matches: Seq<(T, u32)>,
    first: Seq<(T, u32)>,
    second: Seq<(T, u32)>,
)
    requires
        is_ranking(matches, first),
        is_ranking(matches, second),
    ensures
        first == second,
{
    assert forall|score: u32| #[trigger]
        with_score(first, score) == with_score(second, score) by {
        assert(with_score(first, score) == with_score(matches, score));
        assert(with_score(second, score) == with_score(matches, score));
    }
    lemma_descending_groups_equal(first, second);
}

/// Matches that already stand by descending score are their own ranking:
/// ranking changes nothing in them, so ties keep the order they came in.
pub proof fn lemma_ranking_keeps_descending<T>(matches: Seq<(T, u32)>, ranked: Seq<(T, u32)>)
    requires
        descending(matches),
        is_ranking(matches, ranked),
    ensures
        ranked == matches,
{
    lemma_ranking_unique(matches, ranked, matches);
}

/// A ranking holds exactly the matches it ranks, each with the score it came
/// with.
pub proof fn lemma_ranking_contains<T>(
    matches: Seq<(T, u32)>,
    ranked: Seq<(T, u32)>,
    scored: (T, u32),
)
    requires
        is_ranking(matches, ranked),
    ensures
        ranked.contains(scored) <==> matches.contains(scored),
{
    assert(with_score(ranked, scored.1) == with_score(matches, scored.1));
    lemma_with_score_contains(ranked, scored.1, scored);
    lemma_with_score_contains(matches, scored.1, scored);
}

/// How often a match occurs among those with its own score is how often it
/// occurs at all.
proof fn lemma_with_score_count<T>(matches: Seq<(T, u32)>, scored: (T, u32))
    ensures
        with_score(matches, scored.1).to_multiset().count(scored) == matches.to_multiset().count(
            scored,
        ),
    decreases matches.len(),
{
    broadcast use vstd::seq_lib::group_to_multiset_ensures;

    if matches.len() == 0 {
        assert(with_score(matches, scored.1) =~= matches);
    } else {
        lemma_with_score_count(matches.drop_last(), scored);
        lemma_with_score_drop_last(matches, scored.1);
        assert(matches =~= matches.drop_last().push(matches.last()));
    }
}

/// A ranking is a rearrangement of the matches it ranks: every match occurs
/// in it as often as among them, so none is lost and none is returned twice.
pub proof fn lemma_ranking_is_permutation<T>(matches: Seq<(T, u32)>, ranked: Seq<(T, u32)>)
    requires
        is_ranking(matches, ranked),
    ensures
        ranked.to_multiset() == matches.to_multiset(),
        ranked.len() == matches.len(),
{
    assert forall|scored: (T, u32)|
        ranked.to_multiset().count(scored) == matches.to_multiset().count(scored) by {
        assert(with_score(ranked, scored.1) == with_score(matches, scored.1));
        lemma_with_score_count(ranked, scored);
        lemma_with_score_count(matches, scored);
    }
    assert(ranked.to_multiset() =~= matches.to_multiset());
    ranked.to_multiset_ensures();
    matches.to_multiset_ensures();
}

/// Taking the matches with one score and then renaming the items is renaming
/// the items and then taking the matches with that score.
proof fn lemma_with_score_map<T, U>(
    matches: Seq<(T, u32)>,
    rename: spec_fn((T, u32)) -> (U, u32),
    score: u32,
)
    requires
        forall|scored: (T, u32)| #[trigger] rename(scored).1 == scored.1,
    ensures
        with_score(matches.map_values(rename), score) == with_score(matches, score).map_values(
            rename,
        ),
    decreases matches.len(),
{
    if matches.len() == 0 {
        assert(with_score(matches.map_values(rename), score) =~= Seq::<(U, u32)>::empty());
        assert(with_score(matches, score).map_values(rename) =~= Seq::<(U, u32)>::empty());
    } else {
        let rest = matches.drop_last();
        let last = matches.last();
        lemma_with_score_map(rest, rename, score);
        lemma_with_score_drop_last(matches, score);
        assert(matches.map_values(rename) =~= rest.map_values(rename).push(rename(last)));
        rest.map_values(rename).lemma_filter_push(rename(last), has_score(score));
        assert(rename(last).1 == last.1);
        if last.1 == score {
            assert(with_score(rest, score).push(last).map_values(rename) =~= with_score(
                rest,
                score,
            ).map_values(rename).push(rename(last)));
        }
    }
}

/// A ranking stays one when every item is replaced by something computed
/// from it and the scores are kept.
pub proof fn lemma_ranking_map<T, U>(
    matches: Seq<(T, u32)>,
    ranked: Seq<(T, u32)>,
    rename: spec_fn((T, u32)) -> (U, u32),
)
    requires
        is_ranking(matches, ranked),
        forall|scored: (T, u32)| #[trigger] rename(scored).1 == scored.1,
    ensures
        is_ranking(matches.map_values(rename), ranked.map_values(rename)),
{
    assert forall|score: u32| #[trigger]
        with_score(ranked.map_values(rename), score) == with_score(
            matches.map_values(rename),
            score,
        ) by {
        lemma_with_score_map(matches, rename, score);
        lemma_with_score_map(ranked, rename, score);
        assert(with_score(ranked, score) == with_score(matches, score));
    }
}

} // verus!
