use completions::ranking::rank;

#[test]
fn rank_orders_by_descending_score() {
    let ranked = rank(vec![("low", 1u32), ("high", 30), ("mid", 7)]);
    assert_eq!(ranked, vec![("high", 30), ("mid", 7), ("low", 1)]);
}

#[test]
fn rank_keeps_ties_in_the_order_given() {
    let ranked = rank(vec![("a", 1u32), ("b", 3), ("c", 1), ("d", 3), ("e", 2), ("f", 3)]);
    assert_eq!(ranked, vec![("b", 3), ("d", 3), ("f", 3), ("e", 2), ("a", 1), ("c", 1)]);
}

#[test]
fn rank_leaves_equal_scores_alone() {
    let matches = vec![("z", 0u32), ("a", 0), ("m", 0), ("b", 0)];
    assert_eq!(rank(matches.clone()), matches);
}

#[test]
fn rank_of_nothing_and_of_one() {
    assert_eq!(rank(Vec::<(u8, u32)>::new()), vec![]);
    assert_eq!(rank(vec![(9u8, 4u32)]), vec![(9, 4)]);
}

#[test]
fn rank_keeps_every_match_once() {
    let matches = vec![(1u8, 5u32), (1, 5), (2, 9), (1, 5), (3, u32::MAX), (4, 0)];
    let ranked = rank(matches.clone());
    assert_eq!(ranked, vec![(3, u32::MAX), (2, 9), (1, 5), (1, 5), (1, 5), (4, 0)]);
    assert_eq!(ranked.len(), matches.len());
}

#[test]
fn rank_reverses_an_ascending_run() {
    let matches: Vec<(u32, u32)> = (0..100).map(|i| (i, i)).collect();
    let ranked = rank(matches);
    let expected: Vec<(u32, u32)> = (0..100).rev().map(|i| (i, i)).collect();
    assert_eq!(ranked, expected);
}
