use completions::fuzzy::{fuzzy_match, Matchable};
use completions::matcher::{score_candidate, MAX_CANDIDATE_BYTES, MAX_WORD_CHARS};
use std::path::PathBuf;

fn items<'a>(path: &'a PathBuf, texts: &[&str]) -> Vec<(String, &'a PathBuf)> {
    texts.iter().map(|text| (String::from(*text), path)).collect()
}

fn texts_of(matched: &[((String, &PathBuf), u32)]) -> Vec<String> {
    matched.iter().map(|(item, _)| String::from(item.match_string())).collect()
}

#[test]
fn empty_filter_scores_everything_zero() {
    assert_eq!(score_candidate("", "anything"), Some(0));
    assert_eq!(score_candidate("", ""), Some(0));
}

#[test]
fn prefix_run_scores_as_the_matcher_counts_it() {
    // 16 for each character, twice the boundary bonus of 10 for the first,
    // the carried bonus of 10 for the two that follow it.
    assert_eq!(score_candidate("foo", "foobar"), Some(88));
}

#[test]
fn escaped_space_is_part_of_the_word() {
    assert_eq!(score_candidate("foo\\ bar", "foo bar"), Some(192));
    assert_eq!(score_candidate("foo\\ bar", "foobar"), None);
}

#[test]
fn unrelated_text_does_not_match() {
    assert_eq!(score_candidate("xyz", "foobar"), None);
    assert_eq!(score_candidate("foobarbaz", "foobar"), None);
}

#[test]
fn lower_case_filter_ignores_case() {
    assert!(score_candidate("intro", "a.md#Introduction").is_some());
    assert!(score_candidate("INTRO", "a.md#Introduction").is_none());
    assert!(score_candidate("Intro", "a.md#Introduction").is_some());
    assert!(score_candidate("Intro", "a.md#introduction").is_none());
}

#[test]
fn plain_filter_matches_accented_text() {
    assert!(score_candidate("cafe", "café.md").is_some());
    assert!(score_candidate("café", "cafe.md").is_none());
}

#[test]
fn a_long_filter_of_short_words_is_scored() {
    // 36 for each of 650 one-letter words: twice the boundary bonus and 16.
    let filter = vec!["a"; 650].join(" ");
    assert_eq!(filter.len(), 1299);
    assert_eq!(score_candidate(&filter, "a.md"), Some(23400));
    assert_eq!(score_candidate(&filter, "b.md"), None);
    let many = vec!["a"; 70000].join(" ");
    assert_eq!(score_candidate(&many, "a.md"), Some(36 * 70000));
}

#[test]
fn word_beyond_the_limit_matches_nothing() {
    let candidate = "a".repeat(3000);
    let longest = "a".repeat(MAX_WORD_CHARS);
    let too_long = "a".repeat(MAX_WORD_CHARS + 1);
    // 36 for the first character, 26 for each of the 2519 that follow it.
    assert_eq!(score_candidate(&longest, &candidate), Some(65530));
    assert_eq!(score_candidate(&longest, &longest), Some(65530));
    assert_eq!(score_candidate(&too_long, &candidate), None);
    assert_eq!(score_candidate(&too_long, &too_long), None);
    assert_eq!(MAX_WORD_CHARS, 2520);
    assert_eq!(MAX_CANDIDATE_BYTES as u64, u32::MAX as u64);
}

#[test]
fn one_long_word_among_short_ones_matches_nothing() {
    let candidate = "a".repeat(3000);
    let filter = format!("a {} a", "a".repeat(MAX_WORD_CHARS + 1));
    assert_eq!(score_candidate(&filter, &candidate), None);
    let filter = format!("a {} a", "a".repeat(MAX_WORD_CHARS));
    assert_eq!(score_candidate(&filter, &candidate), Some(36 + 65530 + 36));
}

#[test]
fn doubled_backslashes_count_toward_the_word() {
    // The matcher reads a backslash twice when no space follows it: "é" and
    // 1260 backslashes make a word of 2520 characters.
    let filter = format!("é{}", "\\".repeat(1260));
    let same_length = format!("é{}", "\\".repeat(2519));
    assert_eq!(same_length.chars().count(), MAX_WORD_CHARS);
    assert_eq!(score_candidate(&filter, &same_length), Some(65530));
    let longer = format!("é{} and more", "\\".repeat(2519));
    assert_eq!(score_candidate(&filter, &longer), Some(65530));
    let shorter = format!("é{}", "\\".repeat(2518));
    assert_eq!(score_candidate(&filter, &shorter), None);

    let too_long = format!("é{}", "\\".repeat(1261));
    let candidate = format!("é{}", "\\".repeat(4000));
    assert!(score_candidate(&filter, &candidate).is_some());
    assert_eq!(score_candidate(&too_long, &candidate), None);
}

#[test]
fn escaped_letters_are_scored() {
    // Each backslash before a letter is read twice: 1 + 3 * 629 characters.
    let filter = format!("é{}", "\\x".repeat(629));
    let candidate = format!("é{}", "\\\\x".repeat(629));
    assert_eq!(candidate.chars().count(), 1888);
    assert_eq!(score_candidate(&filter, &candidate), Some(36 + 26 * 1887));
}

#[test]
fn match_starting_at_an_unevenly_folded_letter_is_left_out() {
    // "σé" is matched with case ignored and without normalization. The final
    // sigma folds to "σ" and is a lower-case letter.
    assert_eq!(score_candidate("σé", "ςσé"), None);
    assert_eq!(score_candidate("σé", "xςσé"), None);
    assert_eq!(score_candidate("sé", "ſ-sé"), None);
    assert_eq!(score_candidate("plain σé", "plain ςσé"), None);
}

#[test]
fn unevenly_folded_letters_elsewhere_do_no_harm() {
    // Behind the first real "σ".
    assert!(score_candidate("σé", "σxéς").is_some());
    assert!(score_candidate("σé", "σςxé").is_some());
    assert!(score_candidate("σé", "σé").is_some());
    // Folding to another letter than the word's first.
    assert!(score_candidate("σé", "ſσxé").is_some());
    // Case is respected: the filter holds an upper-case letter.
    assert!(score_candidate("Σé", "ςxΣé").is_some());
    // Normalization is on: no character of the filter is changed by it.
    assert!(score_candidate("σe", "ςσxe").is_some());
    assert!(score_candidate("σe", "ςxe").is_some());
    // The word does not occur at all.
    assert_eq!(score_candidate("σé", "abc"), None);
}

#[test]
fn fuzzy_match_leaves_out_only_the_uneven_start() {
    let path = PathBuf::from("vault");
    let matched = fuzzy_match("σé", items(&path, &["ςσé.md", "σé.md", "σxé.md", "other.md"]));
    assert_eq!(texts_of(&matched), ["σé.md", "σxé.md"]);
}

#[test]
fn fuzzy_match_with_empty_filter_returns_all_in_order() {
    let path = PathBuf::from("vault");
    let matched = fuzzy_match("", items(&path, &["zeta", "alpha", "", "mid", "alpha"]));
    assert_eq!(texts_of(&matched), ["zeta", "alpha", "", "mid", "alpha"]);
    assert!(matched.iter().all(|(_, score)| *score == 0));
}

#[test]
fn fuzzy_match_drops_what_does_not_match() {
    let path = PathBuf::from("vault");
    let matched = fuzzy_match("foo", items(&path, &["bar", "foobar", "baz", "f-o-o"]));
    assert_eq!(texts_of(&matched), ["foobar", "f-o-o"]);
    assert_eq!(matched[0].1, 88);
    assert!(matched[1].1 < 88);
}

#[test]
fn fuzzy_match_puts_the_best_first() {
    let path = PathBuf::from("vault");
    let matched = fuzzy_match("note", items(&path, &["my_notes.md", "xnxoxtxe.md", "note.md"]));
    assert_eq!(matched.len(), 3);
    assert_eq!(matched[2].0.match_string(), "xnxoxtxe.md");
    assert!(matched[0].1 >= matched[1].1);
    assert!(matched[1].1 > matched[2].1);
}

#[test]
fn fuzzy_match_keeps_equal_scores_in_input_order() {
    let path_one = PathBuf::from("one");
    let path_two = PathBuf::from("two");
    let path_three = PathBuf::from("three");
    let matched = fuzzy_match(
        "foo",
        vec![
            (String::from("foobar"), &path_one),
            (String::from("nothing"), &path_two),
            (String::from("foobar"), &path_two),
            (String::from("foobar"), &path_three),
        ],
    );
    let paths: Vec<&PathBuf> = matched.iter().map(|(item, _)| item.1).collect();
    assert_eq!(paths, [&path_one, &path_two, &path_three]);
    assert!(matched.iter().all(|(_, score)| *score == 88));
}

#[test]
fn fuzzy_match_agrees_with_score_candidate() {
    let path = PathBuf::from("vault");
    let texts = ["alpha.md", "beta.md#Alpha", "gamma.md#^al", "delta.md"];
    let matched = fuzzy_match("al", items(&path, &texts));
    for (item, score) in &matched {
        assert_eq!(score_candidate("al", item.match_string()), Some(*score));
    }
    let unmatched: Vec<&str> =
        texts.iter().copied().filter(|text| score_candidate("al", text).is_none()).collect();
    assert_eq!(matched.len() + unmatched.len(), texts.len());
}

#[test]
fn fuzzy_match_of_nothing_is_empty() {
    let none: Vec<(String, &PathBuf)> = Vec::new();
    assert!(fuzzy_match("a", none).is_empty());
    let path = PathBuf::from("vault");
    assert!(fuzzy_match("zzz", items(&path, &["alpha", "beta"])).is_empty());
}

#[test]
fn fuzzy_match_is_repeatable() {
    let path = PathBuf::from("vault");
    let texts = ["b.md", "ab.md", "a/b.md", "bab.md", "abba.md"];
    let first = texts_of(&fuzzy_match("ab", items(&path, &texts)));
    let second = texts_of(&fuzzy_match("ab", items(&path, &texts)));
    assert_eq!(first, second);
}
