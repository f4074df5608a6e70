//! What is asked of `nucleo_matcher`, and on which texts.
//!
//! The matcher scores a candidate against the words of a pattern. It is not
//! total: on a few texts it panics or its arithmetic leaves its integer
//! types. Those texts are told apart here, in verified code that asks the
//! matcher only for the words of a pattern and for single characters, and
//! they are never handed to it. They count as no match.

use nucleo_matcher::pattern::{CaseMatching, Normalization, Pattern};
use nucleo_matcher::{Config, Matcher, Utf32Str};
use vstd::prelude::*;
use vstd::utf8::encode_utf8;

verus! {

/// The longest word of a pattern, in characters, that is scored.
///
/// The matcher adds the score of a word up in 16 bits: at most 36 for its
/// first character and at most 26 for each further one. That is 65530 for a
/// word of this length and too much for a longer one.
pub const MAX_WORD_CHARS: usize = 2520;

/// The longest candidate, in bytes, that is scored. The matcher refuses a
/// haystack of more than `u32::MAX` code points.
pub const MAX_CANDIDATE_BYTES: usize = 0xFFFF_FFFF;

/// The score `nucleo_matcher` gives `candidate` under the pattern that
/// `filter_text` parses to, or `None` where the pattern does not match it.
pub uninterp spec fn fuzzy_score(filter_text: Seq<char>, candidate: Seq<char>) -> Option<u32>;

/// The words of the pattern that `filter_text` parses to, each as the
/// characters the matcher looks for.
pub uninterp spec fn pattern_words(filter_text: Seq<char>) -> Seq<Seq<char>>;

/// The characters the matcher sees of a text: the first of each grapheme.
pub uninterp spec fn grapheme_heads(text: Seq<char>) -> Seq<char>;

/// The character as the matcher normalizes it.
pub uninterp spec fn normalized(c: char) -> char;

/// The character as the matcher folds its case.
pub uninterp spec fn case_folded(c: char) -> char;

/// Whether std counts the character as lower case.
pub uninterp spec fn lowercase(c: char) -> bool;

/// The most the matcher can score a word with.
pub open spec fn top_score(word: Seq<char>) -> nat {
    10 + 26 * word.len()
}

/// The most the matcher can score a pattern with: it adds up the scores of
/// the words.
pub open spec fn top_total(words: Seq<Seq<char>>) -> nat
    decreases words.len(),
{
    if words.len() == 0 {
        0
    } else {
        top_total(words.drop_last()) + top_score(words.last())
    }
}

/// The scores of the words fit the matcher's arithmetic: each word's in 16
/// bits, their sum in 32.
pub open spec fn words_fit(words: Seq<Seq<char>>) -> bool {
    &&& forall|i: int| 0 <= i < words.len() ==> (#[trigger] words[i]).len() <= MAX_WORD_CHARS
    &&& top_total(words) <= u32::MAX
}

/// A candidate of `bytes` bytes fits the matcher's arithmetic: it has no
/// more code points than the matcher takes, and the length of any word times
/// its own, which the matcher computes in a `usize`, fits one. Where a
/// `usize` has 64 bits the second follows from the first and
/// [`MAX_WORD_CHARS`].
pub open spec fn candidate_fits(words: Seq<Seq<char>>, bytes: nat) -> bool {
    &&& bytes <= MAX_CANDIDATE_BYTES
    &&& forall|i: int| 0 <= i < words.len() ==> (#[trigger] words[i]).len() * bytes <= usize::MAX
}

/// The matcher looks for this word with case ignored and without
/// normalization: no character of it is upper case to the matcher, and
/// normalization would change one of them.
pub open spec fn folds_unevenly(word: Seq<char>) -> bool {
    &&& word.len() > 0
    &&& exists|i: int| 0 <= i < word.len() && normalized(#[trigger] word[i]) != word[i]
    &&& forall|i: int| 0 <= i < word.len() ==> case_folded(#[trigger] word[i]) == word[i]
}

/// A character the matcher folds in one place and leaves alone in another
/// when it ignores case without normalizing: a lower-case letter that case
/// folding changes, such as the final sigma.
pub open spec fn unevenly_folded(c: char) -> bool {
    lowercase(c) && case_folded(c) != c
}

/// The first of `heads` that case folding turns into `target` is a character
/// the matcher folds unevenly. There the matcher starts a match that it then
/// fails to find again, which its debug assertions refuse.
pub open spec fn misfolds(heads: Seq<char>, target: char) -> bool {
    exists|i: int|
        {
            &&& 0 <= i < heads.len()
            &&& case_folded(#[trigger] heads[i]) == target
            &&& unevenly_folded(heads[i])
            &&& forall|j: int| 0 <= j < i ==> case_folded(#[trigger] heads[j]) != target
        }
}

/// `first` is the first character of a word that is looked for with uneven
/// folding.
pub open spec fn starts_uneven_word(words: Seq<Seq<char>>, first: char) -> bool {
    exists|i: int| 0 <= i < words.len() && folds_unevenly(#[trigger] words[i]) && words[i][0] == first
}

/// No word that is looked for with uneven folding starts, in the candidate,
/// at a character that is folded unevenly.
pub open spec fn folds_evenly(words: Seq<Seq<char>>, heads: Seq<char>) -> bool {
    forall|i: int|
        0 <= i < words.len() && folds_unevenly(#[trigger] words[i]) ==> !misfolds(
            heads,
            words[i][0],
        )
}

/// Whether the matcher can be asked for the score of `candidate` under
/// `filter_text`.
pub open spec fn scorable(filter_text: Seq<char>, candidate: Seq<char>) -> bool {
    let words = pattern_words(filter_text);
    &&& words_fit(words)
    &&& candidate_fits(words, encode_utf8(candidate).len())
    &&& folds_evenly(words, grapheme_heads(candidate))
}

/// The score of a candidate under a filter text. An empty filter text matches
/// every candidate, with score 0. Otherwise the score is the matcher's where
/// it can be asked, and where it cannot there is no match.
pub open spec fn match_score(filter_text: Seq<char>, candidate: Seq<char>) -> Option<u32> {
    if filter_text.len() == 0 {
        Some(0u32)
    } else if scorable(filter_text, candidate) {
        fuzzy_score(filter_text, candidate)
    } else {
        None
    }
}

/// The characters of each word.
pub open spec fn texts(words: Seq<Vec<char>>) -> Seq<Seq<char>> {
    words.map_values(|word: Vec<char>| word@)
}

/// Calls `nucleo_matcher`: parses `filter_text` with `Pattern::parse`, under
/// smart case matching and smart normalization, and scores `candidate` with
/// `Pattern::score` on a fresh `Matcher` in its default configuration.
///
/// Trusted: that the score depends on the two texts alone, which is what
/// naming it `fuzzy_score` says. What is asked of the texts keeps the matcher
/// away from where it panics or overflows: a haystack of more than
/// `u32::MAX` code points, a table of needle against haystack too large to
/// measure, a word whose score leaves 16 bits, a sum of scores that leaves 32
/// bits, and a match that starts at an unevenly folded character.
#[verifier::external_body]
fn pattern_score(filter_text: &str, candidate: &str) -> (score: Option<u32>)
    requires
        scorable(filter_text@, candidate@),
    ensures
        score == fuzzy_score(filter_text@, candidate@),
{
    let mut matcher = Matcher::new(Config::DEFAULT);
    let mut buf = Vec::new();
    Pattern::parse(filter_text, CaseMatching::Smart, Normalization::Smart).score(
        Utf32Str::new(candidate, &mut buf),
        &mut matcher,
    )
}

/// Calls `nucleo_matcher`: parses `filter_text` with `Pattern::parse`, under
/// smart case matching and smart normalization, and takes the text of each
/// word with `Atom::needle_text`.
///
/// Trusted: that the words depend on the filter text alone, which is what
/// naming them `pattern_words` says.
#[verifier::external_body]
fn words_of(filter_text: &str) -> (words: Vec<Vec<char>>)
    ensures
        texts(words@) == pattern_words(filter_text@),
{
    Pattern::parse(filter_text, CaseMatching::Smart, Normalization::Smart).atoms.iter().map(
        |atom| atom.needle_text().chars().collect(),
    ).collect()
}

/// Calls `nucleo_matcher::chars::graphemes`, which gives the first character
/// of each grapheme of a text.
///
/// Trusted: that they depend on the text alone, which is what naming them
/// `grapheme_heads` says.
#[verifier::external_body]
fn heads_of(text: &str) -> (heads: Vec<char>)
    ensures
        heads@ == grapheme_heads(text@),
{
    nucleo_matcher::chars::graphemes(text).collect()
}

/// Calls `nucleo_matcher::chars::normalize`. Trusted: that the result is the
/// character named `normalized`.
#[verifier::external_body]
fn normalize_char(c: char) -> (plain: char)
    ensures
        plain == normalized(c),
{
    nucleo_matcher::chars::normalize(c)
}

/// Calls `nucleo_matcher::chars::to_lower_case`. Trusted: that the result is
/// the character named `case_folded`.
#[verifier::external_body]
fn fold_char(c: char) -> (folded: char)
    ensures
        folded == case_folded(c),
{
    nucleo_matcher::chars::to_lower_case(c)
}

/// Calls `char::is_lowercase`. Trusted: that the result is what is named
/// `lowercase`.
#[verifier::external_body]
fn is_lowercase_char(c: char) -> (lower: bool)
    ensures
        lower == lowercase(c),
{
    c.is_lowercase()
}

/// The top total of a pattern is at least that of its first words.
proof fn lemma_top_total_grows(words: Seq<Seq<char>>, n: int)
    requires
        0 <= n <= words.len(),
    ensures
        top_total(words.take(n)) <= top_total(words),
    decreases words.len() - n,
{
    if n < words.len() {
        lemma_top_total_grows(words, n + 1);
        assert(words.take(n + 1).drop_last() =~= words.take(n));
    } else {
        assert(words.take(n) =~= words);
    }
}

/// Whether the scores of the words fit the matcher's arithmetic.
fn words_within(words: &Vec<Vec<char>>) -> (fit: bool)
    ensures
        fit == words_fit(texts(words@)),
{
    let mut total: u64 = 0;
    let mut i: usize = 0;
    while i < words.len()
        invariant
            i <= words.len(),
            total == top_total(texts(words@).take(i as int)),
            total <= u32::MAX,
            forall|j: int| 0 <= j < i ==> (#[trigger] texts(words@)[j]).len() <= MAX_WORD_CHARS,
        decreases words.len() - i,
    {
        let len: usize = words[i].len();
        assert(texts(words@)[i as int] == words[i as int]@);
        if len > MAX_WORD_CHARS {
            return false;
        }
        proof {
            assert(texts(words@).take(i + 1).drop_last() =~= texts(words@).take(i as int));
            lemma_top_total_grows(texts(words@), i + 1);
        }
        total = total + 10 + 26 * (len as u64);
        if total > 0xFFFF_FFFF {
            return false;
        }
        i += 1;
    }
    assert(texts(words@).take(words.len() as int) =~= texts(words@));
    true
}

/// The length of the longest word, and 0 where there is none.
fn longest_word(words: &Vec<Vec<char>>) -> (longest: usize)
    ensures
        forall|i: int| 0 <= i < words.len() ==> (#[trigger] words[i]).len() <= longest,
        longest == 0 || exists|i: int| 0 <= i < words.len() && (#[trigger] words[i]).len() == longest,
{
    let mut longest: usize = 0;
    let mut i: usize = 0;
    while i < words.len()
        invariant
            i <= words.len(),
            forall|j: int| 0 <= j < i ==> (#[trigger] words[j]).len() <= longest,
            longest == 0 || exists|j: int| 0 <= j < i && (#[trigger] words[j]).len() == longest,
        decreases words.len() - i,
    {
        if words[i].len() > longest {
            longest = words[i].len();
        }
        i += 1;
    }
    longest
}

/// Whether the matcher looks for this word with uneven folding.
fn word_folds_unevenly(word: &Vec<char>) -> (uneven: bool)
    ensures
        uneven == folds_unevenly(word@),
{
    let mut changed: bool = false;
    let mut plain: bool = true;
    let mut i: usize = 0;
    while i < word.len()
        invariant
            i <= word.len(),
            changed == exists|j: int| 0 <= j < i && normalized(#[trigger] word[j]) != word[j],
            plain == forall|j: int| 0 <= j < i ==> case_folded(#[trigger] word[j]) == word[j],
        decreases word.len() - i,
    {
        let c: char = word[i];
        if normalize_char(c) != c {
            changed = true;
        }
        if fold_char(c) != c {
            plain = false;
        }
        i += 1;
    }
    word.len() > 0 && changed && plain
}

/// Whether the first of `heads` that folds to `target` is folded unevenly.
fn heads_misfold(heads: &Vec<char>, target: char) -> (bad: bool)
    ensures
        bad == misfolds(heads@, target),
{
    let mut i: usize = 0;
    while i < heads.len()
        invariant
            i <= heads.len(),
            forall|j: int| 0 <= j < i ==> case_folded(#[trigger] heads[j]) != target,
        decreases heads.len() - i,
    {
        let head: char = heads[i];
        let folded: char = fold_char(head);
        if folded == target {
            return is_lowercase_char(head) && folded != head;
        }
        i += 1;
    }
    false
}

/// What has to be known of a filter text before candidates are scored
/// against it.
pub struct FilterLimits {
    /// Whether the scores of its words fit the matcher's arithmetic.
    pub words_fit: bool,
    /// The length of its longest word.
    pub longest: usize,
    /// The first character of each word that is looked for with uneven
    /// folding.
    pub uneven_firsts: Vec<char>,
}

impl FilterLimits {
    /// These are the limits of `filter_text`.
    pub open spec fn describes(&self, filter_text: Seq<char>) -> bool {
        let words = pattern_words(filter_text);
        &&& self.words_fit == words_fit(words)
        &&& forall|i: int| 0 <= i < words.len() ==> (#[trigger] words[i]).len() <= self.longest
        &&& self.longest == 0 || exists|i: int|
            0 <= i < words.len() && (#[trigger] words[i]).len() == self.longest
        &&& forall|i: int|
            0 <= i < words.len() && folds_unevenly(#[trigger] words[i])
                ==> self.uneven_firsts@.contains(words[i][0])
        &&& forall|k: int|
            0 <= k < self.uneven_firsts.len() ==> starts_uneven_word(
                words,
                #[trigger] self.uneven_firsts[k],
            )
    }

    /// Takes the limits of a filter text.
    pub fn of(filter_text: &str) -> (limits: FilterLimits)
        ensures
            limits.describes(filter_text@),
    {
        let words = words_of(filter_text);
        let ghost named = texts(words@);
        let mut uneven_firsts: Vec<char> = Vec::new();
        let mut i: usize = 0;
        while i < words.len()
            invariant
                i <= words.len(),
                named == texts(words@),
                forall|j: int|
                    0 <= j < i && folds_unevenly(#[trigger] named[j]) ==> uneven_firsts@.contains(
                        named[j][0],
                    ),
                forall|k: int|
                    0 <= k < uneven_firsts.len() ==> starts_uneven_word(
                        named.take(i as int),
                        #[trigger] uneven_firsts[k],
                    ),
            decreases words.len() - i,
        {
            let ghost before = uneven_firsts@;
            assert(named[i as int] == words[i as int]@);
            if word_folds_unevenly(&words[i]) {
                uneven_firsts.push(words[i][0]);
            }
            proof {
                let seen = named.take(i as int);
                let next = named.take(i + 1);
                assert forall|k: int| 0 <= k < uneven_firsts.len() implies starts_uneven_word(
                    next,
                    #[trigger] uneven_firsts[k],
                ) by {
                    if k < before.len() {
                        assert(starts_uneven_word(seen, before[k]));
                        let j = choose|j: int|
                            0 <= j < seen.len() && folds_unevenly(#[trigger] seen[j]) && seen[j][0]
                                == before[k];
                        assert(next[j] == seen[j]);
                    } else {
                        assert(next[i as int] == named[i as int]);
                    }
                }
                assert forall|j: int|
                    0 <= j < i + 1 && folds_unevenly(
                        #[trigger] named[j],
                    ) implies uneven_firsts@.contains(named[j][0]) by {
                    if j < i {
                        let k = choose|k: int| 0 <= k < before.len() && before[k] == named[j][0];
                        assert(uneven_firsts@[k] == named[j][0]);
                    } else {
                        assert(uneven_firsts@[before.len() as int] == named[j][0]);
                    }
                }
            }
            i += 1;
        }
        assert(named.take(words.len() as int) =~= named);
        let limits = FilterLimits {
            words_fit: words_within(&words),
            longest: longest_word(&words),
            uneven_firsts,
        };
        proof {
            assert forall|i: int| 0 <= i < named.len() implies (#[trigger] named[i]).len()
                <= limits.longest by {
                assert(named[i] == words[i]@);
            }
            if limits.longest != 0 {
                let i = choose|i: int|
                    0 <= i < words.len() && (#[trigger] words[i]).len() == limits.longest;
                assert(named[i] == words[i]@);
            }
        }
        limits
    }

    /// Whether the matcher can be asked for the score of `candidate`.
    fn admits(&self, filter_text: &str, candidate: &str) -> (ok: bool)
        requires
            self.describes(filter_text@),
        ensures
            ok == scorable(filter_text@, candidate@),
    {
        let bytes: usize = candidate.as_bytes().len();
        if !self.words_fit || bytes > MAX_CANDIDATE_BYTES {
            return false;
        }
        let ghost words = pattern_words(filter_text@);
        assert(self.longest <= MAX_WORD_CHARS);
        assert(self.longest * bytes <= 2520 * 0xFFFF_FFFF) by (nonlinear_arith)
            requires
                self.longest <= 2520,
                bytes <= 0xFFFF_FFFF,
        ;
        let table: u64 = (self.longest as u64) * (bytes as u64);
        proof {
            assert forall|i: int| 0 <= i < words.len() implies (#[trigger] words[i]).len() * bytes
                <= self.longest * bytes by {
                let len = words[i].len();
                assert(len * bytes <= self.longest * bytes) by (nonlinear_arith)
                    requires
                        len <= self.longest,
                        bytes >= 0,
                ;
            }
        }
        if table > usize::MAX as u64 {
            proof {
                assert(self.longest != 0) by {
                    if self.longest == 0 {
                        assert(self.longest * bytes == 0) by (nonlinear_arith)
                            requires
                                self.longest == 0,
                        ;
                    }
                }
                let i = choose|i: int|
                    0 <= i < words.len() && (#[trigger] words[i]).len() == self.longest;
                assert(words[i].len() * bytes > usize::MAX);
            }
            return false;
        }
        if self.uneven_firsts.len() == 0 {
            return true;
        }
        let heads = heads_of(candidate);
        let mut k: usize = 0;
        while k < self.uneven_firsts.len()
            invariant
                k <= self.uneven_firsts.len(),
                self.describes(filter_text@),
                words == pattern_words(filter_text@),
                heads@ == grapheme_heads(candidate@),
                forall|j: int| 0 <= j < k ==> !misfolds(heads@, #[trigger] self.uneven_firsts[j]),
            decreases self.uneven_firsts.len() - k,
        {
            if heads_misfold(&heads, self.uneven_firsts[k]) {
                proof {
                    let first = self.uneven_firsts[k as int];
                    assert(starts_uneven_word(words, first));
                    let i = choose|i: int|
                        0 <= i < words.len() && folds_unevenly(#[trigger] words[i]) && words[i][0]
                            == first;
                    assert(misfolds(heads@, words[i][0]));
                }
                return false;
            }
            k += 1;
        }
        true
    }

    /// Scores one candidate against the filter text these limits belong to.
    pub(crate) fn score(&self, filter_text: &str, candidate: &str) -> (score: Option<u32>)
        requires
            self.describes(filter_text@),
        ensures
            score == match_score(filter_text@, candidate@),
    {
        if filter_text.is_empty() {
            Some(0)
        } else if self.admits(filter_text, candidate) {
            pattern_score(filter_text, candidate)
        } else {
            None
        }
    }
}

/// Scores one candidate against a filter text. An empty filter text gives
/// every candidate the score 0. Otherwise the score is the matcher's, and
/// `None` where the matcher cannot be asked: where a word of the pattern has
/// more than [`MAX_WORD_CHARS`] characters or the words together could score
/// more than `u32::MAX`, where the candidate has more than
/// [`MAX_CANDIDATE_BYTES`] bytes, and where a word that is matched with case
/// ignored and without normalization would start at a lower-case letter that
/// case folding changes.
pub fn score_candidate(filter_text: &str, candidate: &str) -> (score: Option<u32>)
    ensures
        score == match_score(filter_text@, candidate@),
{
    let limits = FilterLimits::of(filter_text);
    limits.score(filter_text, candidate)
}

} // verus!
