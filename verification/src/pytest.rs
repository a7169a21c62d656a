//! The test target of a command: the first argument of `pytest` that names
//! tests.

use vstd::prelude::*;
use crate::text::{chars_of, str_equal};

verus! {

/// The failure of `shell_words::split`: a quote that is not closed.
#[verifier::external_type_specification]
#[verifier::external_body]
pub struct ExParseError(shell_words::ParseError);

/// The words that a shell makes of a command line; nothing where a quote
/// is not closed.
pub uninterp spec fn shell_words_of(command: Seq<char>) -> Option<Seq<Seq<char>>>;

/// Splits a command line into words as a shell does.
///
/// Trusted: `shell_words::split` returns the words of the line, or fails
/// where a quote is not closed; both depend on the line alone.
#[verifier::external_body]
pub(crate) fn split_words(command: &str) -> (r: Result<Vec<String>, shell_words::ParseError>)
    ensures
        match r {
            Ok(words) => shell_words_of(command@) == Some(words.deep_view()),
            Err(_) => shell_words_of(command@) is None,
        },
{
    shell_words::split(command)
}

/// Where the word `pytest` first stands among the first `n` words.
pub open spec fn pytest_position(words: Seq<Seq<char>>, n: int) -> Option<int>
    decreases n,
{
    if n <= 0 {
        None
    } else {
        match pytest_position(words, n - 1) {
            Some(i) => Some(i),
            None => if words[n - 1] == "pytest"@ {
                Some(n - 1)
            } else {
                None
            },
        }
    }
}

/// Whether a word can name tests: it is no option and holds no
/// placeholder.
pub open spec fn can_be_target(word: Seq<char>) -> bool {
    !(word.len() > 0 && word[0] == '-') && !word.contains('{')
}

/// Those of the words from `from` up to `n` that can name tests, in order.
pub open spec fn targets_between(words: Seq<Seq<char>>, from: int, n: int) -> Seq<Seq<char>>
    decreases n - from,
{
    if n <= from {
        Seq::empty()
    } else if can_be_target(words[n - 1]) {
        targets_between(words, from, n - 1).push(words[n - 1])
    } else {
        targets_between(words, from, n - 1)
    }
}

/// The words behind the first `pytest` that can name tests; none where
/// `pytest` is not among the words.
pub open spec fn targets_among(words: Seq<Seq<char>>) -> Seq<Seq<char>> {
    match pytest_position(words, words.len() as int) {
        Some(i) => targets_between(words, i + 1, words.len() as int),
        None => Seq::empty(),
    }
}

/// The words of a command line that can name the tests that `pytest` runs.
pub open spec fn targets_of(command: Seq<char>) -> Seq<Seq<char>> {
    match shell_words_of(command) {
        Some(words) => targets_among(words),
        None => Seq::empty(),
    }
}

/// The words behind the first `pytest` that can name tests.
pub fn candidates_among(words: &Vec<String>) -> (r: Vec<String>)
    ensures
        r.deep_view() == targets_among(words.deep_view()),
{
    let ghost all = words.deep_view();
    let mut found: Option<usize> = None;
    let mut i: usize = 0;
    while i < words.len() && found.is_none()
        invariant
            i <= words.len(),
            all == words.deep_view(),
            match found {
                Some(p) => pytest_position(all, i as int) == Some(p as int) && p < i,
                None => pytest_position(all, i as int) is None,
            },
        decreases words.len() - i + (if found is None {
            1int
        } else {
            0int
        }),
    {
        if str_equal(words[i].as_str(), "pytest") {
            found = Some(i);
        }
        i = i + 1;
    }
    let mut out: Vec<String> = Vec::new();
    let start: usize = match found {
        Some(p) => {
            proof {
                lemma_position_stays(all, i as int, words.len() as int);
            }
            p + 1
        },
        None => {
            assert(out.deep_view() =~= targets_among(all));
            return out;
        },
    };
    let mut k: usize = start;
    assert(out.deep_view() =~= targets_between(all, start as int, k as int));
    while k < words.len()
        invariant
            start <= k <= words.len(),
            all == words.deep_view(),
            out.deep_view() == targets_between(all, start as int, k as int),
        decreases words.len() - k,
    {
        let ghost before = out.deep_view();
        let word = chars_of(words[k].as_str());
        let is_option = word.len() > 0 && word[0] == '-';
        let has_placeholder = crate::text::contains_char(words[k].as_str(), '{');
        if !is_option && !has_placeholder {
            out.push(words[k].clone());
            assert(out.deep_view() =~= before.push(words[k as int]@));
        }
        k = k + 1;
    }
    out
}

proof fn lemma_position_stays(words: Seq<Seq<char>>, n: int, m: int)
    requires
        0 <= n <= m,
        pytest_position(words, n) is Some,
    ensures
        pytest_position(words, m) == pytest_position(words, n),
    decreases m - n,
{
    if m > n {
        lemma_position_stays(words, n, m - 1);
    }
}

/// The words of a command line that can name the tests that `pytest`
/// runs: those behind the first `pytest` that are no options and hold no
/// placeholder. A line that is no command line has none.
pub fn pytest_target_candidates(command: &str) -> (r: Vec<String>)
    ensures
        r.deep_view() == targets_of(command@),
{
    match split_words(command) {
        Ok(words) => candidates_among(&words),
        Err(_) => {
            let r: Vec<String> = Vec::new();
            assert(r.deep_view() =~= Seq::<Seq<char>>::empty());
            r
        },
    }
}

/// The first of the first `n` candidates that is usable.
pub open spec fn first_usable(candidates: Seq<Seq<char>>, usable: Seq<bool>, n: int) -> Option<
    Seq<char>,
>
    decreases n,
{
    if n <= 0 {
        None
    } else {
        match first_usable(candidates, usable, n - 1) {
            Some(c) => Some(c),
            None => if usable[n - 1] {
                Some(candidates[n - 1])
            } else {
                None
            },
        }
    }
}

/// The test target among the candidates: the first that is usable, as
/// `usable` says of each candidate in turn.
pub fn choose_pytest_target(candidates: &Vec<String>, usable: &Vec<bool>) -> (r: Option<String>)
    requires
        usable.len() == candidates.len(),
    ensures
        match r {
            Some(t) => first_usable(candidates.deep_view(), usable@, candidates.len() as int)
                == Some(t@),
            None => first_usable(candidates.deep_view(), usable@, candidates.len() as int) is None,
        },
{
    let mut i: usize = 0;
    while i < candidates.len()
        invariant
            i <= candidates.len(),
            usable.len() == candidates.len(),
            first_usable(candidates.deep_view(), usable@, i as int) is None,
        decreases candidates.len() - i,
    {
        if usable[i] {
            proof {
                lemma_usable_stays(
                    candidates.deep_view(),
                    usable@,
                    i + 1,
                    candidates.len() as int,
                );
            }
            return Some(candidates[i].clone());
        }
        i = i + 1;
    }
    None
}

proof fn lemma_usable_stays(candidates: Seq<Seq<char>>, usable: Seq<bool>, n: int, m: int)
    requires
        0 <= n <= m,
        first_usable(candidates, usable, n) is Some,
    ensures
        first_usable(candidates, usable, m) == first_usable(candidates, usable, n),
    decreases m - n,
{
    if m > n {
        lemma_usable_stays(candidates, usable, n, m - 1);
    }
}

} // verus!
