use vstd::prelude::*;

use fuzzy_matcher::skim::SkimMatcherV2;
use fuzzy_matcher::FuzzyMatcher;

verus! {

/// The score the skim matcher (default settings) gives `pattern` against
/// `choice`; `None` where the pattern does not match.
pub uninterp spec fn skim_score(choice: Seq<char>, pattern: Seq<char>) -> Option<i64>;

/// Relies on fuzzy-matcher's `SkimMatcherV2::fuzzy_match` with the default
/// settings: the score depends on the two texts alone.
#[verifier::external_body]
fn fuzzy_score(choice: &str, pattern: &str) -> (r: Option<i64>)
    ensures
        r == skim_score(choice@, pattern@),
{
    SkimMatcherV2::default().fuzzy_match(choice, pattern)
}

/// Whether the palette lists a command, given the query and the matcher's
/// score of the query against the command's label: every command is listed
/// for an empty query, otherwise those the query matches.
pub open spec fn listed(query: Seq<char>, score: Option<i64>) -> bool {
    query.len() == 0 || score is Some
}

/// Whether the palette lists a command, given the query and the matcher's
/// score of the query against the command's label.
pub fn shows_command(query: &str, score: Option<i64>) -> (r: bool)
    ensures
        r == listed(query@, score),
{
    query.unicode_len() == 0 || score.is_some()
}

/// The positions, in order, of the first `n` labels that the palette lists for
/// `query`.
pub open spec fn listed_upto(labels: Seq<String>, query: Seq<char>, n: int) -> Seq<usize>
    decreases n,
{
    if n <= 0 {
        Seq::empty()
    } else if listed(query, skim_score(labels[n - 1]@, query)) {
        listed_upto(labels, query, n - 1).push((n - 1) as usize)
    } else {
        listed_upto(labels, query, n - 1)
    }
}

/// The positions, in order, of the command labels that the palette lists for
/// `query`.
pub fn filter_commands(labels: &Vec<String>, query: &str) -> (r: Vec<usize>)
    ensures
        r@ == listed_upto(labels@, query@, labels@.len() as int),
{
    let mut out: Vec<usize> = Vec::new();
    let mut i: usize = 0;
    while i < labels.len()
        invariant
            0 <= i <= labels@.len(),
            out@ == listed_upto(labels@, query@, i as int),
        decreases labels@.len() - i,
    {
        let score = fuzzy_score(labels[i].as_str(), query);
        if shows_command(query, score) {
            out.push(i);
        }
        i = i + 1;
    }
    out
}

} // verus!
