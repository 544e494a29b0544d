//! A small subsequence matcher for pickers.
//!
//! [`fuzzy_match`] scores a candidate against a query: the query must appear in it as a
//! subsequence, letters in either case, and runs of adjacent hits and hits at the start of a word
//! score higher. [`fuzzy_rank`] orders a list of candidates by that score.

use crate::text::{ascii_lower, ascii_lower_all, chars_of, to_ascii_lower};
use vstd::prelude::*;

verus! {

/// Whether two characters are the same but for the case of ASCII letters.
pub open spec fn alike(a: char, b: char) -> bool {
    ascii_lower(a) == ascii_lower(b)
}

/// Whether a word can start behind `c`.
pub open spec fn is_separator(c: char) -> bool {
    c == '/' || c == '\\' || c == '_' || c == '-' || c == '.' || c == ' '
}

/// The first index from `i` on at which the candidate has a character like `q`, or -1.
pub open spec fn next_hit(candidate: Seq<char>, q: char, i: int) -> int
    decreases candidate.len() - i,
{
    if i >= candidate.len() {
        -1
    } else if alike(candidate[i], q) {
        i
    } else {
        next_hit(candidate, q, i + 1)
    }
}

/// The points for a hit at `p`: one, ten more directly behind the hit before it, and five more at
/// the start of a word.
pub open spec fn points(candidate: Seq<char>, p: int, adjacent: bool) -> nat {
    let run: nat = if adjacent {
        10
    } else {
        0
    };
    let word: nat = if p == 0 || is_separator(candidate[p - 1]) {
        5
    } else {
        0
    };
    1 + run + word
}

/// The score of matching `query` from the index `i` of the candidate on, each character at the
/// first place behind the one before it; `first` says that no character was matched yet.
pub open spec fn score_from(
    query: Seq<char>,
    candidate: Seq<char>,
    i: int,
    first: bool,
) -> Option<nat>
    decreases query.len(),
{
    if query.len() == 0 {
        Some(0)
    } else {
        let p = next_hit(candidate, query[0], i);
        if p < 0 {
            None
        } else {
            match score_from(query.drop_first(), candidate, p + 1, false) {
                Some(rest) => Some(points(candidate, p, !first && p == i) + rest),
                None => None,
            }
        }
    }
}

/// A score, or the largest one that can be counted.
pub open spec fn capped_score(s: nat) -> i32 {
    if s <= i32::MAX {
        s as i32
    } else {
        i32::MAX
    }
}

/// The score of `candidate` for `query`, if it matches.
pub open spec fn score(query: Seq<char>, candidate: Seq<char>) -> Option<i32> {
    match score_from(query, candidate, 0, true) {
        Some(s) => Some(capped_score(s)),
        None => None,
    }
}

/// Scores `candidate` against `query`, or `None` when `query` is not a subsequence of it. Higher
/// is better; an empty query matches everything with the score 0.
pub fn fuzzy_match(query: &str, candidate: &str) -> (r: Option<i32>)
    ensures
        r == score(query@, candidate@),
{
    let query = chars_of(query);
    let candidate = chars_of(candidate);
    let ghost q = query@;
    let ghost c = candidate@;
    let mut matched: usize = 0;
    let mut total: i32 = 0;
    let mut prev_matched = false;
    let mut i: usize = 0;
    let ghost mut sum: nat = 0;
    let ghost mut from: int = 0;
    assert(q.skip(0) =~= q);
    while i < candidate.len()
        invariant
            i <= candidate@.len(),
            q == query@,
            c == candidate@,
            matched <= query@.len(),
            0 <= from <= i,
            total == capped_score(sum),
            prev_matched == (matched > 0 && from == i),
            matched < q.len() ==> next_hit(c, q[matched as int], from) == next_hit(
                c,
                q[matched as int],
                i as int,
            ),
            score_from(q, c, 0, true) == match score_from(
                q.skip(matched as int),
                c,
                from,
                matched == 0,
            ) {
                Some(rest) => Some(sum + rest),
                None => None,
            },
        decreases candidate@.len() - i,
    {
        if matched < query.len() && to_ascii_lower(candidate[i]) == to_ascii_lower(query[matched]) {
            let run: i32 = if prev_matched {
                10
            } else {
                0
            };
            let word: i32 = if i == 0 || separator(candidate[i - 1]) {
                5
            } else {
                0
            };
            let bonus: i32 = 1 + run + word;
            proof {
                let rest = q.skip(matched as int);
                assert(rest[0] == q[matched as int]);
                assert(rest.drop_first() =~= q.skip(matched + 1));
                assert(next_hit(c, rest[0], from) == i);
                assert(bonus == points(c, i as int, matched > 0 && i == from));
                sum = sum + bonus as nat;
                from = i + 1;
            }
            total = if total > i32::MAX - bonus {
                i32::MAX
            } else {
                total + bonus
            };
            matched += 1;
            prev_matched = true;
        } else {
            prev_matched = false;
        }
        i += 1;
    }
    proof {
        let rest = q.skip(matched as int);
        if matched < q.len() {
            assert(rest[0] == q[matched as int]);
        } else {
            assert(rest.len() == 0);
        }
    }
    if matched == query.len() {
        Some(total)
    } else {
        None
    }
}

fn separator(c: char) -> (r: bool)
    ensures
        r == is_separator(c),
{
    c == '/' || c == '\\' || c == '_' || c == '-' || c == '.' || c == ' '
}

/// Whether one candidate stands before another: by a higher score, or by its place in the list.
pub open spec fn ranks_before(query: Seq<char>, candidates: Seq<Seq<char>>, a: int, b: int) -> bool {
    let x = score(query, candidates[a])->0;
    let y = score(query, candidates[b])->0;
    x > y || (x == y && a < b)
}

/// Whether `order` lists exactly the candidates that match, in the order of their rank.
pub open spec fn is_ranking(query: Seq<char>, candidates: Seq<Seq<char>>, order: Seq<usize>) -> bool {
    &&& forall|k: int|
        0 <= k < order.len() ==> (#[trigger] order[k]) < candidates.len() && score(
            query,
            candidates[order[k] as int],
        ) is Some
    &&& forall|i: int|
        0 <= i < candidates.len() && score(query, #[trigger] candidates[i]) is Some
            ==> order.contains(i as usize)
    &&& forall|a: int, b: int|
        0 <= a < b < order.len() ==> ranks_before(
            query,
            candidates,
            (#[trigger] order[a]) as int,
            (#[trigger] order[b]) as int,
        )
}

/// The contents of a list of string slices.
pub open spec fn views(v: Seq<&str>) -> Seq<Seq<char>> {
    v.map_values(|s: &str| s@)
}

/// Ranks `candidates` by descending score against `query`, leaving out those that do not match.
/// Equal scores keep their order. The result holds indices into `candidates`.
pub fn fuzzy_rank(query: &str, candidates: &[&str]) -> (r: Vec<usize>)
    ensures
        is_ranking(query@, views(candidates@), r@),
{
    let mut order: Vec<usize> = Vec::new();
    let mut scores: Vec<i32> = Vec::new();
    let mut i: usize = 0;
    let ghost q = query@;
    let ghost c = views(candidates@);
    while i < candidates.len()
        invariant
            i <= candidates@.len(),
            q == query@,
            c == views(candidates@),
            scores@.len() == order@.len(),
            order@.len() <= i,
            forall|k: int|
                0 <= k < order@.len() ==> (#[trigger] order@[k]) < i && score(
                    q,
                    c[order@[k] as int],
                ) == Some(scores@[k]),
            forall|j: int|
                0 <= j < i && score(q, #[trigger] c[j]) is Some ==> order@.contains(j as usize),
            forall|a: int, b: int|
                0 <= a < b < order@.len() ==> ranks_before(
                    q,
                    c,
                    (#[trigger] order@[a]) as int,
                    (#[trigger] order@[b]) as int,
                ),
        decreases candidates@.len() - i,
    {
        match fuzzy_match(query, candidates[i]) {
            Some(s) => {
                let mut at: usize = order.len();
                while at > 0 && scores[at - 1] < s
                    invariant
                        at <= order@.len(),
                        scores@.len() == order@.len(),
                        forall|k: int| at <= k < scores@.len() ==> scores@[k] < s,
                    decreases at,
                {
                    at -= 1;
                }
                let ghost before = order@;
                let ghost scored = scores@;
                order.insert(at, i);
                scores.insert(at, s);
                proof {
                    assert forall|k: int| 0 <= k < order@.len() implies (#[trigger] order@[k])
                        < i + 1 && score(q, c[order@[k] as int]) == Some(scores@[k]) by {
                        if k < at {
                            assert(order@[k] == before[k] && scores@[k] == scored[k]);
                        } else if k > at {
                            assert(order@[k] == before[k - 1] && scores@[k] == scored[k - 1]);
                        }
                    }
                    assert forall|j: int|
                        0 <= j < i + 1 && score(q, #[trigger] c[j]) is Some implies order@.contains(
                        j as usize,
                    ) by {
                        if j < i {
                            let k = choose|k: int| 0 <= k < before.len() && before[k] == j as usize;
                            if k < at {
                                assert(order@[k] == j as usize);
                            } else {
                                assert(order@[k + 1] == j as usize);
                            }
                        } else {
                            assert(order@[at as int] == j as usize);
                        }
                    }
                    assert forall|a: int, b: int| 0 <= a < b < order@.len() implies ranks_before(
                        q,
                        c,
                        (#[trigger] order@[a]) as int,
                        (#[trigger] order@[b]) as int,
                    ) by {
                        let x = if a < at {
                            a
                        } else {
                            a - 1
                        };
                        let y = if b < at {
                            b
                        } else {
                            b - 1
                        };
                        if a == at {
                            assert(order@[b] == before[b - 1]);
                            assert(scored[b - 1] < s);
                            assert(score(q, c[before[b - 1] as int]) == Some(scored[b - 1]));
                        } else if b == at {
                            assert(order@[a] == before[a]);
                            assert(score(q, c[before[a] as int]) == Some(scored[a]));
                            lemma_scores_sorted(q, c, before, scored, a, at - 1);
                        } else {
                            assert(order@[a] == before[x] && order@[b] == before[y]);
                        }
                    }
                }
            },
            None => {},
        }
        i += 1;
    }
    order
}

proof fn lemma_scores_sorted(
    q: Seq<char>,
    c: Seq<Seq<char>>,
    order: Seq<usize>,
    scores: Seq<i32>,
    a: int,
    b: int,
)
    requires
        0 <= a <= b < order.len(),
        scores.len() == order.len(),
        forall|k: int|
            0 <= k < order.len() ==> score(q, c[(#[trigger] order[k]) as int]) == Some(scores[k]),
        forall|a: int, b: int|
            0 <= a < b < order.len() ==> ranks_before(
                q,
                c,
                (#[trigger] order[a]) as int,
                (#[trigger] order[b]) as int,
            ),
    ensures
        scores[a] >= scores[b],
{
    assert(score(q, c[order[a] as int]) == Some(scores[a]));
    assert(score(q, c[order[b] as int]) == Some(scores[b]));
    if a < b {
        assert(ranks_before(q, c, order[a] as int, order[b] as int));
    }
}

/// An empty query matches every candidate with the score 0, so ranking by it keeps the list.
pub proof fn law_empty_query_matches_all(candidate: Seq<char>)
    ensures
        score(Seq::empty(), candidate) == Some(0i32),
{
}

/// Typing on narrows the results: what matches a longer query matches the query without its last
/// character too.
pub proof fn law_typing_narrows(query: Seq<char>, c: char, candidate: Seq<char>)
    requires
        score(query.push(c), candidate) is Some,
    ensures
        score(query, candidate) is Some,
{
    lemma_prefix_matches(query, c, candidate, 0, true);
}

proof fn lemma_prefix_matches(
    query: Seq<char>,
    c: char,
    candidate: Seq<char>,
    i: int,
    first: bool,
)
    requires
        score_from(query.push(c), candidate, i, first) is Some,
    ensures
        score_from(query, candidate, i, first) is Some,
    decreases query.len(),
{
    if query.len() > 0 {
        let longer = query.push(c);
        assert(longer[0] == query[0]);
        assert(longer.drop_first() =~= query.drop_first().push(c));
        lemma_prefix_matches(
            query.drop_first(),
            c,
            candidate,
            next_hit(candidate, query[0], i) + 1,
            false,
        );
    }
}

/// Whether `at` lists places of the candidate from `i` on, each behind the one before it, at which
/// the characters of the query stand in order.
pub open spec fn are_hits(query: Seq<char>, candidate: Seq<char>, at: Seq<int>, i: int) -> bool {
    &&& at.len() == query.len()
    &&& forall|k: int|
        0 <= k < at.len() ==> i <= (#[trigger] at[k]) < candidate.len() && alike(
            candidate[at[k]],
            query[k],
        )
    &&& forall|j: int, k: int| 0 <= j < k < at.len() ==> (#[trigger] at[j]) < (#[trigger] at[k])
}

/// Whether the query is a subsequence of the candidate, letters in either case.
pub open spec fn is_subsequence(query: Seq<char>, candidate: Seq<char>) -> bool {
    exists|at: Seq<int>| are_hits(query, candidate, at, 0)
}

proof fn lemma_next_hit(candidate: Seq<char>, q: char, i: int)
    requires
        0 <= i,
    ensures
        next_hit(candidate, q, i) >= 0 ==> i <= next_hit(candidate, q, i) < candidate.len()
            && alike(candidate[next_hit(candidate, q, i)], q),
        forall|j: int|
            i <= j < candidate.len() && alike(#[trigger] candidate[j], q) ==> 0 <= next_hit(
                candidate,
                q,
                i,
            ) <= j,
    decreases candidate.len() - i,
{
    if i < candidate.len() && !alike(candidate[i], q) {
        lemma_next_hit(candidate, q, i + 1);
    }
}

proof fn lemma_score_gives_hits(query: Seq<char>, candidate: Seq<char>, i: int, first: bool) -> (at:
    Seq<int>)
    requires
        0 <= i,
        score_from(query, candidate, i, first) is Some,
    ensures
        are_hits(query, candidate, at, i),
    decreases query.len(),
{
    if query.len() == 0 {
        Seq::empty()
    } else {
        let p = next_hit(candidate, query[0], i);
        lemma_next_hit(candidate, query[0], i);
        let rest = lemma_score_gives_hits(query.drop_first(), candidate, p + 1, false);
        let at = seq![p] + rest;
        assert forall|k: int| 0 <= k < at.len() implies i <= (#[trigger] at[k]) < candidate.len()
            && alike(candidate[at[k]], query[k]) by {
            if k > 0 {
                assert(at[k] == rest[k - 1]);
                assert(query[k] == query.drop_first()[k - 1]);
            }
        }
        assert forall|j: int, k: int| 0 <= j < k < at.len() implies (#[trigger] at[j]) < (
        #[trigger] at[k]) by {
            assert(at[k] == rest[k - 1]);
            if j > 0 {
                assert(at[j] == rest[j - 1]);
            }
        }
        at
    }
}

proof fn lemma_hits_give_score(
    query: Seq<char>,
    candidate: Seq<char>,
    at: Seq<int>,
    i: int,
    first: bool,
)
    requires
        0 <= i,
        are_hits(query, candidate, at, i),
    ensures
        score_from(query, candidate, i, first) is Some,
    decreases query.len(),
{
    if query.len() > 0 {
        lemma_next_hit(candidate, query[0], i);
        assert(alike(candidate[at[0]], query[0]));
        let p = next_hit(candidate, query[0], i);
        let rest = at.drop_first();
        assert forall|k: int| 0 <= k < rest.len() implies p + 1 <= (#[trigger] rest[k])
            < candidate.len() && alike(candidate[rest[k]], query.drop_first()[k]) by {
            assert(rest[k] == at[k + 1]);
            assert(at[0] < at[k + 1]);
        }
        assert forall|j: int, k: int| 0 <= j < k < rest.len() implies (#[trigger] rest[j]) < (
        #[trigger] rest[k]) by {
            assert(at[j + 1] < at[k + 1]);
        }
        lemma_hits_give_score(query.drop_first(), candidate, rest, p + 1, false);
    }
}

/// A candidate matches exactly where the query is a subsequence of it.
pub proof fn law_matches_are_subsequences(query: Seq<char>, candidate: Seq<char>)
    ensures
        score(query, candidate) is Some <==> is_subsequence(query, candidate),
{
    if score(query, candidate) is Some {
        let at = lemma_score_gives_hits(query, candidate, 0, true);
        assert(are_hits(query, candidate, at, 0));
    }
    if is_subsequence(query, candidate) {
        let at = choose|at: Seq<int>| are_hits(query, candidate, at, 0);
        lemma_hits_give_score(query, candidate, at, 0, true);
    }
}

proof fn lemma_score_bounds(query: Seq<char>, candidate: Seq<char>, i: int, first: bool)
    ensures
        score_from(query, candidate, i, first) matches Some(s) ==> query.len() <= s <= 16
            * query.len(),
    decreases query.len(),
{
    if query.len() > 0 {
        let p = next_hit(candidate, query[0], i);
        lemma_score_bounds(query.drop_first(), candidate, p + 1, false);
    }
}

/// Each character of the query gives between one point and sixteen.
pub proof fn law_score_bounds(query: Seq<char>, candidate: Seq<char>)
    requires
        16 * query.len() <= i32::MAX,
        score(query, candidate) is Some,
    ensures
        query.len() <= score(query, candidate)->0 <= 16 * query.len(),
{
    lemma_score_bounds(query, candidate, 0, true);
}

proof fn lemma_hit_before_tail(candidate: Seq<char>, tail: Seq<char>, q: char, i: int)
    requires
        0 <= i,
        next_hit(candidate, q, i) >= 0,
    ensures
        next_hit(candidate + tail, q, i) == next_hit(candidate, q, i),
    decreases candidate.len() - i,
{
    assert((candidate + tail)[i] == candidate[i]);
    if !alike(candidate[i], q) {
        lemma_hit_before_tail(candidate, tail, q, i + 1);
    }
}

proof fn lemma_tail(query: Seq<char>, candidate: Seq<char>, tail: Seq<char>, i: int, first: bool)
    requires
        0 <= i,
        score_from(query, candidate, i, first) is Some,
    ensures
        score_from(query, candidate + tail, i, first) == score_from(query, candidate, i, first),
    decreases query.len(),
{
    if query.len() > 0 {
        let p = next_hit(candidate, query[0], i);
        lemma_next_hit(candidate, query[0], i);
        lemma_hit_before_tail(candidate, tail, query[0], i);
        lemma_tail(query.drop_first(), candidate, tail, p + 1, false);
        if p > 0 {
            assert((candidate + tail)[p - 1] == candidate[p - 1]);
        }
    }
}

/// What follows the last hit does not change the score: a match stays one, with the same score, when
/// the candidate goes on.
pub proof fn law_tail_does_not_matter(query: Seq<char>, candidate: Seq<char>, tail: Seq<char>)
    requires
        score(query, candidate) is Some,
    ensures
        score(query, candidate + tail) == score(query, candidate),
{
    lemma_tail(query, candidate, tail, 0, true);
}

/// Whether `p` is the first index from `i` on at which a candidate has a character.
pub open spec fn first_from(candidate: Seq<char>, q: char, i: int, p: int) -> bool {
    &&& 0 <= i <= p < candidate.len()
    &&& alike(candidate[p], q)
    &&& forall|k: int| i <= k < p ==> !alike(#[trigger] candidate[k], q)
}

/// Whether the characters of a query are found at the indices `at` of a candidate, each at the first
/// place behind the one before it.
pub open spec fn found_at(query: Seq<char>, candidate: Seq<char>, at: Seq<int>) -> bool {
    &&& at.len() == query.len()
    &&& forall|k: int|
        0 <= k < at.len() ==> first_from(
            candidate,
            query[k],
            #[trigger] from_where(at, k),
            at[k],
        )
}

/// Where the search for the `k`-th character of a query starts.
pub open spec fn from_where(at: Seq<int>, k: int) -> int {
    if k == 0 {
        0
    } else {
        at[k - 1] + 1
    }
}

/// How many of the hits from the first up to the `n`-th stand at the start of the candidate or behind
/// one of the characters that part words.
pub open spec fn at_word_starts(candidate: Seq<char>, at: Seq<int>, n: nat) -> nat
    decreases n,
{
    if n == 0 {
        0
    } else {
        let p = at[n - 1];
        let parts = seq!['/', '\\', '_', '-', '.', ' '];
        at_word_starts(candidate, at, (n - 1) as nat) + if p == 0 || parts.contains(candidate[p - 1]) {
            1nat
        } else {
            0
        }
    }
}

/// How many of the first `n` hits stand directly behind the one before them.
pub open spec fn in_runs(at: Seq<int>, n: nat) -> nat
    decreases n,
{
    if n <= 1 {
        0
    } else {
        in_runs(at, (n - 1) as nat) + if at[n - 1] == at[n - 2] + 1 {
            1nat
        } else {
            0
        }
    }
}

proof fn lemma_separators(c: char)
    ensures
        is_separator(c) == seq!['/', '\\', '_', '-', '.', ' '].contains(c),
{
    let parts = seq!['/', '\\', '_', '-', '.', ' '];
    assert(parts[0] == '/' && parts[1] == '\\' && parts[2] == '_' && parts[3] == '-' && parts[4] == '.'
        && parts[5] == ' ');
}

proof fn lemma_first_hit(candidate: Seq<char>, q: char, i: int, p: int)
    requires
        0 <= i <= p < candidate.len(),
        alike(candidate[p], q),
        forall|k: int| i <= k < p ==> !alike(#[trigger] candidate[k], q),
    ensures
        next_hit(candidate, q, i) == p,
    decreases p - i,
{
    if i < p {
        lemma_first_hit(candidate, q, i + 1, p);
    }
}

/// The points that the hits from the `k`-th on give.
spec fn points_from(candidate: Seq<char>, at: Seq<int>, k: int) -> nat
    decreases at.len() - k,
{
    if k < 0 || k >= at.len() {
        0
    } else {
        points(candidate, at[k], k > 0 && at[k] == at[k - 1] + 1) + points_from(candidate, at, k + 1)
    }
}

proof fn lemma_score_of_hits(query: Seq<char>, candidate: Seq<char>, at: Seq<int>, k: int)
    requires
        found_at(query, candidate, at),
        0 <= k <= query.len(),
    ensures
        score_from(query.skip(k), candidate, from_where(at, k), k == 0) == Some(
            points_from(candidate, at, k),
        ),
    decreases query.len() - k,
{
    let rest = query.skip(k);
    if k < query.len() {
        let i = from_where(at, k);
        assert(first_from(candidate, query[k], i, at[k]));
        lemma_score_of_hits(query, candidate, at, k + 1);
        assert(rest[0] == query[k]);
        assert(rest.drop_first() =~= query.skip(k + 1));
        lemma_first_hit(candidate, rest[0], i, at[k]);
    }
}

proof fn lemma_points_counted(candidate: Seq<char>, at: Seq<int>, k: nat)
    requires
        k <= at.len(),
    ensures
        points_from(candidate, at, 0) == k + 5 * at_word_starts(candidate, at, k) + 10 * in_runs(
            at,
            k,
        ) + points_from(candidate, at, k as int),
    decreases k,
{
    if k > 0 {
        lemma_points_counted(candidate, at, (k - 1) as nat);
        let p = at[k - 1];
        if p != 0 {
            lemma_separators(candidate[p - 1]);
        }
        assert(points_from(candidate, at, k - 1) == points(candidate, p, k > 1 && p == at[k - 2] + 1)
            + points_from(candidate, at, k as int));
    }
}

/// The score counts the hits: one point for each, five more for each at the start of the candidate
/// or of a word in it, ten more for each directly behind the hit before it.
pub proof fn law_score_counts_hits(query: Seq<char>, candidate: Seq<char>, at: Seq<int>)
    requires
        found_at(query, candidate, at),
        16 * query.len() <= i32::MAX,
    ensures
        score(query, candidate) is Some,
        score(query, candidate)->0 == query.len() + 5 * at_word_starts(candidate, at, at.len()) + 10
            * in_runs(at, at.len()),
{
    lemma_score_of_hits(query, candidate, at, 0);
    lemma_points_counted(candidate, at, at.len());
    assert(query.skip(0) =~= query);
    lemma_counts_bound(candidate, at, at.len());
}

proof fn lemma_counts_bound(candidate: Seq<char>, at: Seq<int>, n: nat)
    ensures
        at_word_starts(candidate, at, n) <= n,
        in_runs(at, n) <= n,
    decreases n,
{
    if n > 0 {
        lemma_counts_bound(candidate, at, (n - 1) as nat);
    }
}

/// A hit at the start of a candidate, or of a word in it, outranks one inside a word.
pub proof fn law_word_start_outranks(q: char, a: Seq<char>, p: int, b: Seq<char>, r: int)
    requires
        0 <= p < a.len(),
        alike(a[p], q),
        forall|k: int| 0 <= k < p ==> !alike(#[trigger] a[k], q),
        p == 0 || a[p - 1] == '/' || a[p - 1] == '\\' || a[p - 1] == '_' || a[p - 1] == '-' || a[p
            - 1] == '.' || a[p - 1] == ' ',
        0 < r < b.len(),
        alike(b[r], q),
        forall|k: int| 0 <= k < r ==> !alike(#[trigger] b[k], q),
        'a' <= b[r - 1] <= 'z' || 'A' <= b[r - 1] <= 'Z' || '0' <= b[r - 1] <= '9',
    ensures
        score(seq![q], a) is Some,
        score(seq![q], b) is Some,
        score(seq![q], a)->0 == score(seq![q], b)->0 + 5,
{
    lemma_first_hit(a, q, 0, p);
    lemma_first_hit(b, q, 0, r);
    assert(seq![q].drop_first() =~= Seq::<char>::empty());
    reveal_with_fuel(score_from, 2);
}

/// Two hits side by side outrank the same two apart by ten points.
pub proof fn law_run_outranks(x: char, y: char, a: Seq<char>, p: int, b: Seq<char>, r: int, s: int)
    requires
        found_at(seq![x, y], a, seq![p, p + 1]),
        found_at(seq![x, y], b, seq![r, s]),
        s > r + 1,
        at_word_starts(a, seq![p, p + 1], 2) == at_word_starts(b, seq![r, s], 2),
    ensures
        score(seq![x, y], a) is Some,
        score(seq![x, y], b) is Some,
        score(seq![x, y], a)->0 == score(seq![x, y], b)->0 + 10,
{
    law_score_counts_hits(seq![x, y], a, seq![p, p + 1]);
    law_score_counts_hits(seq![x, y], b, seq![r, s]);
    reveal_with_fuel(in_runs, 3);
}

/// Letters match in either case: the score does not depend on the case of the query's letters.
pub proof fn law_case_does_not_matter(query: Seq<char>, candidate: Seq<char>)
    ensures
        score(ascii_lower_all(query), candidate) == score(query, candidate),
{
    lemma_case(query, candidate, 0, true);
}

proof fn lemma_case(query: Seq<char>, candidate: Seq<char>, i: int, first: bool)
    ensures
        score_from(ascii_lower_all(query), candidate, i, first) == score_from(
            query,
            candidate,
            i,
            first,
        ),
    decreases query.len(),
{
    if query.len() > 0 {
        let low = ascii_lower_all(query);
        assert(low.drop_first() =~= ascii_lower_all(query.drop_first()));
        lemma_same_hit(candidate, low[0], query[0], i);
        let p = next_hit(candidate, query[0], i);
        lemma_case(query.drop_first(), candidate, p + 1, false);
    }
}

proof fn lemma_same_hit(candidate: Seq<char>, a: char, b: char, i: int)
    requires
        ascii_lower(a) == ascii_lower(b),
    ensures
        next_hit(candidate, a, i) == next_hit(candidate, b, i),
    decreases candidate.len() - i,
{
    if i < candidate.len() && !alike(candidate[i], a) {
        lemma_same_hit(candidate, a, b, i + 1);
    }
}

/// A ranking lists each matching candidate, the better score first, and of equal scores the one that
/// was given first.
pub proof fn law_best_match_first(
    query: Seq<char>,
    candidates: Seq<Seq<char>>,
    order: Seq<usize>,
    i: int,
    j: int,
)
    requires
        is_ranking(query, candidates, order),
        candidates.len() <= usize::MAX,
        0 <= i < candidates.len(),
        0 <= j < candidates.len(),
        score(query, candidates[i]) is Some,
        score(query, candidates[j]) is Some,
        score(query, candidates[i])->0 > score(query, candidates[j])->0 || (score(
            query,
            candidates[i],
        ) == score(query, candidates[j]) && i < j),
    ensures
        exists|a: int, b: int|
            0 <= a < b < order.len() && (#[trigger] order[a]) == i && (#[trigger] order[b]) == j,
        forall|k: int| 0 <= k < order.len() ==> score(query, candidates[(#[trigger] order[k]) as int])
            is Some,
{
    assert(order.contains(i as usize));
    assert(order.contains(j as usize));
    let a = choose|a: int| 0 <= a < order.len() && order[a] == i as usize;
    let b = choose|b: int| 0 <= b < order.len() && order[b] == j as usize;
    if b < a {
        assert(ranks_before(query, candidates, order[b] as int, order[a] as int));
    }
    assert(a < b);
    assert(order[a] == i && order[b] == j);
}

} // verus!
