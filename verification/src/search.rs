//! Incremental search in a buffer.

use crate::text::{
    byte_len, chars_of, find_offset, lemma_offset_mono, lemma_byte_len_concat, offset,
};
use std::ops::Range;
use vstd::prelude::*;

verus! {

/// Incremental search state: the query, every match of it, and which one is active.
#[derive(Debug)]
pub struct Search {
    query: String,
    matches: Vec<Range<usize>>,
    active: usize,
    origin: usize,
}

/// The state of a [`Search`].
pub struct SearchState {
    /// The query.
    pub query: Seq<char>,
    /// The byte ranges of the matches, in document order.
    pub matches: Seq<(nat, nat)>,
    /// The index of the active match.
    pub active: nat,
    /// Where the cursor was when the search began.
    pub origin: nat,
}

/// The byte ranges of a list of ranges.
pub open spec fn ranges(v: Seq<Range<usize>>) -> Seq<(nat, nat)> {
    v.map_values(|r: Range<usize>| (r.start as nat, r.end as nat))
}

impl View for Search {
    type V = SearchState;

    closed spec fn view(&self) -> SearchState {
        SearchState {
            query: self.query@,
            matches: ranges(self.matches@),
            active: self.active as nat,
            origin: self.origin as nat,
        }
    }
}

/// Whether `query` stands at the index `i` of `t`.
pub open spec fn occurs_at(t: Seq<char>, query: Seq<char>, i: int) -> bool {
    0 <= i <= t.len() - query.len() && t.subrange(i, i + query.len()) == query
}

/// The first index from `i` on at which `query` stands in `t`, or -1.
pub open spec fn next_occurrence(t: Seq<char>, query: Seq<char>, i: int) -> int
    decreases t.len() + 1 - i,
{
    if i > t.len() - query.len() {
        -1
    } else if occurs_at(t, query, i) {
        i
    } else {
        next_occurrence(t, query, i + 1)
    }
}

/// The byte ranges of the occurrences of `query` in `t` from the index `i` on, each found from
/// where the one before it ends.
pub open spec fn occurrences(t: Seq<char>, query: Seq<char>, i: int) -> Seq<(nat, nat)>
    decreases t.len() - i,
{
    let p = next_occurrence(t, query, i);
    if query.len() == 0 || p < i || p + query.len() > t.len() {
        Seq::empty()
    } else {
        seq![(offset(t, p), offset(t, p + query.len()))] + occurrences(t, query, p + query.len())
    }
}

/// The index of the first match that starts at or behind `from`, or 0.
pub open spec fn landing(matches: Seq<(nat, nat)>, from: nat, i: nat) -> nat
    decreases matches.len() - i,
{
    if i >= matches.len() {
        0
    } else if matches[i as int].0 >= from {
        i
    } else {
        landing(matches, from, i + 1)
    }
}

impl SearchState {
    /// With the matches of the query in `t`, and the first one from `from` on active; if none
    /// is that far back, the first of all.
    pub open spec fn recomputed(self, t: Seq<char>, from: nat) -> SearchState {
        let matches = occurrences(t, self.query, 0);
        SearchState { matches, active: landing(matches, from, 0), ..self }
    }

    /// With the next match active, the first one behind the last.
    pub open spec fn stepped(self) -> SearchState {
        if self.matches.len() == 0 {
            self
        } else {
            SearchState {
                active: if self.active + 1 < self.matches.len() {
                    self.active + 1
                } else {
                    0
                },
                ..self
            }
        }
    }

    /// With the previous match active, the last one before the first.
    pub open spec fn stepped_back(self) -> SearchState {
        if self.matches.len() == 0 {
            self
        } else {
            SearchState {
                active: if self.active > 0 {
                    (self.active - 1) as nat
                } else {
                    (self.matches.len() - 1) as nat
                },
                ..self
            }
        }
    }

    /// Whether the active match is one of the matches, if there are any.
    pub open spec fn in_range(self) -> bool {
        self.matches.len() > 0 ==> self.active < self.matches.len()
    }
}

proof fn lemma_next_occurrence(t: Seq<char>, query: Seq<char>, i: int)
    requires
        0 <= i,
    ensures
        ({
            let p = next_occurrence(t, query, i);
            p == -1 || (i <= p && occurs_at(t, query, p) && forall|k: int|
                i <= k < p ==> !occurs_at(t, query, k))
        }),
    decreases t.len() + 1 - i,
{
    if i <= t.len() - query.len() && !occurs_at(t, query, i) {
        lemma_next_occurrence(t, query, i + 1);
    }
}

/// Whether `query` stands at the index `i`.
fn stands_at(t: &[char], query: &[char], i: usize) -> (r: bool)
    requires
        query@.len() <= t@.len(),
        i <= t@.len() - query@.len(),
    ensures
        r == occurs_at(t@, query@, i as int),
{
    let n = t.len();
    let mut k: usize = 0;
    while k < query.len()
        invariant
            n == t@.len(),
            k <= query@.len(),
            query@.len() <= t@.len(),
            i <= t@.len() - query@.len(),
            forall|j: int| 0 <= j < k ==> t@[i + j] == #[trigger] query@[j],
        decreases query@.len() - k,
    {
        if t[i + k] != query[k] {
            proof {
                if occurs_at(t@, query@, i as int) {
                    assert(t@.subrange(i as int, i + query@.len())[k as int] == query@[k as int]);
                }
            }
            return false;
        }
        k += 1;
    }
    assert(t@.subrange(i as int, i + query@.len()) =~= query@);
    true
}

/// The first index from `i` on at which `query` stands in `t`, if there is one.
pub fn find_from(t: &[char], query: &[char], i: usize) -> (r: Option<usize>)
    requires
        i <= t@.len(),
    ensures
        match r {
            Some(p) => p == next_occurrence(t@, query@, i as int) && i <= p && occurs_at(
                t@,
                query@,
                p as int,
            ),
            None => next_occurrence(t@, query@, i as int) == -1,
        },
{
    if query.len() > t.len() {
        return None;
    }
    let mut k: usize = i;
    while k <= t.len() - query.len()
        invariant
            query@.len() <= t@.len(),
            i <= k <= t@.len() + 1,
            next_occurrence(t@, query@, i as int) == next_occurrence(t@, query@, k as int),
        decreases t@.len() + 1 - k,
    {
        if stands_at(t, query, k) {
            return Some(k);
        }
        if k == t.len() {
            assert(next_occurrence(t@, query@, k + 1) == -1);
            return None;
        }
        k += 1;
    }
    None
}

/// The byte ranges of the occurrences of `query` in `t`.
fn find_all(t: &[char], query: &[char]) -> (r: Vec<Range<usize>>)
    requires
        byte_len(t@) <= usize::MAX,
    ensures
        ranges(r@) == occurrences(t@, query@, 0),
{
    let mut r: Vec<Range<usize>> = Vec::new();
    assert(ranges(r@) =~= Seq::empty());
    if query.len() == 0 {
        return r;
    }
    let mut from: usize = 0;
    let mut i: usize = 0;
    assert(ranges(r@) + occurrences(t@, query@, 0) =~= occurrences(t@, query@, 0));
    if query.len() > t.len() {
        return r;
    }
    while i <= t.len() - query.len()
        invariant
            0 < query@.len() <= t@.len(),
            byte_len(t@) <= usize::MAX,
            from <= i <= t@.len(),
            next_occurrence(t@, query@, from as int) == next_occurrence(t@, query@, i as int),
            ranges(r@) + occurrences(t@, query@, from as int) == occurrences(t@, query@, 0),
        decreases t@.len() - i,
    {
        if stands_at(t, query, i) {
            let end: usize = i + query.len();
            proof {
                lemma_offset_mono(t@, i as int, end as int);
            }
            let range = Range { start: find_offset(t, i), end: find_offset(t, end) };
            let ghost before = ranges(r@);
            let ghost pair = (offset(t@, i as int), offset(t@, end as int));
            r.push(range);
            proof {
                assert(ranges(r@) =~= before.push(pair));
                assert(occurrences(t@, query@, from as int) == seq![pair] + occurrences(
                    t@,
                    query@,
                    end as int,
                ));
                assert(ranges(r@) + occurrences(t@, query@, end as int) =~= before + (seq![pair]
                    + occurrences(t@, query@, end as int)));
            }
            from = end;
            i = end;
        } else {
            i += 1;
        }
    }
    assert(occurrences(t@, query@, from as int) =~= Seq::empty());
    assert(ranges(r@) + occurrences(t@, query@, from as int) =~= ranges(r@));
    r
}

impl Search {
    /// Opens a search that began with the cursor at `origin`.
    pub fn new(origin: usize) -> (r: Self)
        ensures
            r@ == (SearchState {
                query: Seq::empty(),
                matches: Seq::empty(),
                active: 0,
                origin: origin as nat,
            }),
    {
        let r = Search { query: String::new(), matches: Vec::new(), active: 0, origin };
        assert(r@.matches =~= Seq::empty());
        r
    }

    /// The query.
    pub fn query(&self) -> (r: &str)
        ensures
            r@ == self@.query,
    {
        self.query.as_str()
    }

    /// Where the cursor was when the search began, for a cancelled search to go back to.
    pub fn origin(&self) -> (r: usize)
        ensures
            r == self@.origin,
    {
        self.origin
    }

    /// Every match, in document order.
    pub fn matches(&self) -> (r: &[Range<usize>])
        ensures
            ranges(r@) == self@.matches,
    {
        self.matches.as_slice()
    }

    /// How many matches there are.
    pub fn match_count(&self) -> (r: usize)
        ensures
            r == self@.matches.len(),
    {
        self.matches.len()
    }

    /// The active match, if there is one.
    pub fn active_match(&self) -> (r: Option<Range<usize>>)
        ensures
            match r {
                Some(m) => self@.active < self@.matches.len() && self@.matches[self@.active as int]
                    == (m.start as nat, m.end as nat),
                None => self@.active >= self@.matches.len(),
            },
    {
        if self.active < self.matches.len() {
            let m = &self.matches[self.active];
            Some(Range { start: m.start, end: m.end })
        } else {
            None
        }
    }

    /// The 1-based index of the active match, or 0 when there are none.
    pub fn active_index(&self) -> (r: usize)
        requires
            self@.in_range(),
        ensures
            r == if self@.matches.len() == 0 {
                0
            } else {
                self@.active + 1
            },
    {
        if self.matches.len() == 0 {
            0
        } else {
            self.active + 1
        }
    }

    /// Appends `c` to the query and searches `text` anew, landing on the first match at or behind
    /// `from`.
    pub fn push(&mut self, c: char, text: &str, from: usize)
        requires
            byte_len(text@) <= usize::MAX,
        ensures
            final(self)@ == (SearchState {
                query: old(self)@.query.push(c),
                ..old(self)@
            }).recomputed(text@, from as nat),
            final(self)@.in_range(),
    {
        self.query.push(c);
        self.recompute(text, from);
    }

    /// Removes the last character of the query, if there is one, and searches `text` anew.
    pub fn backspace(&mut self, text: &str, from: usize)
        requires
            byte_len(text@) <= usize::MAX,
        ensures
            final(self)@ == (SearchState {
                query: if old(self)@.query.len() > 0 {
                    old(self)@.query.drop_last()
                } else {
                    old(self)@.query
                },
                ..old(self)@
            }).recomputed(text@, from as nat),
            final(self)@.in_range(),
    {
        self.query.pop();
        self.recompute(text, from);
    }

    /// Finds every match of the query in `text` that does not overlap the one before it. The
    /// first one at or behind `from` becomes active, or the first of all if there is none. An
    /// empty query has no matches.
    pub fn recompute(&mut self, text: &str, from: usize)
        requires
            byte_len(text@) <= usize::MAX,
        ensures
            final(self)@ == old(self)@.recomputed(text@, from as nat),
            final(self)@.in_range(),
    {
        let t = chars_of(text);
        let query = chars_of(self.query.as_str());
        self.matches = find_all(t.as_slice(), query.as_slice());
        let ghost all = ranges(self.matches@);
        let mut i: usize = 0;
        while i < self.matches.len() && self.matches[i].start < from
            invariant
                i <= self.matches@.len(),
                all == ranges(self.matches@),
                landing(all, from as nat, 0) == landing(all, from as nat, i as nat),
                self.query == old(self).query,
                self.origin == old(self).origin,
            decreases self.matches@.len() - i,
        {
            i += 1;
        }
        self.active = if i < self.matches.len() {
            i
        } else {
            0
        };
    }

    /// Advances to the next match, around the end.
    pub fn next(&mut self)
        requires
            old(self)@.in_range(),
        ensures
            final(self)@ == old(self)@.stepped(),
            final(self)@.in_range(),
    {
        if self.matches.len() > 0 {
            self.active = if self.active < self.matches.len() - 1 {
                self.active + 1
            } else {
                0
            };
        }
    }

    /// Steps to the previous match, around the start.
    pub fn prev(&mut self)
        requires
            old(self)@.in_range(),
        ensures
            final(self)@ == old(self)@.stepped_back(),
            final(self)@.in_range(),
    {
        if self.matches.len() > 0 {
            self.active = if self.active > 0 {
                self.active - 1
            } else {
                self.matches.len() - 1
            };
        }
    }
}

/// Going to the next match and back again, or back and forth, ends at the active match.
pub proof fn law_next_and_prev_are_inverse(s: SearchState)
    requires
        s.in_range(),
    ensures
        s.stepped().stepped_back() == s,
        s.stepped_back().stepped() == s,
{
}

/// The matches lie in the text in order, none overlaps the next, and each one spans the query.
pub proof fn law_matches_in_order(t: Seq<char>, query: Seq<char>, i: int)
    requires
        0 <= i <= t.len(),
    ensures
        forall|k: int|
            0 <= k < occurrences(t, query, i).len() ==> offset(t, i) <= (
            #[trigger] occurrences(t, query, i)[k]).0 && occurrences(t, query, i)[k].1
                == occurrences(t, query, i)[k].0 + byte_len(query) && occurrences(t, query, i)[k].1
                <= byte_len(t),
        forall|a: int, b: int|
            0 <= a < b < occurrences(t, query, i).len() ==> (
            #[trigger] occurrences(t, query, i)[a]).1 <= (#[trigger] occurrences(t, query, i)[b]).0,
    decreases t.len() - i,
{
    let p = next_occurrence(t, query, i);
    lemma_next_occurrence(t, query, i);
    if query.len() > 0 && i <= p {
        let end = p + query.len();
        law_matches_in_order(t, query, end);
        let rest = occurrences(t, query, end);
        let all = occurrences(t, query, i);
        assert(all =~= seq![(offset(t, p), offset(t, end))] + rest);
        lemma_offset_mono(t, i, p);
        lemma_offset_mono(t, p, end);
        lemma_offset_mono(t, end, end);
        assert(t.take(end) =~= t.take(p) + query) by {
            assert(t.take(end) =~= t.take(p) + t.subrange(p, end));
        }
        lemma_byte_len_concat(t.take(p), query);
        assert forall|k: int| 0 <= k < all.len() implies offset(t, i) <= (#[trigger] all[k]).0
            && all[k].1 == all[k].0 + byte_len(query) && all[k].1 <= byte_len(t) by {
            if k > 0 {
                assert(all[k] == rest[k - 1]);
            }
        }
        assert forall|a: int, b: int| 0 <= a < b < all.len() implies (#[trigger] all[a]).1 <= (
        #[trigger] all[b]).0 by {
            assert(all[b] == rest[b - 1]);
            if a > 0 {
                assert(all[a] == rest[a - 1]);
            }
        }
    }
}

/// No occurrence of the query is missed: each one is a match, or overlaps a match before it.
pub proof fn law_no_occurrence_missed(t: Seq<char>, query: Seq<char>, i: int, q: int)
    requires
        0 <= i <= q,
        query.len() > 0,
        occurs_at(t, query, q),
    ensures
        exists|k: int|
            0 <= k < occurrences(t, query, i).len() && (
            #[trigger] occurrences(t, query, i)[k]).0 <= offset(t, q) < occurrences(
                t,
                query,
                i,
            )[k].1,
    decreases t.len() - i,
{
    let p = next_occurrence(t, query, i);
    lemma_next_occurrence(t, query, i);
    lemma_occurrence_found(t, query, i, q);
    let end = p + query.len();
    let all = occurrences(t, query, i);
    let rest = occurrences(t, query, end);
    assert(all =~= seq![(offset(t, p), offset(t, end))] + rest);
    if q < end {
        lemma_offset_mono(t, p, q);
        lemma_offset_mono(t, q, end);
        assert(all[0].0 <= offset(t, q) < all[0].1);
    } else {
        law_no_occurrence_missed(t, query, end, q);
        let k = choose|k: int|
            0 <= k < rest.len() && (#[trigger] rest[k]).0 <= offset(t, q) < rest[k].1;
        assert(all[k + 1] == rest[k]);
    }
}

proof fn lemma_occurrence_found(t: Seq<char>, query: Seq<char>, i: int, q: int)
    requires
        0 <= i <= q,
        occurs_at(t, query, q),
    ensures
        i <= next_occurrence(t, query, i) <= q,
    decreases q - i,
{
    if i < q && !occurs_at(t, query, i) {
        lemma_occurrence_found(t, query, i + 1, q);
    }
}

/// The first occurrence is the one that is found, and where there is none, none is.
pub proof fn law_first_occurrence_is_found(t: Seq<char>, query: Seq<char>, p: int)
    requires
        0 <= p,
        forall|k: int| 0 <= k < p ==> !(#[trigger] occurs_at(t, query, k)),
    ensures
        occurs_at(t, query, p) ==> next_occurrence(t, query, 0) == p,
        p > t.len() - query.len() ==> next_occurrence(t, query, 0) == -1,
{
    lemma_next_occurrence(t, query, 0);
    if occurs_at(t, query, p) {
        lemma_occurrence_found(t, query, 0, p);
    }
}

/// Every match is an occurrence of the query.
pub proof fn law_matches_are_occurrences(t: Seq<char>, query: Seq<char>, i: int, k: int)
    requires
        0 <= i <= t.len(),
        0 <= k < occurrences(t, query, i).len(),
    ensures
        exists|p: int|
            {
                &&& #[trigger] occurs_at(t, query, p)
                &&& p >= i
                &&& occurrences(t, query, i)[k] == (offset(t, p), offset(t, p + query.len()))
            },
    decreases t.len() - i,
{
    let p = next_occurrence(t, query, i);
    lemma_next_occurrence(t, query, i);
    let end = p + query.len();
    let rest = occurrences(t, query, end);
    let all = occurrences(t, query, i);
    assert(all =~= seq![(offset(t, p), offset(t, end))] + rest);
    if k == 0 {
        assert(occurs_at(t, query, p));
    } else {
        law_matches_are_occurrences(t, query, end, k - 1);
        assert(all[k] == rest[k - 1]);
    }
}

proof fn lemma_landing(matches: Seq<(nat, nat)>, from: nat, i: nat)
    ensures
        ({
            let n = landing(matches, from, i);
            ||| i <= n < matches.len() && matches[n as int].0 >= from && forall|k: int|
                i <= k < n ==> (#[trigger] matches[k]).0 < from
            ||| n == 0 && forall|k: int| i <= k < matches.len() ==> (#[trigger] matches[k]).0 < from
        }),
    decreases matches.len() - i,
{
    if i < matches.len() && matches[i as int].0 < from {
        lemma_landing(matches, from, i + 1);
    }
}

/// A search lands on the first match at or behind the place it starts from, and on the first of all
/// where there is none behind it.
pub proof fn law_search_lands_on_the_next_match(s: SearchState, t: Seq<char>, from: nat, k: int)
    requires
        0 <= k < s.recomputed(t, from).matches.len(),
    ensures
        ({
            let x = s.recomputed(t, from);
            &&& x.active < x.matches.len()
            &&& x.matches[k].0 >= from ==> x.active <= k && x.matches[x.active as int].0 >= from
            &&& k < x.active ==> x.matches[k].0 < from
            &&& x.matches[x.active as int].0 < from ==> x.active == 0
            &&& x.query == s.query && x.origin == s.origin
        }),
{
    lemma_landing(s.recomputed(t, from).matches, from, 0);
}

/// The next match is the one behind the active one, round to the first; the previous one is the one
/// before it, round to the last.
pub proof fn law_stepping_goes_round(s: SearchState)
    requires
        s.active < s.matches.len(),
    ensures
        s.stepped().matches == s.matches && s.stepped_back().matches == s.matches,
        s.stepped().active == (s.active + 1int) % (s.matches.len() as int),
        s.stepped_back().active == (s.active + s.matches.len() - 1) % (s.matches.len() as int),
{
    let n = s.matches.len() as int;
    let a = s.active as int;
    if a + 1 < n {
        vstd::arithmetic::div_mod::lemma_small_mod((a + 1) as nat, n as nat);
    } else {
        vstd::arithmetic::div_mod::lemma_mod_self_0(n);
    }
    if a > 0 {
        vstd::arithmetic::div_mod::lemma_mod_add_multiples_vanish(a - 1, n);
        vstd::arithmetic::div_mod::lemma_small_mod((a - 1) as nat, n as nat);
    } else {
        vstd::arithmetic::div_mod::lemma_small_mod((n - 1) as nat, n as nat);
    }
}

} // verus!
