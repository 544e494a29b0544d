//! How the editor is measured: quantiles of samples, budgets, and what an edit was meant to change.

use crate::text::{
    chars_are, chars_of, find_char, find_char_from, lines, lines_of, slice_of, string_of, texts,
};
use vstd::prelude::*;

verus! {

/// The rank of a quantile among samples that are in order, `last` being the highest rank: the
/// nearest one, in thousandths.
pub open spec fn rank(permille: nat, last: nat) -> nat {
    let nearest = (permille * last + 500) / 1000;
    if nearest <= last {
        nearest
    } else {
        last
    }
}

/// The quantile of samples that are in order; 0 if there are none.
pub fn quantile(sorted: &[u64], permille: usize) -> (r: u64)
    ensures
        r == (if sorted@.len() == 0 {
            0
        } else {
            sorted@[rank(permille as nat, (sorted@.len() - 1) as nat) as int]
        }),
{
    if sorted.len() == 0 {
        return 0;
    }
    let last: usize = sorted.len() - 1;
    assert(permille * last <= 0xffff_ffff_ffff_ffff * 0xffff_ffff_ffff_ffff) by (nonlinear_arith)
        requires
            permille <= 0xffff_ffff_ffff_ffff,
            last <= 0xffff_ffff_ffff_ffff,
    ;
    assert(0 <= permille * last) by (nonlinear_arith);
    let nearest: u128 = (permille as u128 * last as u128 + 500) / 1000;
    if nearest <= last as u128 {
        sorted[nearest as usize]
    } else {
        sorted[last]
    }
}

/// A scenario that was measured, with times in nanoseconds.
#[derive(Clone, Debug, PartialEq, Eq)]
pub struct Scenario {
    /// What was measured.
    pub name: String,
    /// The time that counts.
    pub headline: u64,
    /// The time that it may take.
    pub budget: u64,
    /// Whether the budget is enforced.
    pub gated: bool,
}

/// Whether a scenario fails the run.
pub open spec fn breaches(s: Scenario) -> bool {
    s.gated && s.headline > s.budget
}

impl Scenario {
    /// The word for a scenario in the report.
    pub fn status(&self) -> (r: &'static str)
        ensures
            r@ == (match (self.gated, self.headline > self.budget) {
                (true, false) => "OK"@,
                (true, true) => "OVER"@,
                (false, true) => "KNOWN"@,
                (false, false) => "info"@,
            }),
    {
        match (self.gated, self.headline > self.budget) {
            (true, false) => "OK",
            (true, true) => "OVER",
            (false, true) => "KNOWN",
            (false, false) => "info",
        }
    }
}

/// The scenarios that fail the run, by index.
pub open spec fn breach_list(all: Seq<Scenario>, n: nat) -> Seq<usize>
    decreases n,
{
    if n == 0 || n > all.len() {
        Seq::empty()
    } else if breaches(all[n - 1]) {
        breach_list(all, (n - 1) as nat).push((n - 1) as usize)
    } else {
        breach_list(all, (n - 1) as nat)
    }
}

/// The scenarios that fail the run, by index.
pub fn breached(all: &[Scenario]) -> (r: Vec<usize>)
    ensures
        r@ == breach_list(all@, all@.len()),
{
    let mut r: Vec<usize> = Vec::new();
    let mut i: usize = 0;
    while i < all.len()
        invariant
            i <= all@.len(),
            r@ == breach_list(all@, i as nat),
        decreases all@.len() - i,
    {
        if all[i].gated && all[i].headline > all[i].budget {
            r.push(i);
        }
        i += 1;
    }
    r
}

/// Whether two texts differ in one line only, which is now `text`.
pub open spec fn one_line_differs(
    before: Seq<Seq<char>>,
    now: Seq<Seq<char>>,
    index: nat,
    text: Seq<char>,
) -> bool {
    &&& before.len() == now.len()
    &&& index < now.len()
    &&& now[index as int] == text
    &&& forall|k: int| 0 <= k < now.len() && k != index ==> #[trigger] before[k] == now[k]
}

/// Whether `after` differs from `original` in the line numbered `index` only, which is now `text`.
pub fn only_line_changed(after: &str, original: &str, index: usize, text: &str) -> (r: bool)
    ensures
        r == one_line_differs(lines(original@), lines(after@), index as nat, text@),
{
    let before = lines_of(chars_of(original).as_slice());
    let now = lines_of(chars_of(after).as_slice());
    assert(texts(before@).len() == before@.len());
    assert(texts(now@).len() == now@.len());
    if before.len() != now.len() || index >= now.len() {
        return false;
    }
    assert(texts(now@)[index as int] == now@[index as int]@);
    if !chars_are(now[index].as_slice(), text) {
        return false;
    }
    let mut k: usize = 0;
    while k < now.len()
        invariant
            k <= now@.len(),
            before@.len() == now@.len(),
            texts(before@) == lines(original@),
            texts(now@) == lines(after@),
            forall|j: int|
                0 <= j < k && j != index ==> #[trigger] texts(before@)[j] == texts(now@)[j],
        decreases now@.len() - k,
    {
        assert(texts(before@)[k as int] == before@[k as int]@);
        assert(texts(now@)[k as int] == now@[k as int]@);
        if k != index && !chars_are(
            before[k].as_slice(),
            string_of(now[k].as_slice()).as_str(),
        ) {
            return false;
        }
        k += 1;
    }
    true
}

/// The tag on a line of a tagged read: between the first colon and the bar behind it.
pub open spec fn tag_on(line: Seq<char>) -> Option<Seq<char>> {
    let colon = find_char(line, ':', 0);
    let bar = find_char(line, '│', colon + 1);
    if colon >= line.len() || bar >= line.len() {
        None
    } else {
        Some(line.subrange(colon + 1, bar))
    }
}

/// The tag that a tagged read shows for the line numbered `index`.
pub fn tag_at(read: &str, index: usize) -> (r: Option<String>)
    ensures
        crate::document::opt_text(r) == (if index < lines(read@).len() {
            tag_on(lines(read@)[index as int])
        } else {
            None
        }),
{
    let all = lines_of(chars_of(read).as_slice());
    assert(texts(all@).len() == all@.len());
    if index >= all.len() {
        return None;
    }
    assert(texts(all@)[index as int] == all@[index as int]@);
    let line = all[index].as_slice();
    let colon = find_char_from(line, ':', 0);
    if colon >= line.len() {
        return None;
    }
    let bar = find_char_from(line, '│', colon + 1);
    if bar >= line.len() {
        return None;
    }
    Some(string_of(slice_of(line, colon + 1, bar).as_slice()))
}

/// The highest quantile is the greatest sample.
pub proof fn law_top_quantile_is_the_last(last: nat)
    ensures
        rank(1000, last) == last,
        rank(0, last) == 0,
{
}

/// A higher quantile is never ranked lower.
pub proof fn law_quantiles_ascend(low: nat, high: nat, last: nat)
    requires
        low <= high,
    ensures
        rank(low, last) <= rank(high, last) <= last,
{
    assert(low * last <= high * last) by (nonlinear_arith)
        requires
            low <= high,
    ;
}

/// Every scenario that takes longer than its enforced budget is reported, in order, and no other is.
pub proof fn law_breaches_are_reported(all: Seq<Scenario>, n: nat, k: int)
    requires
        n <= all.len() <= usize::MAX,
        0 <= k < n,
    ensures
        breach_list(all, n).contains(k as usize) == (all[k].gated && all[k].headline > all[k].budget),
        forall|i: int| 0 <= i < breach_list(all, n).len() ==> (#[trigger] breach_list(all, n)[i]) < n,
    decreases n,
{
    lemma_breaches_below(all, n);
    lemma_breaches_below(all, (n - 1) as nat);
    let before = breach_list(all, (n - 1) as nat);
    let list = breach_list(all, n);
    if k < n - 1 {
        law_breaches_are_reported(all, (n - 1) as nat, k);
        if before.contains(k as usize) {
            let i = choose|i: int| 0 <= i < before.len() && before[i] == k as usize;
            assert(list[i] == k as usize);
        }
        if list.contains(k as usize) {
            let i = choose|i: int| 0 <= i < list.len() && list[i] == k as usize;
            assert(i < before.len() && before[i] == k as usize);
        }
    } else if breaches(all[k]) {
        assert(list[list.len() - 1] == k as usize);
    }
}

proof fn lemma_breaches_below(all: Seq<Scenario>, n: nat)
    requires
        n <= all.len() <= usize::MAX,
    ensures
        forall|i: int| 0 <= i < breach_list(all, n).len() ==> (#[trigger] breach_list(all, n)[i]) < n,
    decreases n,
{
    if n > 0 {
        lemma_breaches_below(all, (n - 1) as nat);
        let before = breach_list(all, (n - 1) as nat);
        let list = breach_list(all, n);
        assert forall|i: int| 0 <= i < list.len() implies (#[trigger] list[i]) < n by {
            if i < before.len() {
                assert(list[i] == before[i]);
                assert(before[i] < n - 1);
            } else {
                assert(list[i] == (n - 1) as usize);
            }
        }
    }
}

} // verus!
