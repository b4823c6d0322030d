//! The rule that picks, among the encodings of one image, the one to keep.
//!
//! Candidates are judged in the order in which they were declared. The size
//! to beat starts as the size of the input file; a candidate that is usable
//! and whose size, as a percentage of the size to beat, lies strictly under
//! its tolerance becomes the new winner and the new size to beat.

use vstd::prelude::*;

verus! {

/// What the rule reads of one encoding: how many bytes it produced and
/// whether producing them failed.
#[derive(Clone, Copy, Debug, PartialEq, Eq, Structural)]
pub struct Candidate {
    pub size: usize,
    pub failed: bool,
}

/// The winner so far and the size that the next candidate has to beat.
#[derive(Clone, Copy, Debug, PartialEq, Eq, Structural)]
pub struct Best {
    pub winner: Option<usize>,
    pub size: usize,
}

/// How one candidate fared against the size to beat when its turn came.
#[derive(Clone, Copy, Debug, PartialEq, Eq, Structural)]
pub struct Verdict {
    /// The size to beat when the candidate was judged.
    pub best_before: usize,
    /// The candidate's size in percent of `best_before`, rounded down;
    /// `None` where `best_before` is zero.
    pub percent: Option<u128>,
    /// Whether the candidate beat `best_before` under its tolerance.
    pub better: bool,
}

/// What is kept for one image.
#[derive(Clone, Copy, Debug, PartialEq, Eq, Structural)]
pub struct Decision {
    /// Index of the winning candidate, if one is kept.
    pub winner: Option<usize>,
    /// Size of the input file in bytes.
    pub original_size: usize,
    /// Whether the input itself is kept because no candidate won.
    pub copied_input: bool,
}

/// A candidate can win only if it did not fail, is not empty and is smaller
/// than the input file.
pub open spec fn usable(c: Candidate, original: usize) -> bool {
    !c.failed && c.size != 0 && c.size < original
}

/// `size` in percent of `best`, rounded down.
pub open spec fn percent_of(size: usize, best: usize) -> nat
    recommends
        best > 0,
{
    (100 * size / (best as int)) as nat
}

/// The decision rule for one candidate against the size to beat.
pub open spec fn is_better(c: Candidate, best: usize, original: usize, tolerance: i32) -> bool {
    usable(c, original) && best > 0 && percent_of(c.size, best) < tolerance
}

/// The winner and the size to beat after the first `n` candidates.
pub open spec fn best_after(
    cs: Seq<Candidate>,
    tols: Seq<i32>,
    original: usize,
    n: int,
) -> Best
    decreases n,
{
    if n <= 0 {
        Best { winner: None, size: original }
    } else {
        let prev = best_after(cs, tols, original, n - 1);
        if is_better(cs[n - 1], prev.size, original, tols[n - 1]) {
            Best { winner: Some((n - 1) as usize), size: cs[n - 1].size }
        } else {
            prev
        }
    }
}

/// The size that candidate `i` is measured against: the running best where
/// winners are chained, the input's size where every candidate is kept.
pub open spec fn size_to_beat(
    cs: Seq<Candidate>,
    tols: Seq<i32>,
    original: usize,
    chained: bool,
    i: int,
) -> usize {
    if chained {
        best_after(cs, tols, original, i).size
    } else {
        original
    }
}

/// The verdict on candidate `i`.
pub open spec fn verdict_at(
    cs: Seq<Candidate>,
    tols: Seq<i32>,
    original: usize,
    chained: bool,
    i: int,
) -> Verdict {
    let best = size_to_beat(cs, tols, original, chained, i);
    Verdict {
        best_before: best,
        percent: if best > 0 {
            Some(percent_of(cs[i].size, best) as u128)
        } else {
            None
        },
        better: is_better(cs[i], best, original, tols[i]),
    }
}

/// What is kept: nothing is singled out where every candidate is saved;
/// otherwise the last winner, or the input where no candidate ever won.
pub open spec fn decide(
    cs: Seq<Candidate>,
    tols: Seq<i32>,
    original: usize,
    save_all: bool,
) -> Decision {
    let last = best_after(cs, tols, original, cs.len() as int);
    if save_all {
        Decision { winner: None, original_size: original, copied_input: false }
    } else {
        Decision { winner: last.winner, original_size: original, copied_input: last.winner is None }
    }
}

/// There is one tolerance for each candidate, and no more candidates than
/// an index can count.
pub open spec fn well_formed(cs: Seq<Candidate>, tols: Seq<i32>) -> bool {
    cs.len() == tols.len() && cs.len() <= usize::MAX
}

/// Judges one candidate against the size to beat.
pub fn better_than(c: Candidate, best: usize, original: usize, tolerance: i32) -> (r: bool)
    ensures
        r == is_better(c, best, original, tolerance),
{
    if c.failed || c.size == 0 || c.size >= original || best == 0 || tolerance <= 0 {
        return false;
    }
    let percent: u128 = 100u128 * (c.size as u128) / (best as u128);
    percent < tolerance as u128
}

/// `size` in percent of `best`, rounded down, where `best` is not zero.
pub fn percent(size: usize, best: usize) -> (r: Option<u128>)
    ensures
        best == 0 ==> r is None,
        best > 0 ==> r == Some(percent_of(size, best) as u128),
{
    if best == 0 {
        None
    } else {
        Some(100u128 * (size as u128) / (best as u128))
    }
}

/// Judges every candidate in declared order and returns one verdict each.
///
/// With `chained` set, a candidate that wins becomes the size to beat for
/// those after it; without it every candidate is measured against the input.
/// `None` is returned unless there is one tolerance for each candidate.
pub fn evaluate(
    candidates: &Vec<Candidate>,
    tolerances: &Vec<i32>,
    original: usize,
    chained: bool,
) -> (r: Option<Vec<Verdict>>)
    ensures
        r is Some <==> candidates.len() == tolerances.len(),
        r matches Some(vs) ==> {
            &&& vs.len() == candidates.len()
            &&& forall|i: int|
                0 <= i < vs.len() ==> #[trigger] vs[i] == verdict_at(
                    candidates@,
                    tolerances@,
                    original,
                    chained,
                    i,
                )
        },
{
    if candidates.len() != tolerances.len() {
        return None;
    }
    let mut verdicts: Vec<Verdict> = Vec::new();
    let mut best: usize = original;
    let mut i: usize = 0;
    while i < candidates.len()
        invariant
            i <= candidates.len(),
            candidates.len() == tolerances.len(),
            verdicts.len() == i,
            best == size_to_beat(candidates@, tolerances@, original, chained, i as int),
            forall|k: int|
                0 <= k < i ==> #[trigger] verdicts[k] == verdict_at(
                    candidates@,
                    tolerances@,
                    original,
                    chained,
                    k,
                ),
        decreases candidates.len() - i,
    {
        let c = candidates[i];
        let better = better_than(c, best, original, tolerances[i]);
        verdicts.push(Verdict { best_before: best, percent: percent(c.size, best), better });
        if chained && better {
            best = c.size;
        }
        i += 1;
    }
    Some(verdicts)
}

/// The winner and the size to beat once every candidate has been judged, or
/// `None` unless there is one tolerance for each candidate.
pub fn select(candidates: &Vec<Candidate>, tolerances: &Vec<i32>, original: usize) -> (r: Option<
    Best,
>)
    ensures
        r is Some <==> candidates.len() == tolerances.len(),
        r matches Some(b) ==> b == best_after(
            candidates@,
            tolerances@,
            original,
            candidates.len() as int,
        ),
{
    if candidates.len() != tolerances.len() {
        return None;
    }
    let mut best = Best { winner: None, size: original };
    let mut i: usize = 0;
    while i < candidates.len()
        invariant
            i <= candidates.len(),
            candidates.len() == tolerances.len(),
            best == best_after(candidates@, tolerances@, original, i as int),
        decreases candidates.len() - i,
    {
        if better_than(candidates[i], best.size, original, tolerances[i]) {
            best = Best { winner: Some(i), size: candidates[i].size };
        }
        i += 1;
    }
    Some(best)
}

/// A winner is a candidate that was judged better when its turn came, and
/// the size to beat is then its size; without a winner the size to beat is
/// still the input's.
pub proof fn lemma_winner_was_better(cs: Seq<Candidate>, tols: Seq<i32>, original: usize, n: int)
    requires
        well_formed(cs, tols),
        0 <= n <= cs.len(),
    ensures
        match best_after(cs, tols, original, n).winner {
            Some(w) => {
                &&& 0 <= w < n
                &&& is_better(cs[w as int], best_after(cs, tols, original, w as int).size, original, tols[w as int])
                &&& best_after(cs, tols, original, n).size == cs[w as int].size
            },
            None => best_after(cs, tols, original, n).size == original,
        },
    decreases n,
{
    if n > 0 {
        lemma_winner_was_better(cs, tols, original, n - 1);
    }
}

/// A candidate that failed or produced nothing is never the winner, and
/// neither is one that is not smaller than the input.
pub proof fn lemma_winner_is_usable(cs: Seq<Candidate>, tols: Seq<i32>, original: usize, n: int)
    requires
        well_formed(cs, tols),
        0 <= n <= cs.len(),
    ensures
        best_after(cs, tols, original, n).winner matches Some(w) ==> {
            &&& 0 <= w < n
            &&& !cs[w as int].failed
            &&& cs[w as int].size != 0
            &&& cs[w as int].size < original
        },
{
    lemma_winner_was_better(cs, tols, original, n);
}

/// Under a tolerance of at most 100 a candidate is better only if it is
/// strictly smaller than the size to beat.
pub proof fn lemma_better_is_smaller(c: Candidate, best: usize, original: usize, tolerance: i32)
    requires
        tolerance <= 100,
        is_better(c, best, original, tolerance),
    ensures
        c.size < best,
{
    let s = c.size as int;
    let b = best as int;
    assert(s < b) by (nonlinear_arith)
        requires
            b > 0,
            s >= 0,
            (100 * s) / b < 100,
    {
        if s >= b {
            assert(100 * s >= 100 * b);
            assert((100 * s) / b >= (100 * b) / b);
            assert((100 * b) / b == 100);
        }
    }
}

/// The size to beat never grows from step `i` to step `j`, provided that
/// no tolerance in between exceeds 100: each new winner is no larger than
/// every winner before it.
pub proof fn lemma_best_size_decreases(
    cs: Seq<Candidate>,
    tols: Seq<i32>,
    original: usize,
    i: int,
    j: int,
)
    requires
        well_formed(cs, tols),
        0 <= i <= j <= cs.len(),
        forall|k: int| i <= k < j ==> #[trigger] tols[k] <= 100,
    ensures
        best_after(cs, tols, original, j).size <= best_after(cs, tols, original, i).size,
    decreases j - i,
{
    if i < j {
        lemma_best_size_decreases(cs, tols, original, i, j - 1);
        let prev = best_after(cs, tols, original, j - 1);
        if is_better(cs[j - 1], prev.size, original, tols[j - 1]) {
            assert(tols[j - 1] <= 100);
            lemma_better_is_smaller(cs[j - 1], prev.size, original, tols[j - 1]);
        }
    }
}

/// The size to beat never exceeds the input's size.
pub proof fn lemma_best_size_at_most_original(
    cs: Seq<Candidate>,
    tols: Seq<i32>,
    original: usize,
    n: int,
)
    requires
        well_formed(cs, tols),
        0 <= n <= cs.len(),
    ensures
        best_after(cs, tols, original, n).size <= original,
{
    lemma_winner_was_better(cs, tols, original, n);
}

/// Once candidate `w` has had its turn without being the winner, it is not
/// the winner after any later step either.
pub proof fn lemma_winner_is_latest_better(
    cs: Seq<Candidate>,
    tols: Seq<i32>,
    original: usize,
    w: int,
    n: int,
)
    requires
        well_formed(cs, tols),
        0 <= w < n <= cs.len(),
        !is_better(cs[w], best_after(cs, tols, original, w).size, original, tols[w]),
    ensures
        best_after(cs, tols, original, n).winner != Some(w as usize),
{
    lemma_winner_was_better(cs, tols, original, n);
}

/// Of two candidates with the same size and the same outcome, the one
/// declared later never replaces anything: where its tolerance is at most
/// 100 and at most the earlier one's, and no tolerance between them exceeds
/// 100, the step of the later one leaves the winner as it was, and the
/// later one is not the winner at the end.
pub proof fn lemma_earlier_wins_tie(
    cs: Seq<Candidate>,
    tols: Seq<i32>,
    original: usize,
    i: int,
    j: int,
)
    requires
        well_formed(cs, tols),
        0 <= i < j < cs.len(),
        cs[i] == cs[j],
        tols[j] <= tols[i],
        forall|k: int| i < k <= j ==> #[trigger] tols[k] <= 100,
    ensures
        best_after(cs, tols, original, j + 1) == best_after(cs, tols, original, j),
        forall|n: int|
            0 <= n <= cs.len() ==> (#[trigger] best_after(cs, tols, original, n)).winner != Some(
                j as usize,
            ),
{
    let before_i = best_after(cs, tols, original, i);
    let after_i = best_after(cs, tols, original, i + 1);
    let before_j = best_after(cs, tols, original, j);
    lemma_best_size_decreases(cs, tols, original, i + 1, j);
    let s = cs[j].size as int;
    let bj = before_j.size as int;
    if is_better(cs[j], before_j.size, original, tols[j]) {
        lemma_better_is_smaller(cs[j], before_j.size, original, tols[j]);
        if is_better(cs[i], before_i.size, original, tols[i]) {
            // The earlier one won, so the size to beat is at most its size.
            assert(after_i.size == cs[i].size);
            assert(false);
        } else {
            // The earlier one lost against a size no smaller than this one.
            let bi = before_i.size as int;
            assert(after_i.size == before_i.size);
            assert(bi > 0);
            assert((100 * s) / bi <= (100 * s) / bj) by (nonlinear_arith)
                requires
                    0 < bj <= bi,
                    s >= 0,
            {
                vstd::arithmetic::div_mod::lemma_div_is_ordered_by_denominator(100 * s, bj, bi);
            }
            assert(false);
        }
    }
    assert forall|n: int| 0 <= n <= cs.len() implies (#[trigger] best_after(
        cs,
        tols,
        original,
        n,
    )).winner != Some(j as usize) by {
        if n > j {
            lemma_winner_is_latest_better(cs, tols, original, j, n);
        } else {
            lemma_winner_was_better(cs, tols, original, n);
        }
    }
}

/// Where no candidate is smaller than the input, no candidate wins: the
/// input itself is kept.
pub proof fn lemma_fallback_keeps_input(cs: Seq<Candidate>, tols: Seq<i32>, original: usize)
    requires
        well_formed(cs, tols),
        forall|i: int| 0 <= i < cs.len() ==> (#[trigger] cs[i]).size >= original,
    ensures
        decide(cs, tols, original, false) == (Decision {
            winner: None,
            original_size: original,
            copied_input: true,
        }),
{
    lemma_winner_was_better(cs, tols, original, cs.len() as int);
}

/// The input is kept exactly where the size to beat is still the input's
/// size after the last candidate.
pub proof fn lemma_copy_iff_best_is_original(cs: Seq<Candidate>, tols: Seq<i32>, original: usize)
    requires
        well_formed(cs, tols),
    ensures
        decide(cs, tols, original, false).copied_input <==> best_after(
            cs,
            tols,
            original,
            cs.len() as int,
        ).size == original,
{
    lemma_winner_was_better(cs, tols, original, cs.len() as int);
}

} // verus!
