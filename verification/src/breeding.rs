//! The genetic loop's choices after a batch: which miner wins, whether it is a
//! new best, which helix the next batch grows from, and when to start over.

use vstd::prelude::*;

verus! {

/// What a finished batch decides.
#[derive(Debug, Clone, Copy, PartialEq, Eq, Structural)]
pub struct Selection {
    /// The biome whose miner won the batch.
    pub winner: usize,
    /// The winner beat the best so far.
    pub new_best: bool,
    /// The next batch is bred from the winner (else from the best so far).
    pub from_winner: bool,
    /// Start over from a fresh random helix.
    pub reset: bool,
}

/// Pick the next step of the genetic loop from the `points` of each biome of a
/// batch. The winner has the most points; it is the biome at `start` (the one
/// on screen) when that one has them, else the first biome that has them. It
/// is a new best when it beats `best_points`. The next batch is bred from the
/// winner when it is a new best or when `mutate_from_best` is off. The loop
/// starts over when more than `reset_rate` miners ran without a new best
/// (`reset_after_noop`, counting from zero after a new best), or else more than
/// `reset_rate` miners ran since the last start.
pub fn select_next(points: &Vec<u64>, start: usize, best_points: u64, mutate_from_best: bool, reset_after_noop: bool,
    since_last_best: u32, current_count: u32, reset_rate: u32) -> (r: Selection)
    requires
        start < points@.len(),
    ensures
        r.winner < points@.len(),
        forall|i: int| 0 <= i < points@.len() ==> #[trigger] points@[i] <= points@[r.winner as int],
        points@[start as int] == points@[r.winner as int] ==> r.winner == start,
        points@[start as int] < points@[r.winner as int] ==> forall|j: int| 0 <= j < r.winner ==> #[trigger] points@[j] < points@[r.winner as int],
        r.new_best == (points@[r.winner as int] > best_points),
        r.from_winner == (r.new_best || !mutate_from_best),
        r.reset == ((if reset_after_noop { if r.new_best { 0 } else { since_last_best } } else { current_count }) > reset_rate),
{
    let mut w = start;
    let mut i: usize = 0;
    while i < points.len()
        invariant
            start < points@.len(),
            w < points@.len(),
            i <= points@.len(),
            forall|j: int| 0 <= j < i ==> #[trigger] points@[j] <= points@[w as int],
            points@[start as int] <= points@[w as int],
            w == start || (points@[start as int] < points@[w as int] && w < i
                && forall|j: int| 0 <= j < w ==> #[trigger] points@[j] < points@[w as int]),
        decreases points@.len() - i,
    {
        if points[i] > points[w] {
            w = i;
        }
        i = i + 1;
    }
    let new_best = points[w] > best_points;
    let count = if reset_after_noop { if new_best { 0 } else { since_last_best } } else { current_count };
    Selection { winner: w, new_best, from_winner: new_best || !mutate_from_best, reset: count > reset_rate }
}

} // verus!
