//! The grid search over contamination fraction and angular shift.
//!
//! The residual of a grid cell is a floating-point number that this crate
//! does not compute. The caller evaluates it and hands over, for each cell,
//! an integer *score* that orders the cells as their residuals do. What is
//! decided here is which cell wins: for each fraction the first shift of
//! least score, and among the fractions the first whose best shift has the
//! least score.

use crate::fixed::{lemma_spaced_between, spaced, spaced_point, Fixed};
use crate::select::{argmin, first_least, lemma_first_least, scores_of};
use vstd::prelude::*;

verus! {

/// One cell of the search grid together with its score.
#[derive(Clone, Copy, Debug, PartialEq, Eq, Structural)]
pub struct FitCandidate {
    /// Contamination fraction of the cell.
    pub fraction: Fixed,
    /// Angular shift of the cell, in degrees.
    pub shift: Fixed,
    /// Score of the cell.
    pub residual: i64,
}

/// `count` evenly spaced values from `start` to `stop`, both included, each
/// rounded to the nearest billionth.
pub fn linspace(start: Fixed, stop: Fixed, count: usize) -> (grid: Vec<Fixed>)
    requires
        count >= 2,
    ensures
        grid@.len() == count,
        forall|i: int|
            0 <= i < grid@.len() ==> (#[trigger] grid@[i])@ == spaced(
                start@,
                stop@,
                count as int,
                i,
                1,
            ),
{
    let mut grid: Vec<Fixed> = Vec::new();
    let mut i: usize = 0;
    while i < count
        invariant
            count >= 2,
            i <= count,
            grid@.len() == i,
            forall|j: int|
                0 <= j < i ==> (#[trigger] grid@[j])@ == spaced(
                    start@,
                    stop@,
                    count as int,
                    j,
                    1,
                ),
        decreases count - i,
    {
        proof {
            lemma_spaced_between(
                start@,
                stop@,
                count as int,
                i as int,
                1,
                i64::MIN as int,
                i64::MAX as int,
            );
        }
        let point: i128 = spaced_point(start, stop, count, i, 1);
        grid.push(Fixed { nanos: point as i64 });
        i = i + 1;
    }
    grid
}

/// Whether `scores` holds one row for each fraction and in each row one
/// score for each shift, with at least one of each.
pub open spec fn is_grid(scores: Seq<Seq<i64>>, fractions: int, shifts: int) -> bool {
    &&& fractions >= 1
    &&& shifts >= 1
    &&& scores.len() == fractions
    &&& forall|r: int| 0 <= r < scores.len() ==> (#[trigger] scores[r]).len() == shifts
}

/// The first shift of least score in `row`.
pub open spec fn best_shift(row: Seq<i64>) -> int {
    first_least(scores_of(row))
}

/// For each row, its least score.
pub open spec fn row_minima(scores: Seq<Seq<i64>>) -> Seq<int> {
    Seq::new(scores.len(), |r: int| scores[r][best_shift(scores[r])] as int)
}

/// The first row whose least score is least among the rows.
pub open spec fn best_fraction(scores: Seq<Seq<i64>>) -> int {
    first_least(row_minima(scores))
}

/// Searches the grid. `scores[r][s]` is the score of fraction `r` combined
/// with shift `s`. The answer is `None` exactly where `scores` is not a grid
/// over the given fractions and shifts.
pub fn grid_search(fractions: &Vec<Fixed>, shifts: &Vec<Fixed>, scores: &Vec<Vec<i64>>) -> (best:
    Option<FitCandidate>)
    ensures
        best is Some <==> is_grid(
            scores.deep_view(),
            fractions@.len() as int,
            shifts@.len() as int,
        ),
        best is Some ==> {
            let table = scores.deep_view();
            let r = best_fraction(table);
            let s = best_shift(table[r]);
            &&& 0 <= r < fractions@.len()
            &&& 0 <= s < shifts@.len()
            &&& best->Some_0.fraction == fractions@[r]
            &&& best->Some_0.shift == shifts@[s]
            &&& best->Some_0.residual == table[r][s]
        },
{
    let ghost table = scores.deep_view();
    if fractions.len() == 0 || shifts.len() == 0 || scores.len() != fractions.len() {
        return None;
    }
    let mut minima: Vec<i64> = Vec::new();
    let mut places: Vec<usize> = Vec::new();
    let mut r: usize = 0;
    while r < scores.len()
        invariant
            table == scores.deep_view(),
            shifts@.len() >= 1,
            r <= scores@.len(),
            minima@.len() == r,
            places@.len() == r,
            forall|k: int| 0 <= k < r ==> (#[trigger] table[k]).len() == shifts@.len(),
            forall|k: int|
                0 <= k < r ==> #[trigger] places@[k] == best_shift(table[k]) && places@[k]
                    < shifts@.len(),
            forall|k: int|
                0 <= k < r ==> #[trigger] minima@[k] == table[k][best_shift(table[k])],
        decreases scores@.len() - r,
    {
        let row = &scores[r];
        assert(row@ == table[r as int]);
        if row.len() != shifts.len() {
            assert(!is_grid(table, fractions@.len() as int, shifts@.len() as int));
            return None;
        }
        match argmin(row.as_slice()) {
            Some(place) => {
                minima.push(row[place]);
                places.push(place);
            },
            None => {
                return None;
            },
        }
        r = r + 1;
    }
    assert(scores_of(minima@) =~= row_minima(table));
    match argmin(minima.as_slice()) {
        Some(row) => {
            let place = places[row];
            assert(place == best_shift(table[row as int]));
            Some(
                FitCandidate {
                    fraction: fractions[row],
                    shift: shifts[place],
                    residual: minima[row],
                },
            )
        },
        None => None,
    }
}

/// The cell that the search picks has the least score of the whole grid,
/// and among the cells of that score it is the first in the order in which
/// the grid is walked: fractions in ascending order, and for each fraction
/// the shifts in ascending order.
pub proof fn law_search_finds_first_global_minimum(scores: Seq<Seq<i64>>, r: int, s: int)
    requires
        scores.len() >= 1,
        forall|k: int| 0 <= k < scores.len() ==> (#[trigger] scores[k]).len() >= 1,
        0 <= r < scores.len(),
        0 <= s < scores[r].len(),
    ensures
        ({
            let br = best_fraction(scores);
            let bs = best_shift(scores[br]);
            &&& 0 <= br < scores.len()
            &&& 0 <= bs < scores[br].len()
            &&& scores[br][bs] <= scores[r][s]
            &&& scores[br][bs] == scores[r][s] ==> br < r || (br == r && bs <= s)
        }),
{
    let minima = row_minima(scores);
    lemma_first_least(minima);
    let br = best_fraction(scores);
    assert(scores[br].len() >= 1);
    lemma_first_least(scores_of(scores[br]));
    let bs = best_shift(scores[br]);
    assert(scores[r].len() >= 1);
    lemma_first_least(scores_of(scores[r]));
    let rs = best_shift(scores[r]);
    assert(scores_of(scores[r])[rs] <= scores_of(scores[r])[s]);
    assert(minima[br] <= minima[r]);
    assert(minima[br] == scores[br][bs]);
    assert(minima[r] == scores[r][rs]);
    if scores[br][bs] == scores[r][s] {
        if r < br {
            assert(minima[br] < minima[r]);
        } else if r == br && s < bs {
            assert(scores_of(scores[br])[bs] < scores_of(scores[br])[s]);
        }
    }
}

} // verus!
