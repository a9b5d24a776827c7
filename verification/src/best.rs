use crate::problem::Problem;
use crate::score::{can_score, score};
use crate::sight::Sight;
use crate::solution::Solution;
use crate::solver::is_valid;
use vstd::prelude::*;

verus! {

impl Problem {
    /// Whether a solution takes the place of the best known one: it is
    /// allowed, it can be scored, its score is not below zero, and it is
    /// above the best known score where there is one.
    pub open spec fn improved_by(&self, solution: &Solution, sights: Seq<Sight>, best: Option<i128>) -> bool {
        &&& self.valid(solution.placements@)
        &&& self.scorable(solution.placements@, sights)
        &&& self.total_score(solution.placements@, sights) >= 0
        &&& match best {
            Some(known) => known < self.total_score(solution.placements@, sights),
            None => true,
        }
    }
}

/// The score of a solution where it takes the place of the best known one
/// for its problem, and nothing where it does not.
pub fn improves(
    problem: &Problem,
    solution: &Solution,
    sights: &[Sight],
    best: Option<i128>,
) -> (r: Option<i128>)
    ensures
        r is Some <==> problem.improved_by(solution, sights@, best),
        r matches Some(total) ==> total == problem.total_score(solution.placements@, sights@),
{
    if !is_valid(problem, solution.placements.as_slice()) {
        return None;
    }
    if !can_score(problem, solution.placements.as_slice(), sights) {
        return None;
    }
    let total: i128 = score(problem, solution.placements.as_slice(), sights);
    if total < 0 {
        return None;
    }
    match best {
        Some(known) => if known < total {
            Some(total)
        } else {
            None
        },
        None => Some(total),
    }
}

} // verus!
