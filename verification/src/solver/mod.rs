use crate::problem::Problem;
use crate::solver::moves::Move;
use crate::types::{gap_squared, P};
use vstd::prelude::*;

pub mod draw;
pub mod laws;
pub mod moves;
pub mod optimizer;
pub mod policy;
pub mod schedule;

verus! {

/// How far, in ticks, a musician keeps from the edge of the stage, and the
/// least distance between two musicians.
pub const RADIUS: i64 = 10_000_000;

/// `RADIUS` squared.
pub const RADIUS_SQUARED: u128 = 100_000_000_000_000;

/// Whether two musicians at `p` and `q` keep their distance.
pub open spec fn apart(p: P, q: P) -> bool {
    p.sq_dist(q) >= RADIUS * RADIUS
}

impl Problem {
    /// Whether `p` lies on the stage, `RADIUS` or more from each edge.
    pub open spec fn on_stage(&self, p: P) -> bool {
        &&& self.stage_bottom_left.0 + RADIUS <= p.x <= self.stage_bottom_left.0 + self.stage_width - RADIUS
        &&& self.stage_bottom_left.1 + RADIUS <= p.y <= self.stage_bottom_left.1 + self.stage_height - RADIUS
    }

    /// Whether a placement is allowed: one place for each musician, each
    /// on the stage, and each two apart.
    pub open spec fn valid(&self, placements: Seq<P>) -> bool {
        &&& placements.len() == self.musicians@.len()
        &&& forall|i: int| 0 <= i < placements.len() ==> self.on_stage(#[trigger] placements[i])
        &&& forall|i: int, j: int|
            0 <= j < i < placements.len() ==>
                apart(#[trigger] placements[i], #[trigger] placements[j])
    }

    /// `on_stage`, computed.
    pub fn holds(&self, p: P) -> (ok: bool)
        ensures
            ok == self.on_stage(p),
    {
        let left: i128 = self.stage_bottom_left.0 as i128 + RADIUS as i128;
        let right: i128 = self.stage_bottom_left.0 as i128 + self.stage_width as i128 - RADIUS as i128;
        let bottom: i128 = self.stage_bottom_left.1 as i128 + RADIUS as i128;
        let top: i128 = self.stage_bottom_left.1 as i128 + self.stage_height as i128 - RADIUS as i128;
        left <= p.x as i128 && p.x as i128 <= right && bottom <= p.y as i128 && p.y as i128 <= top
    }
}

/// In an allowed placement any two musicians are apart, whichever comes first.
pub proof fn law_valid_keeps_all_apart(problem: Problem, placements: Seq<P>, i: int, j: int)
    requires
        problem.valid(placements),
        0 <= i < placements.len(),
        0 <= j < placements.len(),
        i != j,
    ensures
        apart(placements[i], placements[j]),
{
    crate::types::lemma_sq_dist(placements[i], placements[j]);
    if i < j {
        assert(apart(placements[j], placements[i]));
    }
}

/// An allowed placement stays allowed when two musicians change places.
pub proof fn law_swap_keeps_valid(problem: Problem, placements: Seq<P>, i: usize, j: usize)
    requires
        problem.valid(placements),
        i < placements.len(),
        j < placements.len(),
    ensures
        problem.valid((Move::Swap { i, j }).forward(placements)),
{
    let swapped = (Move::Swap { i, j }).forward(placements);
    let back = |k: int| if k == i { j as int } else if k == j { i as int } else { k };
    assert forall|k: int|
        0 <= k < swapped.len() implies
            problem.on_stage(#[trigger] swapped[k]) by {
        assert(swapped[k] == placements[back(k)]);
        assert(problem.on_stage(placements[back(k)]));
    }
    assert forall|a: int, b: int|
        0 <= b < a < swapped.len() implies
            apart(#[trigger] swapped[a], #[trigger] swapped[b]) by {
        assert(swapped[a] == placements[back(a)]);
        assert(swapped[b] == placements[back(b)]);
        law_valid_keeps_all_apart(problem, placements, back(a), back(b));
    }
}

/// `apart`, computed.
pub fn far_apart(p: P, q: P) -> (ok: bool)
    ensures
        ok == apart(p, q),
{
    let dxx: u128 = gap_squared(p.x, q.x);
    let dyy: u128 = gap_squared(p.y, q.y);
    dxx >= RADIUS_SQUARED || dyy >= RADIUS_SQUARED || dxx + dyy >= RADIUS_SQUARED
}

/// Whether a placement is allowed. Stops at the first place that is not.
pub fn is_valid(problem: &Problem, placements: &[P]) -> (ok: bool)
    ensures
        ok == problem.valid(placements@),
{
    let n: usize = placements.len();
    if problem.musicians.len() != n {
        return false;
    }
    let mut k: usize = 0;
    while k < n
        invariant
            n == placements@.len(),
            k <= n,
            forall|i: int| 0 <= i < k ==> problem.on_stage(#[trigger] placements@[i]),
        decreases n - k,
    {
        if !problem.holds(placements[k]) {
            return false;
        }
        k += 1;
    }
    let mut i: usize = 0;
    while i < n
        invariant
            n == placements@.len(),
            n == problem.musicians@.len(),
            i <= n,
            forall|i: int| 0 <= i < n ==> problem.on_stage(#[trigger] placements@[i]),
            forall|a: int, b: int|
                0 <= b < a < i ==>
                    apart(#[trigger] placements@[a], #[trigger] placements@[b]),
        decreases n - i,
    {
        let mut j: usize = 0;
        while j < i
            invariant
                n == placements@.len(),
                n == problem.musicians@.len(),
                i < n,
                j <= i,
                forall|a: int, b: int|
                    0 <= b < a < i ==>
                        apart(#[trigger] placements@[a], #[trigger] placements@[b]),
                forall|b: int|
                    0 <= b < j ==>
                        apart(placements@[i as int], #[trigger] placements@[b]),
            decreases i - j,
        {
            if !far_apart(placements[i], placements[j]) {
                return false;
            }
            j += 1;
        }
        i += 1;
    }
    true
}

} // verus!
