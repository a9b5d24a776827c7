use crate::solver::moves::Move;
use crate::types::UNIT;
use rand::rngs::StdRng;
use rand::Rng;
use vstd::prelude::*;

verus! {

/// The standard generator of the crate `rand`, `rand::rngs::StdRng`. It is
/// handed on to the functions that draw from it; nothing is claimed of what
/// it holds.
#[verifier::external_type_specification]
#[verifier::external_body]
pub struct ExStdRng(StdRng);

/// One move in this many is a swap.
pub const SWAP_ONE_IN: u32 = 5;

/// `Rng::gen_range` of the crate `rand`, on the range from zero up to but
/// not including `n`. The claim is that what it returns lies in that range.
/// It panics on an empty range, which `requires` leaves out.
#[verifier::external_body]
fn rand_below(rng: &mut StdRng, n: u64) -> (r: u64)
    requires
        n > 0,
    ensures
        r < n,
{
    rng.gen_range(0..n)
}

/// `Rng::gen_ratio` of the crate `rand`: true with the chance of
/// `numerator` in `denominator`. The claim is only what its documentation
/// guarantees: true where the two are equal, false where the numerator is
/// zero. It panics where the denominator is zero or less than the
/// numerator, which `requires` leaves out.
#[verifier::external_body]
fn rand_ratio(rng: &mut StdRng, numerator: u32, denominator: u32) -> (r: bool)
    requires
        0 < denominator,
        numerator <= denominator,
    ensures
        numerator == denominator ==> r,
        numerator == 0 ==> !r,
{
    rng.gen_ratio(numerator, denominator)
}

/// The move that a draw stands for: a swap of the musicians at two places
/// of the pool, or a shift of the musician at the first of them.
pub fn choose_move(
    pool: &Vec<usize>,
    swap: bool,
    first: usize,
    second: usize,
    to_x: bool,
    d: i64,
) -> (mv: Move)
    requires
        first < pool@.len(),
        second < pool@.len(),
    ensures
        mv == (if swap {
            (Move::Swap { i: pool@[first as int], j: pool@[second as int] })
        } else {
            (Move::Shift { i: pool@[first as int], to_x, d })
        }),
{
    if swap {
        Move::Swap { i: pool[first], j: pool[second] }
    } else {
        Move::Shift { i: pool[first], to_x, d }
    }
}

/// Whether a move is one that can be drawn from the pool: a swap of two of
/// its musicians, or a shift of one of them by less than one unit of length.
pub open spec fn drawn_from(mv: Move, pool: Seq<usize>) -> bool {
    match mv {
        Move::Swap { i, j } => pool.contains(i) && pool.contains(j),
        Move::Shift { i, to_x, d } => pool.contains(i) && -UNIT <= d < UNIT,
    }
}

/// Draws a move on the musicians of the pool: most often a shift of one of
/// them along one axis, by less than one unit of length either way; one
/// time in `SWAP_ONE_IN` a swap of two of them. Nothing where the pool is empty.
pub fn draw_move(rng: &mut StdRng, pool: &Vec<usize>) -> (r: Option<Move>)
    ensures
        r is None <==> pool@.len() == 0,
        r matches Some(mv) ==> drawn_from(mv, pool@),
{
    let n: usize = pool.len();
    if n == 0 {
        return None;
    }
    let swap: bool = rand_ratio(rng, 1, SWAP_ONE_IN);
    let first: usize = rand_below(rng, n as u64) as usize;
    if swap {
        let second: usize = rand_below(rng, n as u64) as usize;
        Some(choose_move(pool, true, first, second, false, 0))
    } else {
        let d: i64 = rand_below(rng, 2 * (UNIT as u64)) as i64 - UNIT;
        let to_x: bool = rand_ratio(rng, 1, 2);
        Some(choose_move(pool, false, first, first, to_x, d))
    }
}

} // verus!
