use crate::types::P;
use vstd::prelude::*;

verus! {

/// A change to a placement that can be taken back.
#[derive(Clone, Copy, Debug, PartialEq, Eq, Structural)]
pub enum Move {
    /// Musician `i` moves by `d` ticks against the x axis, or the y axis.
    Shift { i: usize, to_x: bool, d: i64 },
    /// Musicians `i` and `j` change places.
    Swap { i: usize, j: usize },
}

/// `p` moved by `d` ticks along one axis.
pub open spec fn shifted(p: P, to_x: bool, d: int) -> P {
    if to_x {
        P { x: (p.x + d) as i64, y: p.y }
    } else {
        P { x: p.x, y: (p.y + d) as i64 }
    }
}

/// Whether `p` moved by `d` ticks along one axis is still a point.
pub open spec fn can_shift(p: P, to_x: bool, d: int) -> bool {
    if to_x {
        i64::MIN <= p.x + d <= i64::MAX
    } else {
        i64::MIN <= p.y + d <= i64::MAX
    }
}

impl Move {
    /// Whether the move names musicians of the placement.
    pub open spec fn within(self, n: int) -> bool {
        match self {
            Move::Shift { i, .. } => i < n,
            Move::Swap { i, j } => i < n && j < n,
        }
    }

    /// Whether the move can be made on the placement.
    pub open spec fn fits(self, placements: Seq<P>) -> bool {
        match self {
            Move::Shift { i, to_x, d } => i < placements.len() && can_shift(placements[i as int], to_x, -d),
            Move::Swap { i, j } => i < placements.len() && j < placements.len(),
        }
    }

    /// Whether the move can be taken back on the placement.
    pub open spec fn fits_back(self, placements: Seq<P>) -> bool {
        match self {
            Move::Shift { i, to_x, d } => i < placements.len() && can_shift(placements[i as int], to_x, d as int),
            Move::Swap { i, j } => i < placements.len() && j < placements.len(),
        }
    }

    /// The placement after the move.
    pub open spec fn forward(self, placements: Seq<P>) -> Seq<P> {
        match self {
            Move::Shift { i, to_x, d } => placements.update(i as int, shifted(placements[i as int], to_x, -d)),
            Move::Swap { i, j } => placements.update(i as int, placements[j as int]).update(
                j as int,
                placements[i as int],
            ),
        }
    }

    /// The placement after the move is taken back.
    pub open spec fn backward(self, placements: Seq<P>) -> Seq<P> {
        match self {
            Move::Shift { i, to_x, d } => placements.update(i as int, shifted(placements[i as int], to_x, d as int)),
            Move::Swap { i, j } => placements.update(i as int, placements[j as int]).update(
                j as int,
                placements[i as int],
            ),
        }
    }

    /// A move that was made can be taken back, and taking it back restores the placement.
    pub proof fn lemma_undo(self, placements: Seq<P>)
        requires
            self.fits(placements),
        ensures
            self.fits_back(self.forward(placements)),
            self.backward(self.forward(placements)) == placements,
            self.forward(placements).len() == placements.len(),
    {
        assert(self.backward(self.forward(placements)) =~= placements);
    }

    /// A move that was taken back can be made again, and making it restores the placement.
    pub proof fn lemma_redo(self, placements: Seq<P>)
        requires
            self.fits_back(placements),
        ensures
            self.fits(self.backward(placements)),
            self.forward(self.backward(placements)) == placements,
            self.backward(placements).len() == placements.len(),
    {
        assert(self.forward(self.backward(placements)) =~= placements);
    }

    /// Whether the move can be made on the placement.
    pub fn check(&self, placements: &Vec<P>) -> (ok: bool)
        ensures
            ok == self.fits(placements@),
    {
        let n: usize = placements.len();
        match *self {
            Move::Shift { i, to_x, d } => {
                if i >= n {
                    return false;
                }
                let p: P = placements[i];
                let now: i128 = if to_x {
                    p.x as i128
                } else {
                    p.y as i128
                };
                let then: i128 = now - d as i128;
                i64::MIN as i128 <= then && then <= i64::MAX as i128
            },
            Move::Swap { i, j } => i < n && j < n,
        }
    }

    /// Makes the move on the placement.
    pub fn apply(&self, placements: &mut Vec<P>)
        requires
            self.fits(old(placements)@),
        ensures
            final(placements)@ == self.forward(old(placements)@),
    {
        match *self {
            Move::Shift { i, to_x, d } => {
                let p: P = placements[i];
                if to_x {
                    placements.set(i, P { x: p.x - d, y: p.y });
                } else {
                    placements.set(i, P { x: p.x, y: p.y - d });
                }
            },
            Move::Swap { i, j } => {
                let p: P = placements[i];
                let q: P = placements[j];
                placements.set(i, q);
                placements.set(j, p);
            },
        }
    }

    /// Takes the move back on the placement.
    pub fn invert(&self, placements: &mut Vec<P>)
        requires
            self.fits_back(old(placements)@),
        ensures
            final(placements)@ == self.backward(old(placements)@),
    {
        match *self {
            Move::Shift { i, to_x, d } => {
                let p: P = placements[i];
                if to_x {
                    placements.set(i, P { x: p.x + d, y: p.y });
                } else {
                    placements.set(i, P { x: p.x, y: p.y + d });
                }
            },
            Move::Swap { i, j } => {
                let p: P = placements[i];
                let q: P = placements[j];
                placements.set(i, q);
                placements.set(j, p);
            },
        }
    }
}

} // verus!
