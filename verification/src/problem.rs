use crate::types::P;
use vstd::prelude::*;

verus! {

/// The largest taste, in ticks either side of zero, that a well-formed problem holds.
pub const MAX_TASTE: i64 = 1_000_000_000_000;

/// The most musicians, and the most attendees, that a well-formed problem holds.
pub const MAX_COUNT: usize = 1_000_000;

/// Someone in the audience: a position in ticks, and a taste in ticks for each instrument.
#[derive(Debug)]
pub struct Attendee {
    pub x: i64,
    pub y: i64,
    pub tastes: Vec<i64>,
}

/// An obstacle in the room. Nothing of it is read here.
#[derive(Clone, Copy, Debug, PartialEq, Eq, Structural)]
pub struct Pillar {}

/// A stage, the instrument of each musician to be placed on it, and the audience.
#[derive(Debug)]
pub struct Problem {
    pub stage_width: i64,
    pub stage_height: i64,
    pub stage_bottom_left: (i64, i64),
    pub musicians: Vec<usize>,
    pub attendees: Vec<Attendee>,
    pub pillars: Vec<Pillar>,
    pub playing_together: Option<bool>,
}

impl Clone for Attendee {
    fn clone(&self) -> (r: Self)
        ensures
            r.same(self),
    {
        Attendee { x: self.x, y: self.y, tastes: self.tastes.clone() }
    }
}

impl Clone for Problem {
    fn clone(&self) -> (r: Self)
        ensures
            r.same(self),
    {
        let attendees: Vec<Attendee> = self.attendees.clone();
        assert(attendees@.len() == self.attendees@.len());
        assert forall|a: int|
            0 <= a < attendees@.len() implies
                (#[trigger] attendees@[a]).same(&self.attendees@[a]) by {
            assert(cloned::<Attendee>(self.attendees@[a], attendees@[a]));
        }
        let pillars: Vec<Pillar> = self.pillars.clone();
        assert(pillars@ =~= self.pillars@);
        Problem {
            stage_width: self.stage_width,
            stage_height: self.stage_height,
            stage_bottom_left: (self.stage_bottom_left.0, self.stage_bottom_left.1),
            musicians: self.musicians.clone(),
            attendees,
            pillars,
            playing_together: self.playing_together,
        }
    }
}

impl Attendee {
    /// Whether two attendees stand at one place with the same tastes.
    pub open spec fn same(&self, other: &Attendee) -> bool {
        self.x == other.x && self.y == other.y && self.tastes@ == other.tastes@
    }

    /// Where the attendee stands.
    pub open spec fn at(&self) -> P {
        P { x: self.x, y: self.y }
    }

    /// Whether every taste of the attendee is within the limit.
    pub open spec fn tame(&self) -> bool {
        forall|k: int|
            0 <= k < self.tastes@.len() ==>
                -MAX_TASTE <= #[trigger] self.tastes@[k] <= MAX_TASTE
    }

    /// `at`, computed.
    pub fn position(&self) -> (p: P)
        ensures
            p == self.at(),
    {
        P { x: self.x, y: self.y }
    }

    /// `tame`, computed.
    pub fn check(&self) -> (ok: bool)
        ensures
            ok == self.tame(),
    {
        let n: usize = self.tastes.len();
        let mut k: usize = 0;
        while k < n
            invariant
                n == self.tastes@.len(),
                k <= n,
                forall|i: int| 0 <= i < k ==> -MAX_TASTE <= #[trigger] self.tastes@[i] <= MAX_TASTE,
            decreases n - k,
        {
            let t: i64 = self.tastes[k];
            if t < -MAX_TASTE || t > MAX_TASTE {
                return false;
            }
            k += 1;
        }
        true
    }
}

impl Problem {
    /// Whether two problems hold the same stage, musicians and audience.
    pub open spec fn same(&self, other: &Problem) -> bool {
        &&& self.stage_width == other.stage_width
        &&& self.stage_height == other.stage_height
        &&& self.stage_bottom_left == other.stage_bottom_left
        &&& self.musicians@ == other.musicians@
        &&& self.attendees@.len() == other.attendees@.len()
        &&& forall|a: int|
            0 <= a < self.attendees@.len() ==>
                (#[trigger] self.attendees@[a]).same(&other.attendees@[a])
        &&& self.pillars@ == other.pillars@
        &&& self.playing_together == other.playing_together
    }

    /// An instrument that no musician's instrument exceeds: the largest of
    /// them, or zero where there is no musician.
    pub open spec fn top_instrument(&self, n: int) -> int
        decreases n,
    {
        if n <= 0 {
            0
        } else if self.musicians@[n - 1] > self.top_instrument(n - 1) {
            self.musicians@[n - 1] as int
        } else {
            self.top_instrument(n - 1)
        }
    }

    /// The counts are within the limit, every attendee has a taste for
    /// every musician's instrument, and every taste is within the limit.
    pub open spec fn wf(&self) -> bool {
        &&& self.musicians@.len() <= MAX_COUNT
        &&& self.attendees@.len() <= MAX_COUNT
        &&& forall|a: int, m: int|
            0 <= a < self.attendees@.len() && 0 <= m < self.musicians@.len() ==> (
            #[trigger] self.musicians@[m]) < (#[trigger] self.attendees@[a]).tastes@.len()
        &&& forall|a: int, k: int|
            0 <= a < self.attendees@.len() && 0 <= k < self.attendees@[a].tastes@.len() ==> -MAX_TASTE
                <= #[trigger] self.attendees@[a].tastes@[k] <= MAX_TASTE
    }

    /// The top instrument is some musician's, and no musician's is above it.
    proof fn lemma_top_instrument(&self, n: int)
        requires
            0 <= n <= self.musicians@.len(),
        ensures
            forall|m: int| 0 <= m < n ==> #[trigger] self.musicians@[m] <= self.top_instrument(n),
            n > 0 ==> exists|m: int|
                0 <= m < n && #[trigger] self.musicians@[m] == self.top_instrument(n),
        decreases n,
    {
        if n > 0 {
            self.lemma_top_instrument(n - 1);
            let last = self.musicians@[n - 1];
            if n == 1 || last > self.top_instrument(n - 1) {
                assert(self.top_instrument(0) == 0);
                assert(last == self.top_instrument(n));
            } else {
                let m = choose|m: int| 0 <= m < n - 1 && #[trigger] self.musicians@[m] == self.top_instrument(n - 1);
                assert(0 <= m < n && self.musicians@[m] == self.top_instrument(n));
            }
        }
    }

    /// Whether the problem is well formed.
    pub fn check(&self) -> (ok: bool)
        ensures
            ok == self.wf(),
    {
        let nm: usize = self.musicians.len();
        let na: usize = self.attendees.len();
        if nm > MAX_COUNT || na > MAX_COUNT {
            return false;
        }
        let mut top: usize = 0;
        let mut m: usize = 0;
        while m < nm
            invariant
                nm == self.musicians@.len(),
                m <= nm,
                top == self.top_instrument(m as int),
            decreases nm - m,
        {
            if self.musicians[m] > top {
                top = self.musicians[m];
            }
            m += 1;
        }
        proof {
            self.lemma_top_instrument(nm as int);
        }
        let mut a: usize = 0;
        while a < na
            invariant
                nm == self.musicians@.len(),
                na == self.attendees@.len(),
                a <= na,
                forall|m: int| 0 <= m < nm ==> #[trigger] self.musicians@[m] <= top,
                nm > 0 ==> exists|m: int| 0 <= m < nm && #[trigger] self.musicians@[m] == top,
                forall|i: int| 0 <= i < a ==> (#[trigger] self.attendees@[i]).tame(),
                forall|i: int|
                    0 <= i < a && nm > 0 ==>
                        top < (#[trigger] self.attendees@[i]).tastes@.len(),
            decreases na - a,
        {
            if !self.attendees[a].check() {
                proof {
                    let bad = self.attendees@[a as int];
                    let k = choose|k: int| 0 <= k < bad.tastes@.len() && !(-MAX_TASTE <= #[trigger] bad.tastes@[k] <= MAX_TASTE);
                    assert(!(-MAX_TASTE <= self.attendees@[a as int].tastes@[k] <= MAX_TASTE));
                }
                return false;
            }
            if nm > 0 && top >= self.attendees[a].tastes.len() {
                proof {
                    let m = choose|m: int| 0 <= m < nm && #[trigger] self.musicians@[m] == top;
                    assert(!(self.musicians@[m] < self.attendees@[a as int].tastes@.len()));
                }
                return false;
            }
            a += 1;
        }
        proof {
            assert forall|a: int, m: int|
                0 <= a < self.attendees@.len() && 0 <= m < self.musicians@.len() implies (
            #[trigger] self.musicians@[m]) < (#[trigger] self.attendees@[a]).tastes@.len() by {
                assert(top < self.attendees@[a].tastes@.len());
            }
            assert forall|a: int, k: int|
                0 <= a < self.attendees@.len() && 0 <= k < self.attendees@[a].tastes@.len() implies -MAX_TASTE
                <= #[trigger] self.attendees@[a].tastes@[k] <= MAX_TASTE by {
                assert(self.attendees@[a].tame());
            }
        }
        true
    }
}

} // verus!
