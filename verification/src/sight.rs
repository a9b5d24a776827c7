use crate::types::{gap_squared, P};
use vstd::prelude::*;

verus! {

/// How near to a line of sight, in ticks, a musician has to stand to block it.
pub const BLOCK_DISTANCE: i64 = 5_000_000;

/// `BLOCK_DISTANCE` squared.
pub const BLOCK_DISTANCE_SQUARED: u128 = 25_000_000_000_000;

/// Angle units to half a turn. A direction is a whole number of units,
/// counted anticlockwise from the positive x axis.
pub const HALF_TURN: i64 = 0x2000_0000_0000_0000;

/// Angle units to a quarter turn.
pub const QUARTER_TURN: i64 = 0x1000_0000_0000_0000;

/// Angle units to a full turn.
pub const FULL_TURN: i64 = 0x4000_0000_0000_0000;

/// Whether `a` lies in the half-open range of directions, from just above
/// minus half a turn up to half a turn.
pub open spec fn is_angle(a: int) -> bool {
    -HALF_TURN < a <= HALF_TURN
}

/// The direction that differs from `a` by whole turns.
pub open spec fn normalized(a: int) -> int {
    HALF_TURN - (HALF_TURN - a) % (FULL_TURN as int)
}

/// `normalized(a)` is a direction, is `a` up to whole turns, and is the only such value.
pub proof fn lemma_normalized(a: int)
    ensures
        is_angle(normalized(a)),
        (normalized(a) - a) % (FULL_TURN as int) == 0,
        is_angle(a) ==> normalized(a) == a,
        normalized(a + FULL_TURN) == normalized(a),
        normalized(a - FULL_TURN) == normalized(a),
{
}

/// Wraps an angle into the range of directions.
pub fn normalize_angle(angle: i64) -> (r: i64)
    ensures
        r == normalized(angle as int),
{
    let mut a: i64 = angle;
    while a <= -HALF_TURN
        invariant
            normalized(a as int) == normalized(angle as int),
            a <= HALF_TURN || a == angle,
        decreases HALF_TURN - a,
    {
        proof {
            lemma_normalized(a as int);
        }
        a = a + FULL_TURN;
    }
    while a > HALF_TURN
        invariant
            normalized(a as int) == normalized(angle as int),
            a > -HALF_TURN,
        decreases a + HALF_TURN,
    {
        proof {
            lemma_normalized(a as int);
        }
        a = a - FULL_TURN;
    }
    proof {
        lemma_normalized(a as int);
    }
    a
}

/// The arc of directions that one musician hides from another: all
/// directions within `half_width` of `bearing`.
#[derive(Clone, Copy, Debug, PartialEq, Eq, Structural)]
pub struct Shadow {
    pub bearing: i64,
    pub half_width: i64,
}

impl Shadow {
    /// The bearing is a direction and the arc spans at most half a turn.
    pub open spec fn wf(self) -> bool {
        &&& is_angle(self.bearing as int)
        &&& 0 <= self.half_width <= QUARTER_TURN
    }

    /// Where the arc begins, as a direction.
    pub open spec fn start(self) -> int {
        normalized(self.bearing - self.half_width)
    }

    /// Where the arc ends, as a direction.
    pub open spec fn end(self) -> int {
        normalized(self.bearing + self.half_width)
    }

    /// Whether the arc runs across the seam at half a turn.
    pub open spec fn wraps(self) -> bool {
        self.start() > self.end()
    }

    /// Whether the angle `a`, not reduced to a direction, lies on the arc.
    /// The arc is open where it begins and closed where it ends.
    pub open spec fn on_arc(self, a: int) -> bool {
        self.bearing - self.half_width < a <= self.bearing + self.half_width
    }

    /// Whether the direction `a` lies on the arc, the seam taken into account.
    pub open spec fn covers(self, a: int) -> bool {
        self.on_arc(a) || self.on_arc(a + FULL_TURN) || self.on_arc(a - FULL_TURN)
    }

    /// 1 if the arc covers `a`, else 0.
    pub open spec fn shade(self, a: int) -> int {
        if self.covers(a) {
            1
        } else {
            0
        }
    }

    /// What a sweep over ascending directions has counted of this arc when
    /// it reaches `a`: one if the arc wraps, one more if its start lies
    /// below `a`, one less if its end does.
    pub open spec fn swept(self, a: int) -> int {
        (if self.wraps() { 1int } else { 0 }) + (if self.start() < a { 1int } else { 0 })
            - (if self.end() < a { 1int } else { 0 })
    }

    /// A sweep counts an arc exactly over the directions that the arc covers.
    pub proof fn lemma_swept_is_shade(self, a: int)
        requires
            self.wf(),
            is_angle(a),
        ensures
            self.swept(a) == self.shade(a),
    {
        lemma_normalized(self.bearing - self.half_width);
        lemma_normalized(self.bearing + self.half_width);
    }

    /// The half width of the shadow that a musician at `obstacle` casts on
    /// one at `center`, where `half_width` is the angle under which the
    /// blocking distance is seen from afar. A musician within the blocking
    /// distance, for whom there is no such angle, hides a half plane. A
    /// half width outside the range from nothing to a quarter turn is taken
    /// for the nearer end of that range.
    pub open spec fn width_of(center: P, obstacle: P, half_width: i64) -> int {
        if center.sq_dist(obstacle) <= BLOCK_DISTANCE * BLOCK_DISTANCE || half_width > QUARTER_TURN {
            QUARTER_TURN as int
        } else if half_width < 0 {
            0
        } else {
            half_width as int
        }
    }

    /// The shadow that a musician at `obstacle` casts on one at `center`,
    /// from the angle `bearing` at which it stands and the half width under
    /// which the blocking distance is seen. It is well formed whatever is given.
    pub fn cast(center: P, obstacle: P, bearing: i64, half_width: i64) -> (s: Shadow)
        ensures
            s.wf(),
            s.bearing == normalized(bearing as int),
            s.half_width == Shadow::width_of(center, obstacle, half_width),
    {
        let dxx: u128 = gap_squared(center.x, obstacle.x);
        let dyy: u128 = gap_squared(center.y, obstacle.y);
        let near: bool = dxx <= BLOCK_DISTANCE_SQUARED && dyy <= BLOCK_DISTANCE_SQUARED && dxx + dyy
            <= BLOCK_DISTANCE_SQUARED;
        let width: i64 = if near || half_width > QUARTER_TURN {
            QUARTER_TURN
        } else if half_width < 0 {
            0
        } else {
            half_width
        };
        proof {
            lemma_normalized(bearing as int);
        }
        Shadow { bearing: normalize_angle(bearing), half_width: width }
    }

    /// The two ends of the arc, as directions.
    pub fn ends(&self) -> (r: (i64, i64))
        requires
            self.wf(),
        ensures
            r.0 == self.start(),
            r.1 == self.end(),
    {
        (
            normalize_angle(self.bearing - self.half_width),
            normalize_angle(self.bearing + self.half_width),
        )
    }

    /// Whether the shadow is well formed.
    pub fn check(&self) -> (ok: bool)
        ensures
            ok == self.wf(),
    {
        -HALF_TURN < self.bearing && self.bearing <= HALF_TURN && 0 <= self.half_width
            && self.half_width <= QUARTER_TURN
    }
}

/// What one musician has around it: the direction in which each attendee
/// stands, and the shadow that each of the other musicians casts.
#[derive(Debug)]
pub struct Sight {
    pub attendees: Vec<i64>,
    pub shadows: Vec<Shadow>,
}

impl Clone for Sight {
    fn clone(&self) -> (r: Self)
        ensures
            r.attendees@ == self.attendees@,
            r.shadows@ == self.shadows@,
    {
        let attendees: Vec<i64> = self.attendees.clone();
        let shadows: Vec<Shadow> = self.shadows.clone();
        assert(attendees@ =~= self.attendees@);
        assert(shadows@ =~= self.shadows@);
        Sight { attendees, shadows }
    }
}

impl Sight {
    /// Every attendee stands in a direction, every shadow is well formed, and
    /// the directions and arc ends can be numbered together.
    pub open spec fn wf(&self) -> bool {
        &&& forall|a: int|
            0 <= a < self.attendees@.len() ==>
                is_angle(#[trigger] self.attendees@[a] as int)
        &&& forall|j: int| 0 <= j < self.shadows@.len() ==> (#[trigger] self.shadows@[j]).wf()
        &&& self.attendees@.len() + 2 * self.shadows@.len() <= usize::MAX
    }

    /// Whether some shadow covers the direction of attendee `a`.
    pub open spec fn blocked(&self, a: int) -> bool {
        exists|j: int|
            0 <= j < self.shadows@.len() && (#[trigger] self.shadows@[j]).covers(self.attendees@[a] as int)
    }

    /// Whether attendee `a` exists and has a free line to the musician.
    pub open spec fn sees(&self, a: int) -> bool {
        0 <= a < self.attendees@.len() && !self.blocked(a)
    }

    /// The musician that casts the `k`-th shadow on musician `m`: the
    /// others in their order, `m` itself passed over.
    pub open spec fn caster(m: int, k: int) -> int {
        if k < m {
            k
        } else {
            k + 1
        }
    }

    /// Whether this is what musician `m` of a placement has around it,
    /// given the angle at which each attendee stands, and for each musician
    /// the angle at which it stands and the half width under which the
    /// blocking distance is seen there: each attendee in its direction, and
    /// the shadow of each other musician as `Shadow::cast` makes it.
    pub open spec fn is_around(
        &self,
        placements: Seq<P>,
        m: int,
        attendees: Seq<i64>,
        bearings: Seq<i64>,
        half_widths: Seq<i64>,
    ) -> bool {
        &&& self.attendees@.len() == attendees.len()
        &&& forall|a: int|
            0 <= a < attendees.len() ==> #[trigger] self.attendees@[a] == normalized(attendees[a] as int)
        &&& self.shadows@.len() + 1 == placements.len()
        &&& forall|k: int|
            0 <= k < self.shadows@.len() ==> {
                let j = Sight::caster(m, k);
                &&& (#[trigger] self.shadows@[k]).bearing == normalized(bearings[j] as int)
                &&& self.shadows@[k].half_width == Shadow::width_of(placements[m], placements[j], half_widths[j])
            }
    }

    /// What musician `m` of a placement has around it, from the angle at
    /// which each attendee stands, and for each musician the angle at which
    /// it stands and the half width under which the blocking distance is
    /// seen there. What is given for `m` itself is not read. Nothing where
    /// there is no musician `m`, where the angles are not one for each
    /// musician, or where attendees and arc ends are too many to number.
    pub fn around(
        placements: &[P],
        m: usize,
        attendees: &[i64],
        bearings: &[i64],
        half_widths: &[i64],
    ) -> (r: Option<Sight>)
        ensures
            r is Some <==> ({
                &&& m < placements@.len()
                &&& bearings@.len() == placements@.len()
                &&& half_widths@.len() == placements@.len()
                &&& attendees@.len() + 2 * (placements@.len() - 1) <= usize::MAX
            }),
            r matches Some(sight) ==> sight.wf() && sight.is_around(
                placements@,
                m as int,
                attendees@,
                bearings@,
                half_widths@,
            ),
    {
        let n: usize = placements.len();
        let na: usize = attendees.len();
        if m >= n || bearings.len() != n || half_widths.len() != n {
            return None;
        }
        if n - 1 > usize::MAX / 2 || na > usize::MAX - 2 * (n - 1) {
            return None;
        }
        let mut directions: Vec<i64> = Vec::new();
        let mut a: usize = 0;
        while a < na
            invariant
                na == attendees@.len(),
                a <= na,
                directions@.len() == a,
                forall|i: int|
                    0 <= i < a ==>
                        #[trigger] directions@[i] == normalized(attendees@[i] as int),
            decreases na - a,
        {
            directions.push(normalize_angle(attendees[a]));
            a += 1;
        }
        let center: P = placements[m];
        let mut shadows: Vec<Shadow> = Vec::new();
        let mut j: usize = 0;
        while j < n
            invariant
                n == placements@.len(),
                n == bearings@.len(),
                n == half_widths@.len(),
                m < n,
                j <= n,
                center == placements@[m as int],
                shadows@.len() == if j <= m { j as int } else { j - 1 },
                forall|k: int| 0 <= k < shadows@.len() ==> (#[trigger] shadows@[k]).wf(),
                forall|k: int|
                    0 <= k < shadows@.len() ==> {
                        let c = Sight::caster(m as int, k);
                        &&& (#[trigger] shadows@[k]).bearing == normalized(bearings@[c] as int)
                        &&& shadows@[k].half_width == Shadow::width_of(center, placements@[c], half_widths@[c])
                    },
            decreases n - j,
        {
            if j != m {
                shadows.push(Shadow::cast(center, placements[j], bearings[j], half_widths[j]));
            }
            j += 1;
        }
        proof {
            assert forall|i: int|
                0 <= i < directions@.len() implies
                    is_angle(#[trigger] directions@[i] as int) by {
                lemma_normalized(attendees@[i] as int);
            }
        }
        Some(Sight { attendees: directions, shadows })
    }

    /// A musician on whom no shadow falls is seen by every attendee.
    pub proof fn law_alone_is_seen_by_all(&self)
        requires
            self.shadows@.len() == 0,
        ensures
            forall|a: int| 0 <= a < self.attendees@.len() ==> self.sees(a),
    {
    }

    /// An attendee sees the musician exactly where its direction lies on
    /// the arc of no shadow, the seam taken into account.
    pub proof fn law_sees_is_pairwise(&self, a: int)
        requires
            0 <= a < self.attendees@.len(),
        ensures
            self.sees(a) <==> forall|j: int|
                0 <= j < self.shadows@.len() ==>
                    !(#[trigger] self.shadows@[j]).covers(self.attendees@[a] as int),
    {
    }

    /// Whether the sight is well formed.
    pub fn check(&self) -> (ok: bool)
        ensures
            ok == self.wf(),
    {
        let na: usize = self.attendees.len();
        let ns: usize = self.shadows.len();
        if ns > usize::MAX / 2 || na > usize::MAX - 2 * ns {
            return false;
        }
        let mut a: usize = 0;
        while a < na
            invariant
                na == self.attendees@.len(),
                a <= na,
                forall|k: int| 0 <= k < a ==> is_angle(#[trigger] self.attendees@[k] as int),
            decreases na - a,
        {
            let t: i64 = self.attendees[a];
            if t <= -HALF_TURN || t > HALF_TURN {
                return false;
            }
            a += 1;
        }
        let mut j: usize = 0;
        while j < ns
            invariant
                ns == self.shadows@.len(),
                j <= ns,
                forall|k: int| 0 <= k < j ==> (#[trigger] self.shadows@[k]).wf(),
            decreases ns - j,
        {
            if !self.shadows[j].check() {
                return false;
            }
            j += 1;
        }
        true
    }
}

} // verus!
