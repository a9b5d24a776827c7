use crate::pairs::lists_unblocked;
use crate::problem::{Problem, MAX_COUNT, MAX_TASTE};
use crate::sight::Sight;
use crate::types::{gap_squared, P};
use vstd::arithmetic::div_mod::{lemma_fundamental_div_mod, lemma_fundamental_div_mod_converse};
use vstd::prelude::*;

verus! {

/// What a taste of one tick is worth at a distance of one tick. A taste
/// of one is worth a million at a distance of one, and there are `UNIT`
/// ticks to either; so a taste in ticks over a squared distance in square
/// ticks is to be taken a million times `UNIT` times.
pub const VOLUME: i128 = 1_000_000_000_000;

/// The most that one musician can be worth to one attendee, either side of zero.
pub const MAX_HEARD: i128 = 1_000_000_000_000_000_000_000_000;

/// The most that a placement can score, either side of zero.
pub const MAX_SCORE: i128 = 1_000_000_000_000_000_000_000_000_000_000_000_000;

/// What a musician is worth to an attendee with a free line to it: `VOLUME`
/// times the taste, over the squared distance, rounded up.
pub open spec fn contribution(taste: int, d2: int) -> int {
    -((-(VOLUME * taste)) / d2)
}

/// `contribution` is the least whole number that, times the squared distance,
/// reaches `VOLUME` times the taste; and it is no further from zero than that.
pub proof fn lemma_contribution(taste: int, d2: int)
    requires
        d2 > 0,
    ensures
        (contribution(taste, d2) - 1) * d2 < VOLUME * taste <= contribution(taste, d2) * d2,
        taste >= 0 ==> 0 <= contribution(taste, d2) <= VOLUME * taste,
        taste <= 0 ==> VOLUME * taste <= contribution(taste, d2) <= 0,
{
    let n = -(VOLUME * taste);
    let q = n / d2;
    lemma_fundamental_div_mod(n, d2);
    assert(n == d2 * q + n % d2);
    assert(0 <= n % d2 < d2);
    assert((-q - 1) * d2 == -(d2 * q) - d2) by (nonlinear_arith);
    assert((-q) * d2 == -(d2 * q)) by (nonlinear_arith);
    if taste >= 0 {
        assert(VOLUME * taste >= 0) by (nonlinear_arith)
            requires
                taste >= 0,
        ;
        assert(q <= 0 && -q <= -n) by (nonlinear_arith)
            requires
                n <= 0,
                d2 > 0,
                n == d2 * q + n % d2,
                0 <= n % d2 < d2,
        ;
    }
    if taste <= 0 {
        assert(VOLUME * taste <= 0) by (nonlinear_arith)
            requires
                taste <= 0,
        ;
        assert(q >= 0 && q <= n) by (nonlinear_arith)
            requires
                n >= 0,
                d2 > 0,
                n == d2 * q + n % d2,
                0 <= n % d2 < d2,
        ;
    }
}

/// What the musician at `musician` is worth to an attendee at `attendee`
/// with the given taste for its instrument and a free line to it.
pub fn contribution_of(taste: i64, attendee: P, musician: P) -> (r: i128)
    requires
        attendee != musician,
    ensures
        r == contribution(taste as int, attendee.sq_dist(musician)),
{
    let dxx: u128 = gap_squared(attendee.x, musician.x);
    let dyy: u128 = gap_squared(attendee.y, musician.y);
    let loud: u128 = if taste >= 0 {
        (VOLUME as u128) * (taste as u128)
    } else {
        (VOLUME as u128) * ((-(taste as i128)) as u128)
    };
    let ghost d2 = attendee.sq_dist(musician);
    let ghost n = -(VOLUME * taste);
    proof {
        crate::types::lemma_sq_dist(attendee, musician);
        assert(d2 == dxx + dyy);
        assert(d2 > 0);
        assert(loud == if taste >= 0 { VOLUME * taste } else { -(VOLUME * taste) });
    }
    if dxx > loud || dyy > loud {
        // Further away than the taste is loud: less than one either side of zero.
        proof {
            if taste > 0 {
                lemma_fundamental_div_mod_converse(n, d2, -1, d2 - loud);
            } else {
                lemma_fundamental_div_mod_converse(n, d2, 0, loud as int);
            }
        }
        if taste > 0 {
            1
        } else {
            0
        }
    } else {
        let d: u128 = dxx + dyy;
        let q: u128 = loud / d;
        let rest: u128 = loud % d;
        proof {
            lemma_fundamental_div_mod(loud as int, d as int);
            assert(loud == d * q + rest);
            assert(q <= loud) by (nonlinear_arith)
                requires
                    loud == d * q + rest,
                    d >= 1,
                    rest >= 0,
                    q >= 0,
            ;
            if taste < 0 {
                lemma_fundamental_div_mod_converse(n, d2, q as int, rest as int);
            } else if rest == 0 {
                assert(n == (-q) * d2 + 0) by (nonlinear_arith)
                    requires
                        n == -loud,
                        loud == d2 * q,
                ;
                lemma_fundamental_div_mod_converse(n, d2, -q, 0);
            } else {
                assert(n == (-q - 1) * d2 + (d2 - rest)) by (nonlinear_arith)
                    requires
                        n == -loud,
                        loud == d2 * q + rest,
                ;
                lemma_fundamental_div_mod_converse(n, d2, -q - 1, d2 - rest);
            }
        }
        if taste < 0 {
            -(q as i128)
        } else if rest == 0 {
            q as i128
        } else {
            q as i128 + 1
        }
    }
}

impl Problem {
    /// What musician `m`, standing as `placements` says, is worth to
    /// attendee `a` where the attendee has a free line to it.
    pub open spec fn heard(&self, placements: Seq<P>, a: int, m: int) -> int {
        contribution(
            self.attendees@[a].tastes@[self.musicians@[m] as int] as int,
            self.attendees@[a].at().sq_dist(placements[m]),
        )
    }

    /// Whether no musician stands where an attendee does.
    pub open spec fn clear(&self, placements: Seq<P>) -> bool {
        forall|a: int, m: int|
            0 <= a < self.attendees@.len() && 0 <= m < placements.len() ==> (#[trigger] self.attendees@[a]).at()
                != #[trigger] placements[m]
    }

    /// Whether there is one place and one sight for each musician, each
    /// sight is well formed and holds every attendee and every other
    /// musician, and no musician stands where an attendee does.
    pub open spec fn fits(&self, placements: Seq<P>, sights: Seq<Sight>) -> bool {
        &&& placements.len() == self.musicians@.len()
        &&& sights.len() == self.musicians@.len()
        &&& forall|m: int|
            0 <= m < sights.len() ==> {
                &&& (#[trigger] sights[m]).wf()
                &&& sights[m].attendees@.len() == self.attendees@.len()
                &&& sights[m].shadows@.len() + 1 == self.musicians@.len()
            }
        &&& self.clear(placements)
    }

    /// Whether a placement can be scored with the sights given for it: the
    /// problem is well formed, and placement and sights fit it.
    pub open spec fn scorable(&self, placements: Seq<P>, sights: Seq<Sight>) -> bool {
        self.wf() && self.fits(placements, sights)
    }

    /// What musician `m` is worth to the first `n` attendees together.
    pub open spec fn musician_total(&self, placements: Seq<P>, sights: Seq<Sight>, m: int, n: int) -> int
        decreases n,
    {
        if n <= 0 {
            0
        } else {
            self.musician_total(placements, sights, m, n - 1) + if sights[m].sees(n - 1) {
                self.heard(placements, n - 1, m)
            } else {
                0
            }
        }
    }

    /// What musician `m` is worth to the audience.
    pub open spec fn musician_score(&self, placements: Seq<P>, sights: Seq<Sight>, m: int) -> int {
        self.musician_total(placements, sights, m, self.attendees@.len() as int)
    }

    /// What the first `n` musicians are worth to the audience together.
    pub open spec fn total(&self, placements: Seq<P>, sights: Seq<Sight>, n: int) -> int
        decreases n,
    {
        if n <= 0 {
            0
        } else {
            self.total(placements, sights, n - 1) + self.musician_score(placements, sights, n - 1)
        }
    }

    /// The score of a placement: what all musicians are worth to the audience.
    pub open spec fn total_score(&self, placements: Seq<P>, sights: Seq<Sight>) -> int {
        self.total(placements, sights, self.musicians@.len() as int)
    }

    /// No musician is worth more to an attendee than the limit.
    pub proof fn lemma_heard_bound(&self, placements: Seq<P>, sights: Seq<Sight>, a: int, m: int)
        requires
            self.scorable(placements, sights),
            0 <= a < self.attendees@.len(),
            0 <= m < self.musicians@.len(),
        ensures
            -MAX_HEARD <= self.heard(placements, a, m) <= MAX_HEARD,
    {
        let taste = self.attendees@[a].tastes@[self.musicians@[m] as int] as int;
        let d2 = self.attendees@[a].at().sq_dist(placements[m]);
        crate::types::lemma_sq_dist(self.attendees@[a].at(), placements[m]);
        lemma_contribution(taste, d2);
        assert(-MAX_TASTE <= taste <= MAX_TASTE);
        assert(-MAX_HEARD <= VOLUME * taste <= MAX_HEARD) by (nonlinear_arith)
            requires
                -MAX_TASTE <= taste <= MAX_TASTE,
        ;
    }

    /// What a musician is worth to `n` attendees is within `n` times the limit.
    pub proof fn lemma_musician_total_bound(&self, placements: Seq<P>, sights: Seq<Sight>, m: int, n: int)
        requires
            self.scorable(placements, sights),
            0 <= m < self.musicians@.len(),
            0 <= n <= self.attendees@.len(),
        ensures
            -n * MAX_HEARD <= self.musician_total(placements, sights, m, n) <= n * MAX_HEARD,
        decreases n,
    {
        if n > 0 {
            self.lemma_musician_total_bound(placements, sights, m, n - 1);
            self.lemma_heard_bound(placements, sights, n - 1, m);
            assert(n * MAX_HEARD == (n - 1) * MAX_HEARD + MAX_HEARD) by (nonlinear_arith);
        }
    }

    /// What `n` musicians are worth is within `n` times the limit on one musician.
    pub proof fn lemma_total_bound(&self, placements: Seq<P>, sights: Seq<Sight>, n: int)
        requires
            self.scorable(placements, sights),
            0 <= n <= self.musicians@.len(),
        ensures
            -n * (MAX_COUNT * MAX_HEARD) <= self.total(placements, sights, n) <= n * (MAX_COUNT * MAX_HEARD),
        decreases n,
    {
        if n > 0 {
            self.lemma_total_bound(placements, sights, n - 1);
            self.lemma_musician_total_bound(placements, sights, n - 1, self.attendees@.len() as int);
            let k = self.attendees@.len() as int;
            assert(k * MAX_HEARD <= MAX_COUNT * MAX_HEARD) by (nonlinear_arith)
                requires
                    0 <= k <= MAX_COUNT,
            ;
            assert(n * (MAX_COUNT * MAX_HEARD) == (n - 1) * (MAX_COUNT * MAX_HEARD) + MAX_COUNT * MAX_HEARD)
                by (nonlinear_arith);
        }
    }
}

impl Sight {
    /// For each attendee, whether it has a free line to the musician.
    pub fn visible(&self) -> (flags: Vec<bool>)
        requires
            self.wf(),
        ensures
            flags@.len() == self.attendees@.len(),
            forall|a: int| 0 <= a < flags@.len() ==> #[trigger] flags@[a] == self.sees(a),
    {
        let na: usize = self.attendees.len();
        let seen: Vec<usize> = self.sweep();
        let mut flags: Vec<bool> = Vec::new();
        let mut a: usize = 0;
        while a < na
            invariant
                a <= na,
                flags@.len() == a,
                forall|i: int| 0 <= i < a ==> !(#[trigger] flags@[i]),
            decreases na - a,
        {
            flags.push(false);
            a += 1;
        }
        let n: usize = seen.len();
        let mut k: usize = 0;
        while k < n
            invariant
                na == self.attendees@.len(),
                n == seen@.len(),
                k <= n,
                flags@.len() == na,
                forall|i: int| 0 <= i < seen@.len() ==> self.sees(#[trigger] seen@[i] as int),
                forall|i: int|
                    0 <= i < na ==>
                        (#[trigger] flags@[i] <==> exists|q: int| 0 <= q < k && #[trigger] seen@[q] == i),
            decreases n - k,
        {
            let x: usize = seen[k];
            assert(self.sees(seen@[k as int] as int));
            let ghost before = flags@;
            flags.set(x, true);
            proof {
                assert forall|i: int|
                    0 <= i < na implies
                        (#[trigger] flags@[i] <==> exists|q: int| 0 <= q < k + 1 && #[trigger] seen@[q] == i) by {
                    if i == x {
                        assert(seen@[k as int] == i);
                    } else if before[i] {
                        let q = choose|q: int| 0 <= q < k && #[trigger] seen@[q] == i;
                        assert(0 <= q < k + 1 && seen@[q] == i);
                    }
                }
            }
            k += 1;
        }
        proof {
            assert forall|a: int|
                0 <= a < flags@.len() implies
                    #[trigger] flags@[a] == self.sees(a) by {
                if self.sees(a) {
                    assert(seen@.contains(a as usize));
                    let q = choose|q: int| 0 <= q < seen@.len() && seen@[q] == a as usize;
                    assert(0 <= q < n && seen@[q] == a);
                }
            }
        }
        flags
    }
}

/// Whether placement and sights fit the problem.
pub fn sights_fit(problem: &Problem, placements: &[P], sights: &[Sight]) -> (ok: bool)
    ensures
        ok == problem.fits(placements@, sights@),
{
    let nm: usize = problem.musicians.len();
    let na: usize = problem.attendees.len();
    if placements.len() != nm || sights.len() != nm {
        return false;
    }
    let mut m: usize = 0;
    while m < nm
        invariant
            nm == problem.musicians@.len(),
            na == problem.attendees@.len(),
            nm == placements@.len(),
            nm == sights@.len(),
            m <= nm,
            forall|i: int|
                0 <= i < m ==> {
                    &&& (#[trigger] sights@[i]).wf()
                    &&& sights@[i].attendees@.len() == na
                    &&& sights@[i].shadows@.len() + 1 == nm
                },
            forall|a: int, i: int|
                0 <= a < na && 0 <= i < m ==> (#[trigger] problem.attendees@[a]).at() != #[trigger] placements@[i],
        decreases nm - m,
    {
        let sight: &Sight = &sights[m];
        if !sight.check() || sight.attendees.len() != na || sight.shadows.len() + 1 != nm {
            return false;
        }
        let p: P = placements[m];
        let mut a: usize = 0;
        while a < na
            invariant
                na == problem.attendees@.len(),
                m < placements@.len(),
                p == placements@[m as int],
                a <= na,
                forall|i: int| 0 <= i < a ==> (#[trigger] problem.attendees@[i]).at() != p,
            decreases na - a,
        {
            let at: P = problem.attendees[a].position();
            if at.x == p.x && at.y == p.y {
                assert(problem.attendees@[a as int].at() == placements@[m as int]);
                return false;
            }
            a += 1;
        }
        m += 1;
    }
    true
}

/// Whether a placement can be scored with the sights given for it.
pub fn can_score(problem: &Problem, placements: &[P], sights: &[Sight]) -> (ok: bool)
    ensures
        ok == problem.scorable(placements@, sights@),
{
    problem.check() && sights_fit(problem, placements, sights)
}

/// What musician `m` is worth to the audience: the sum, over the attendees
/// with a free line to it, of what it is worth to each.
pub fn single_score(problem: &Problem, placements: &[P], sights: &[Sight], m: usize) -> (r: i128)
    requires
        problem.scorable(placements@, sights@),
        m < problem.musicians@.len(),
    ensures
        r == problem.musician_score(placements@, sights@, m as int),
{
    let na: usize = problem.attendees.len();
    let flags: Vec<bool> = sights[m].visible();
    let instrument: usize = problem.musicians[m];
    let place: P = placements[m];
    let mut sum: i128 = 0;
    let mut a: usize = 0;
    while a < na
        invariant
            problem.scorable(placements@, sights@),
            m < problem.musicians@.len(),
            na == problem.attendees@.len(),
            a <= na,
            flags@.len() == na,
            forall|i: int|
                0 <= i < flags@.len() ==>
                    #[trigger] flags@[i] == sights@[m as int].sees(i),
            instrument == problem.musicians@[m as int],
            place == placements@[m as int],
            sum == problem.musician_total(placements@, sights@, m as int, a as int),
        decreases na - a,
    {
        proof {
            problem.lemma_musician_total_bound(placements@, sights@, m as int, a as int);
            problem.lemma_musician_total_bound(placements@, sights@, m as int, a + 1);
            assert(a * MAX_HEARD <= MAX_COUNT * MAX_HEARD) by (nonlinear_arith)
                requires
                    0 <= a <= MAX_COUNT,
            ;
            assert((a + 1) * MAX_HEARD <= MAX_COUNT * MAX_HEARD) by (nonlinear_arith)
                requires
                    0 <= a + 1 <= MAX_COUNT,
            ;
        }
        if flags[a] {
            let attendee = &problem.attendees[a];
            let heard: i128 = contribution_of(attendee.tastes[instrument], attendee.position(), place);
            sum = sum + heard;
        }
        a += 1;
    }
    sum
}

/// The score of a placement: the sum, over all musicians, of what each is
/// worth to the attendees with a free line to it.
pub fn score(problem: &Problem, placements: &[P], sights: &[Sight]) -> (r: i128)
    requires
        problem.scorable(placements@, sights@),
    ensures
        r == problem.total_score(placements@, sights@),
{
    let nm: usize = problem.musicians.len();
    let mut sum: i128 = 0;
    let mut m: usize = 0;
    while m < nm
        invariant
            problem.scorable(placements@, sights@),
            nm == problem.musicians@.len(),
            m <= nm,
            sum == problem.total(placements@, sights@, m as int),
        decreases nm - m,
    {
        proof {
            problem.lemma_total_bound(placements@, sights@, m as int);
            problem.lemma_total_bound(placements@, sights@, m + 1);
            assert(m * (MAX_COUNT * MAX_HEARD) <= MAX_COUNT * (MAX_COUNT * MAX_HEARD)) by (nonlinear_arith)
                requires
                    0 <= m <= MAX_COUNT,
            ;
            assert((m + 1) * (MAX_COUNT * MAX_HEARD) <= MAX_COUNT * (MAX_COUNT * MAX_HEARD))
                by (nonlinear_arith)
                requires
                    0 <= m + 1 <= MAX_COUNT,
            ;
        }
        let one: i128 = single_score(problem, placements, sights, m);
        sum = sum + one;
        m += 1;
    }
    sum
}

/// Every pair of an attendee and a musician with a free line between them,
/// musician by musician, and for each musician in the order in which a
/// sweep over ascending directions meets the attendees.
pub fn unblocked_pairs(sights: &[Sight]) -> (pairs: Vec<(usize, usize)>)
    requires
        forall|m: int| 0 <= m < sights@.len() ==> (#[trigger] sights@[m]).wf(),
    ensures
        lists_unblocked(sights@, pairs@),
{
    let nm: usize = sights.len();
    let mut pairs: Vec<(usize, usize)> = Vec::new();
    let mut m: usize = 0;
    while m < nm
        invariant
            nm == sights@.len(),
            m <= nm,
            forall|m: int| 0 <= m < sights@.len() ==> (#[trigger] sights@[m]).wf(),
            forall|i: int|
                0 <= i < pairs@.len() ==> (#[trigger] pairs@[i]).1 < m && sights@[pairs@[i].1 as int].sees(
                    pairs@[i].0 as int,
                ),
            forall|a: int, q: int|
                0 <= q < m && #[trigger] sights@[q].sees(a) ==> pairs@.contains((a as usize, q as usize)),
            forall|i: int, j: int|
                0 <= i < j < pairs@.len() ==> (#[trigger] pairs@[i]).1 < (#[trigger] pairs@[j]).1 || (pairs@[i].1
                    == pairs@[j].1 && sights@[pairs@[i].1 as int].event(pairs@[i].0 as int).before(
                    sights@[pairs@[i].1 as int].event(pairs@[j].0 as int),
                )),
        decreases nm - m,
    {
        let seen: Vec<usize> = sights[m].sweep();
        let n: usize = seen.len();
        let ghost base = pairs@;
        let mut k: usize = 0;
        while k < n
            invariant
                nm == sights@.len(),
                m < nm,
                n == seen@.len(),
                k <= n,
                forall|i: int|
                    0 <= i < seen@.len() ==>
                        sights@[m as int].sees(#[trigger] seen@[i] as int),
                forall|i: int, j: int|
                    0 <= i < j < seen@.len() ==> sights@[m as int].event(#[trigger] seen@[i] as int).before(
                        sights@[m as int].event(#[trigger] seen@[j] as int),
                    ),
                pairs@.len() == base.len() + k,
                forall|i: int| 0 <= i < base.len() ==> #[trigger] pairs@[i] == base[i],
                forall|i: int| 0 <= i < k ==> #[trigger] pairs@[base.len() + i] == (seen@[i], m),
                forall|i: int| 0 <= i < base.len() ==> (#[trigger] base[i]).1 < m,
            decreases n - k,
        {
            pairs.push((seen[k], m));
            k += 1;
        }
        proof {
            assert forall|i: int|
                0 <= i < pairs@.len() implies
                    (#[trigger] pairs@[i]).1 < m + 1 && sights@[pairs@[i].1 as int].sees(
                pairs@[i].0 as int,
            ) by {
                if i < base.len() {
                    assert(pairs@[i] == base[i]);
                } else {
                    assert(pairs@[base.len() + (i - base.len())] == (seen@[i - base.len()], m));
                }
            }
            assert forall|a: int, q: int|
                0 <= q < m + 1 && #[trigger] sights@[q].sees(a) implies pairs@.contains((a as usize, q as usize)) by {
                if q < m {
                    assert(base.contains((a as usize, q as usize)));
                    let i = choose|i: int| 0 <= i < base.len() && base[i] == (a as usize, q as usize);
                    assert(pairs@[i] == (a as usize, q as usize));
                } else {
                    assert(seen@.contains(a as usize));
                    let i = choose|i: int| 0 <= i < seen@.len() && seen@[i] == a as usize;
                    assert(pairs@[base.len() + i] == (a as usize, q as usize));
                }
            }
            assert forall|i: int, j: int|
                0 <= i < j < pairs@.len() implies
                    (#[trigger] pairs@[i]).1 < (#[trigger] pairs@[j]).1 || (pairs@[i].1
                == pairs@[j].1 && sights@[pairs@[i].1 as int].event(pairs@[i].0 as int).before(
                sights@[pairs@[i].1 as int].event(pairs@[j].0 as int),
            )) by {
                if j < base.len() {
                    assert(pairs@[i] == base[i] && pairs@[j] == base[j]);
                } else if i < base.len() {
                    assert(pairs@[i] == base[i]);
                    assert(pairs@[base.len() + (j - base.len())] == (seen@[j - base.len()], m));
                } else {
                    assert(pairs@[base.len() + (i - base.len())] == (seen@[i - base.len()], m));
                    assert(pairs@[base.len() + (j - base.len())] == (seen@[j - base.len()], m));
                }
            }
        }
        m += 1;
    }
    pairs
}

} // verus!
