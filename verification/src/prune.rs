use crate::problem::{Attendee, Pillar, Problem, MAX_COUNT};
use crate::score::{contribution_of, MAX_HEARD};
use crate::sight::Sight;
use crate::types::P;
use vstd::prelude::*;

verus! {

/// An attendee stays in a pruned problem where a thousand times what it
/// hears is more than what the attendee that hears most hears.
pub const PRUNE_FACTOR: i128 = 1000;

impl Problem {
    /// What attendee `a` hears of the first `n` musicians together.
    pub open spec fn attendee_total(&self, placements: Seq<P>, sights: Seq<Sight>, a: int, n: int) -> int
        decreases n,
    {
        if n <= 0 {
            0
        } else {
            self.attendee_total(placements, sights, a, n - 1) + if sights[n - 1].sees(a) {
                self.heard(placements, a, n - 1)
            } else {
                0
            }
        }
    }

    /// What attendee `a` hears of all musicians.
    pub open spec fn attendee_score(&self, placements: Seq<P>, sights: Seq<Sight>, a: int) -> int {
        self.attendee_total(placements, sights, a, self.musicians@.len() as int)
    }

    /// The most that any of the first `n` attendees hears, for `n` of one or more.
    pub open spec fn loudest(&self, placements: Seq<P>, sights: Seq<Sight>, n: int) -> int
        decreases n,
    {
        if n <= 1 {
            self.attendee_score(placements, sights, 0)
        } else if self.attendee_score(placements, sights, n - 1) > self.loudest(placements, sights, n - 1) {
            self.attendee_score(placements, sights, n - 1)
        } else {
            self.loudest(placements, sights, n - 1)
        }
    }

    /// Whether attendee `a` stays when the problem is pruned.
    pub open spec fn stays(&self, placements: Seq<P>, sights: Seq<Sight>, a: int) -> bool {
        PRUNE_FACTOR * self.attendee_score(placements, sights, a) > self.loudest(
            placements,
            sights,
            self.attendees@.len() as int,
        )
    }

    /// Those of the first `n` attendees that stay, in their order.
    pub open spec fn staying(&self, placements: Seq<P>, sights: Seq<Sight>, n: int) -> Seq<int>
        decreases n,
    {
        if n <= 0 {
            Seq::empty()
        } else if self.stays(placements, sights, n - 1) {
            self.staying(placements, sights, n - 1).push(n - 1)
        } else {
            self.staying(placements, sights, n - 1)
        }
    }

    /// What an attendee hears of `n` musicians is within `n` times the limit.
    pub proof fn lemma_attendee_total_bound(&self, placements: Seq<P>, sights: Seq<Sight>, a: int, n: int)
        requires
            self.scorable(placements, sights),
            0 <= a < self.attendees@.len(),
            0 <= n <= self.musicians@.len(),
        ensures
            -n * MAX_HEARD <= self.attendee_total(placements, sights, a, n) <= n * MAX_HEARD,
            -MAX_COUNT * MAX_HEARD <= self.attendee_total(placements, sights, a, n) <= MAX_COUNT * MAX_HEARD,
        decreases n,
    {
        if n > 0 {
            self.lemma_attendee_total_bound(placements, sights, a, n - 1);
            self.lemma_heard_bound(placements, sights, a, n - 1);
            assert(n * MAX_HEARD == (n - 1) * MAX_HEARD + MAX_HEARD) by (nonlinear_arith);
        }
        assert(n * MAX_HEARD <= MAX_COUNT * MAX_HEARD) by (nonlinear_arith)
            requires
                0 <= n <= MAX_COUNT,
        ;
    }

    /// What the first `n` attendees hear of the first `m` musicians together.
    pub open spec fn audience_total(&self, placements: Seq<P>, sights: Seq<Sight>, m: int, n: int) -> int
        decreases n,
    {
        if n <= 0 {
            0
        } else {
            self.audience_total(placements, sights, m, n - 1) + self.attendee_total(placements, sights, n - 1, m)
        }
    }

    /// One musician more adds what it is worth to those attendees.
    proof fn lemma_audience_step(&self, placements: Seq<P>, sights: Seq<Sight>, m: int, n: int)
        requires
            0 < m,
        ensures
            self.audience_total(placements, sights, m, n) == self.audience_total(placements, sights, m - 1, n)
                + self.musician_total(placements, sights, m - 1, n),
        decreases n,
    {
        if n > 0 {
            self.lemma_audience_step(placements, sights, m, n - 1);
        }
    }

    /// Of no musicians the attendees hear nothing.
    proof fn lemma_audience_of_nobody(&self, placements: Seq<P>, sights: Seq<Sight>, n: int)
        ensures
            self.audience_total(placements, sights, 0, n) == 0,
        decreases n,
    {
        if n > 0 {
            self.lemma_audience_of_nobody(placements, sights, n - 1);
        }
    }

    /// What the attendees hear of the first `m` musicians adds up to what
    /// those musicians are worth.
    pub proof fn law_audience_hears_what_musicians_are_worth(&self, placements: Seq<P>, sights: Seq<Sight>, m: int)
        requires
            0 <= m,
        ensures
            self.audience_total(placements, sights, m, self.attendees@.len() as int) == self.total(
                placements,
                sights,
                m,
            ),
        decreases m,
    {
        if m == 0 {
            self.lemma_audience_of_nobody(placements, sights, self.attendees@.len() as int);
        } else {
            self.law_audience_hears_what_musicians_are_worth(placements, sights, m - 1);
            self.lemma_audience_step(placements, sights, m, self.attendees@.len() as int);
        }
    }

    /// The loudest is what some attendee hears, and no attendee hears more.
    pub proof fn lemma_loudest(&self, placements: Seq<P>, sights: Seq<Sight>, n: int)
        requires
            1 <= n,
        ensures
            forall|a: int|
                0 <= a < n ==>
                    #[trigger] self.attendee_score(placements, sights, a) <= self.loudest(placements, sights, n),
            exists|a: int|
                0 <= a < n && #[trigger] self.attendee_score(placements, sights, a) == self.loudest(placements, sights, n),
        decreases n,
    {
        if n > 1 {
            self.lemma_loudest(placements, sights, n - 1);
            let a = choose|a: int| 0 <= a < n - 1 && #[trigger] self.attendee_score(placements, sights, a) == self.loudest(placements, sights, n - 1);
            if self.attendee_score(placements, sights, n - 1) > self.loudest(placements, sights, n - 1) {
                assert(self.attendee_score(placements, sights, n - 1) == self.loudest(placements, sights, n));
            } else {
                assert(self.attendee_score(placements, sights, a) == self.loudest(placements, sights, n));
            }
        } else {
            assert(self.attendee_score(placements, sights, 0) == self.loudest(placements, sights, n));
        }
    }
}

/// What each attendee hears of all musicians.
pub fn attendee_scores(problem: &Problem, placements: &[P], sights: &[Sight]) -> (scores: Vec<i128>)
    requires
        problem.scorable(placements@, sights@),
    ensures
        scores@.len() == problem.attendees@.len(),
        forall|a: int|
            0 <= a < scores@.len() ==>
                #[trigger] scores@[a] == problem.attendee_score(placements@, sights@, a),
{
    let na: usize = problem.attendees.len();
    let nm: usize = problem.musicians.len();
    let mut scores: Vec<i128> = Vec::new();
    let mut a: usize = 0;
    while a < na
        invariant
            a <= na,
            scores@.len() == a,
            forall|i: int| 0 <= i < a ==> #[trigger] scores@[i] == 0,
        decreases na - a,
    {
        scores.push(0);
        a += 1;
    }
    let mut m: usize = 0;
    while m < nm
        invariant
            problem.scorable(placements@, sights@),
            na == problem.attendees@.len(),
            nm == problem.musicians@.len(),
            m <= nm,
            scores@.len() == na,
            forall|i: int|
                0 <= i < na ==>
                    #[trigger] scores@[i] == problem.attendee_total(placements@, sights@, i, m as int),
        decreases nm - m,
    {
        let flags: Vec<bool> = sights[m].visible();
        let instrument: usize = problem.musicians[m];
        let place: P = placements[m];
        let mut a: usize = 0;
        while a < na
            invariant
                problem.scorable(placements@, sights@),
                na == problem.attendees@.len(),
                nm == problem.musicians@.len(),
                m < nm,
                a <= na,
                scores@.len() == na,
                flags@.len() == na,
                forall|i: int|
                    0 <= i < flags@.len() ==>
                        #[trigger] flags@[i] == sights@[m as int].sees(i),
                instrument == problem.musicians@[m as int],
                place == placements@[m as int],
                forall|i: int|
                    0 <= i < a ==>
                        #[trigger] scores@[i] == problem.attendee_total(placements@, sights@, i, m + 1),
                forall|i: int|
                    a <= i < na ==>
                        #[trigger] scores@[i] == problem.attendee_total(placements@, sights@, i, m as int),
            decreases na - a,
        {
            if flags[a] {
                proof {
                    problem.lemma_attendee_total_bound(placements@, sights@, a as int, m as int);
                    problem.lemma_attendee_total_bound(placements@, sights@, a as int, m + 1);
                }
                let attendee = &problem.attendees[a];
                let heard: i128 = contribution_of(attendee.tastes[instrument], attendee.position(), place);
                let sum: i128 = scores[a] + heard;
                scores.set(a, sum);
            }
            a += 1;
        }
        m += 1;
    }
    scores
}

/// The problem without the attendees that hear next to nothing of a
/// placement: those stay of whom a thousand times what they hear is more
/// than what the attendee that hears most hears. All else stays as it is.
pub fn simplify_problem(problem: &Problem, placements: &[P], sights: &[Sight]) -> (pruned: Problem)
    requires
        problem.scorable(placements@, sights@),
        problem.attendees@.len() > 0,
    ensures
        pruned.stage_width == problem.stage_width,
        pruned.stage_height == problem.stage_height,
        pruned.stage_bottom_left == problem.stage_bottom_left,
        pruned.musicians@ == problem.musicians@,
        pruned.pillars@ == problem.pillars@,
        pruned.playing_together == problem.playing_together,
        pruned.attendees@.len() == problem.staying(placements@, sights@, problem.attendees@.len() as int).len(),
        forall|i: int|
            0 <= i < pruned.attendees@.len() ==> (#[trigger] pruned.attendees@[i]).same(
                &problem.attendees@[problem.staying(placements@, sights@, problem.attendees@.len() as int)[i]],
            ),
{
    let na: usize = problem.attendees.len();
    let scores: Vec<i128> = attendee_scores(problem, placements, sights);
    let mut top: i128 = scores[0];
    let mut a: usize = 1;
    while a < na
        invariant
            na == problem.attendees@.len(),
            1 <= a <= na,
            scores@.len() == na,
            forall|i: int|
                0 <= i < scores@.len() ==>
                    #[trigger] scores@[i] == problem.attendee_score(placements@, sights@, i),
            top == problem.loudest(placements@, sights@, a as int),
        decreases na - a,
    {
        if scores[a] > top {
            top = scores[a];
        }
        a += 1;
    }
    let mut attendees: Vec<Attendee> = Vec::new();
    let ghost mut picked: Seq<int> = Seq::empty();
    let mut a: usize = 0;
    while a < na
        invariant
            problem.scorable(placements@, sights@),
            na == problem.attendees@.len(),
            a <= na,
            scores@.len() == na,
            forall|i: int|
                0 <= i < scores@.len() ==>
                    #[trigger] scores@[i] == problem.attendee_score(placements@, sights@, i),
            top == problem.loudest(placements@, sights@, na as int),
            picked == problem.staying(placements@, sights@, a as int),
            attendees@.len() == picked.len(),
            forall|i: int| 0 <= i < picked.len() ==> 0 <= #[trigger] picked[i] < a,
            forall|i: int|
                0 <= i < attendees@.len() ==>
                    (#[trigger] attendees@[i]).same(&problem.attendees@[picked[i]]),
        decreases na - a,
    {
        proof {
            problem.lemma_attendee_total_bound(placements@, sights@, a as int, problem.musicians@.len() as int);
        }
        if PRUNE_FACTOR * scores[a] > top {
            attendees.push(problem.attendees[a].clone());
            proof {
                picked = picked.push(a as int);
            }
        }
        a += 1;
    }
    let pillars: Vec<Pillar> = problem.pillars.clone();
    assert(pillars@ =~= problem.pillars@);
    Problem {
        stage_width: problem.stage_width,
        stage_height: problem.stage_height,
        stage_bottom_left: (problem.stage_bottom_left.0, problem.stage_bottom_left.1),
        musicians: problem.musicians.clone(),
        attendees,
        pillars,
        playing_together: problem.playing_together,
    }
}

} // verus!
