use crate::problem::MAX_COUNT;
use crate::score::{single_score, MAX_HEARD};
use crate::solver::draw::{draw_move, drawn_from};
use crate::solver::moves::Move;
use crate::solver::optimizer::{Model, Optimizer, Phase};
use crate::sort::{lemma_sorted_numbered, sort_keyed, Keyed};
use rand::rngs::StdRng;
use vstd::prelude::*;

verus! {

/// Which musicians a search draws its moves from.
#[derive(Clone, Copy, Debug, PartialEq, Eq, Structural)]
pub enum Policy {
    /// All of them.
    Uniform,
    /// Those that are worth most to the audience.
    ScoreBiased,
}

/// How many of `n` musicians a score-biased search draws from: a tenth of
/// them, but ten at least, and all where there are fewer.
pub open spec fn pool_size(n: int) -> int {
    let tenth = if n / 10 > 10 {
        n / 10
    } else {
        10
    };
    if tenth < n {
        tenth
    } else {
        n
    }
}

/// `pool_size`, computed.
pub fn pool_size_of(n: usize) -> (r: usize)
    ensures
        r == pool_size(n as int),
{
    let tenth: usize = if n / 10 > 10 {
        n / 10
    } else {
        10
    };
    if tenth < n {
        tenth
    } else {
        n
    }
}

/// Whether musician `x` has a place in a ranking.
pub open spec fn ranks(ranked: Seq<Keyed>, x: int) -> bool {
    exists|q: int| 0 <= q < ranked.len() && (#[trigger] ranked[q]).index == x
}

impl Model {
    /// What musician `m` is worth to the audience in the current placement.
    pub open spec fn worth(self, m: int) -> int {
        self.problem.musician_score(self.placements, self.sights, m)
    }

    /// Whether musician `i` comes before musician `j` when they are ranked:
    /// it is worth more, or as much and has the smaller index.
    pub open spec fn outranks(self, i: int, j: int) -> bool {
        self.worth(i) > self.worth(j) || (self.worth(i) == self.worth(j) && i < j)
    }

    /// Whether `pool` is what a search under `policy` draws from: every
    /// musician in order, or the `pool_size` highest-ranked, highest first.
    pub open spec fn is_pool(self, policy: Policy, pool: Seq<usize>) -> bool {
        let n = self.placements.len() as int;
        match policy {
            Policy::Uniform => {
                &&& pool.len() == n
                &&& forall|i: int| 0 <= i < n ==> #[trigger] pool[i] == i
            },
            Policy::ScoreBiased => {
                &&& pool.len() == pool_size(n)
                &&& forall|i: int| 0 <= i < pool.len() ==> #[trigger] pool[i] < n
                &&& forall|i: int, j: int|
                    0 <= i < j < pool.len() ==>
                        self.outranks(#[trigger] pool[i] as int, #[trigger] pool[j] as int)
                &&& forall|x: int, i: int|
                    0 <= x < n && !pool.contains(x as usize) && 0 <= i < pool.len() ==> #[trigger] self.outranks(
                        pool[i] as int,
                        x,
                    )
            },
        }
    }
}

impl Model {
    /// Whether a search under `policy` may draw the move: it is one on the
    /// musicians that the search draws from.
    pub open spec fn draws(self, policy: Policy, mv: Move) -> bool {
        exists|pool: Seq<usize>| #[trigger] self.is_pool(policy, pool) && drawn_from(mv, pool)
    }
}

impl Optimizer {
    /// Draws a move under the policy and tries it. Gives the move where it
    /// was made; nothing, with nothing changed, where another move is
    /// under way, where there is no musician to draw from, or where the
    /// move drawn leads to a placement that is not allowed.
    pub fn propose(&mut self, rng: &mut StdRng, policy: Policy) -> (r: Option<Move>)
        requires
            old(self).wf(),
        ensures
            final(self).wf(),
            r matches Some(mv) ==> old(self)@.draws(policy, mv) && old(self)@.places(mv),
            r matches Some(mv) ==> final(self)@ == old(self)@.try_move(mv),
            r is None ==> final(self)@ == old(self)@,
            old(self)@.phase is Ready && old(self)@.placements.len() > 0 && old(self)@.places_all(policy)
                ==> r is Some,
    {
        match self.phase() {
            Phase::Ready => {},
            _ => {
                return None;
            },
        }
        let pool: Vec<usize> = self.candidates(policy);
        let drawn: Option<Move> = draw_move(rng, &pool);
        proof {
            if let Some(mv) = drawn {
                assert(self@.is_pool(policy, pool@) && drawn_from(mv, pool@));
                assert(self@.draws(policy, mv));
            } else {
                assert(pool@.len() == 0);
                assert(self@.placements.len() == 0);
            }
        }
        self.take(drawn)
    }

    /// Tries the move that was drawn, if one was. Gives the move where it
    /// was made, and nothing, with nothing changed, where none was drawn
    /// or the move is not made.
    pub fn take(&mut self, drawn: Option<Move>) -> (r: Option<Move>)
        requires
            old(self).wf(),
        ensures
            final(self).wf(),
            final(self)@ == old(self)@.taken(drawn),
            r == old(self)@.makes(drawn),
    {
        match drawn {
            Some(mv) => {
                if self.try_move(mv) {
                    Some(mv)
                } else {
                    None
                }
            },
            None => None,
        }
    }

    /// The musicians that the next move is drawn from.
    pub fn candidates(&self, policy: Policy) -> (pool: Vec<usize>)
        requires
            self.wf(),
            self@.phase is Ready,
        ensures
            self@.is_pool(policy, pool@),
    {
        let n: usize = self.placements().len();
        let mut pool: Vec<usize> = Vec::new();
        match policy {
            Policy::Uniform => {
                let mut m: usize = 0;
                while m < n
                    invariant
                        m <= n,
                        pool@.len() == m,
                        forall|i: int| 0 <= i < m ==> #[trigger] pool@[i] == i,
                    decreases n - m,
                {
                    pool.push(m);
                    m += 1;
                }
            },
            Policy::ScoreBiased => {
                let ranked: Vec<Keyed> = self.ranking();
                let top: usize = pool_size_of(n);
                let mut k: usize = 0;
                while k < top
                    invariant
                        top <= n,
                        n == ranked@.len(),
                        k <= top,
                        pool@.len() == k,
                        forall|i: int| 0 <= i < k ==> #[trigger] pool@[i] == ranked@[i].index,
                    decreases top - k,
                {
                    pool.push(ranked[k].index);
                    k += 1;
                }
                proof {
                    let model = self@;
                    assert forall|x: int, i: int|
                        0 <= x < n && !pool@.contains(x as usize) && 0 <= i < pool@.len() implies #[trigger] model.outranks(
                        pool@[i] as int,
                        x,
                    ) by {
                        assert(ranks(ranked@, x));
                        let q = choose|q: int| 0 <= q < ranked@.len() && (#[trigger] ranked@[q]).index == x;
                        if q < top {
                            assert(pool@[q] == x as usize);
                        }
                        assert(model.outranks(ranked@[i].index as int, ranked@[q].index as int));
                    }
                    assert forall|i: int, j: int|
                        0 <= i < j < pool@.len() implies
                            model.outranks(#[trigger] pool@[i] as int, #[trigger] pool@[j] as int) by {
                        assert(model.outranks(ranked@[i].index as int, ranked@[j].index as int));
                    }
                }
            },
        }
        pool
    }

    /// All musicians, ranked by what they are worth to the audience: the
    /// one worth most first, and among those worth the same the one with
    /// the smaller index.
    pub fn ranking(&self) -> (ranked: Vec<Keyed>)
        requires
            self.wf(),
            self@.phase is Ready,
        ensures
            ranked@.len() == self@.placements.len(),
            forall|i: int|
                0 <= i < ranked@.len() ==>
                    (#[trigger] ranked@[i]).index < ranked@.len() && ranked@[i].key == -self@.worth(ranked@[i].index as int),
            forall|i: int, j: int|
                0 <= i < j < ranked@.len() ==>
                    self@.outranks((#[trigger] ranked@[i]).index as int, (#[trigger] ranked@[j]).index as int),
            forall|x: int| 0 <= x < ranked@.len() ==> #[trigger] ranks(ranked@, x),
    {
        let problem = self.problem();
        let placements = self.placements();
        let sights = self.sights();
        let n: usize = placements.len();
        let mut keys: Vec<Keyed> = Vec::new();
        let mut m: usize = 0;
        while m < n
            invariant
                problem.scorable(placements@, sights@),
                n == placements@.len(),
                m <= n,
                keys@.len() == m,
                forall|i: int|
                    0 <= i < m ==>
                        (#[trigger] keys@[i]).index == i && keys@[i].key == -problem.musician_score(placements@, sights@, i),
            decreases n - m,
        {
            proof {
                problem.lemma_musician_total_bound(placements@, sights@, m as int, problem.attendees@.len() as int);
                let na = problem.attendees@.len();
                assert(na * MAX_HEARD <= MAX_COUNT * MAX_HEARD) by (nonlinear_arith)
                    requires
                        0 <= na <= MAX_COUNT,
                ;
            }
            let worth: i128 = single_score(problem, placements.as_slice(), sights.as_slice(), m);
            keys.push(Keyed { key: -worth, index: m });
            m += 1;
        }
        let ranked: Vec<Keyed> = sort_keyed(keys);
        proof {
            lemma_sorted_numbered(keys@, ranked@);
            assert forall|i: int, j: int|
                0 <= i < j < ranked@.len() implies
                    self@.outranks((#[trigger] ranked@[i]).index as int, (#[trigger] ranked@[j]).index as int) by {
                assert(ranked@[i].before(ranked@[j]));
                assert(ranked@[i] == keys@[ranked@[i].index as int]);
                assert(ranked@[j] == keys@[ranked@[j].index as int]);
            }
            assert forall|x: int| 0 <= x < ranked@.len() implies #[trigger] ranks(ranked@, x) by {
                assert(ranked@.contains(keys@[x]));
                let q = choose|q: int| 0 <= q < ranked@.len() && ranked@[q] == keys@[x];
                assert(ranked@[q].index == x);
            }
        }
        ranked
    }
}

impl Model {
    /// The move that is made of what was drawn: the move drawn, where one
    /// was drawn and it would be made.
    pub open spec fn makes(self, drawn: Option<Move>) -> Option<Move> {
        match drawn {
            Some(mv) => if self.places(mv) {
                Some(mv)
            } else {
                None
            },
            None => None,
        }
    }

    /// The state after what was drawn was tried.
    pub open spec fn taken(self, drawn: Option<Move>) -> Model {
        match drawn {
            Some(mv) => self.try_move(mv),
            None => self,
        }
    }

    /// Whether every move that a search under `policy` may draw would be made.
    pub open spec fn places_all(self, policy: Policy) -> bool {
        forall|mv: Move| #[trigger] self.draws(policy, mv) ==> self.places(mv)
    }
}

} // verus!
