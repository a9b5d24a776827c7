use crate::problem::Problem;
use crate::score::{score, sights_fit};
use crate::sight::Sight;
use crate::solution::Solution;
use crate::solver::is_valid;
use crate::solver::laws::lemma_score_fits;
use crate::solver::moves::Move;
use crate::solver::schedule::{stands, stands_at};
use crate::types::P;
use vstd::prelude::*;

verus! {

/// A placement and the score that belongs to it.
#[derive(Debug)]
pub struct State {
    pub score: i128,
    pub placements: Vec<P>,
}

impl Clone for State {
    fn clone(&self) -> (r: Self)
        ensures
            r.score == self.score,
            r.placements@ == self.placements@,
    {
        let placements: Vec<P> = self.placements.clone();
        assert(placements@ =~= self.placements@);
        State { score: self.score, placements }
    }
}

impl State {
    /// Makes a move on the placement. The score stays as it is.
    pub fn move_forward(&mut self, m: Move)
        requires
            m.fits(old(self).placements@),
        ensures
            final(self).placements@ == m.forward(old(self).placements@),
            final(self).score == old(self).score,
    {
        m.apply(&mut self.placements);
    }

    /// Takes a move back. The score stays as it is.
    pub fn move_backward(&mut self, m: Move)
        requires
            m.fits_back(old(self).placements@),
        ensures
            final(self).placements@ == m.backward(old(self).placements@),
            final(self).score == old(self).score,
    {
        m.invert(&mut self.placements);
    }

    /// Whether the placement is allowed.
    pub fn is_valid(&self, problem: &Problem) -> (ok: bool)
        ensures
            ok == problem.valid(self.placements@),
    {
        is_valid(problem, self.placements.as_slice())
    }
}

/// What an optimizer waits for.
#[derive(Clone, Copy, Debug, PartialEq, Eq, Structural)]
pub enum Phase {
    /// A move to try.
    Ready,
    /// The sights of the placement after the move that was made.
    Moved(Move),
    /// The decision on the move that was made, whose placement has the score held here.
    Weighed(Move, i128),
}

/// What an optimizer is told.
pub enum Event {
    /// Try this move.
    Try(Move),
    /// These are the sights of the placement as it stands.
    Weigh(Seq<Sight>),
    /// Decide on the move; the flag says whether a move that lowers the score is to stand.
    Settle(bool),
}

/// One more, up to the largest count that is kept.
pub open spec fn bump(n: nat) -> nat {
    if n < u64::MAX {
        n + 1
    } else {
        n
    }
}

/// The state of an optimizer.
pub struct Model {
    pub problem: Problem,
    /// The placement as it stands, with the move that was made, if any.
    pub placements: Seq<P>,
    /// The score of the placement without that move.
    pub score: int,
    /// The sights of the placement without that move.
    pub sights: Seq<Sight>,
    /// The sights of the placement with the move, once they were given.
    pub offered: Seq<Sight>,
    pub best_placements: Seq<P>,
    pub best_score: int,
    pub best_sights: Seq<Sight>,
    pub phase: Phase,
    /// How many moves were decided on.
    pub trials: nat,
    /// How many of them stood.
    pub accepted: nat,
}

impl Model {
    /// The state in which a search starts.
    pub open spec fn start(problem: Problem, placements: Seq<P>, sights: Seq<Sight>) -> Model {
        Model {
            problem,
            placements,
            score: problem.total_score(placements, sights),
            sights,
            offered: Seq::empty(),
            best_placements: placements,
            best_score: problem.total_score(placements, sights),
            best_sights: sights,
            phase: Phase::Ready,
            trials: 0,
            accepted: 0,
        }
    }

    /// The placement that the score belongs to: the one without the move that was made.
    pub open spec fn rest(self) -> Seq<P> {
        match self.phase {
            Phase::Ready => self.placements,
            Phase::Moved(mv) => mv.backward(self.placements),
            Phase::Weighed(mv, _) => mv.backward(self.placements),
        }
    }

    /// The score belongs to the placement at rest, the best score to the
    /// best placement, a move that was made led to an allowed placement and
    /// can be taken back, and a score that was taken belongs to the
    /// placement as it stands.
    pub open spec fn wf(self) -> bool {
        &&& self.accepted <= self.trials <= u64::MAX
        &&& self.problem.scorable(self.rest(), self.sights)
        &&& self.score == self.problem.total_score(self.rest(), self.sights)
        &&& self.problem.scorable(self.best_placements, self.best_sights)
        &&& self.best_score == self.problem.total_score(self.best_placements, self.best_sights)
        &&& self.score <= self.best_score
        &&& match self.phase {
            Phase::Ready => true,
            Phase::Moved(mv) => mv.fits_back(self.placements) && self.problem.valid(self.placements),
            Phase::Weighed(mv, s) => {
                &&& mv.fits_back(self.placements)
                &&& self.problem.valid(self.placements)
                &&& self.problem.scorable(self.placements, self.offered)
                &&& s == self.problem.total_score(self.placements, self.offered)
            },
        }
    }

    /// Whether a move would be made: none is under way, it can be made, and
    /// the placement that it leads to is allowed.
    pub open spec fn places(self, mv: Move) -> bool {
        &&& self.phase == Phase::Ready
        &&& mv.fits(self.placements)
        &&& self.problem.valid(mv.forward(self.placements))
    }

    /// The state after a move was tried: made if it would be, else nothing changes.
    pub open spec fn try_move(self, mv: Move) -> Model {
        if self.places(mv) {
            Model { placements: mv.forward(self.placements), phase: Phase::Moved(mv), ..self }
        } else {
            self
        }
    }

    /// Whether sights would be taken: a move was made, and they fit the
    /// placement as it stands.
    pub open spec fn weighs(self, sights: Seq<Sight>) -> bool {
        self.phase is Moved && self.problem.fits(self.placements, sights)
    }

    /// The state after sights were given. Where a move was made and the
    /// sights fit the placement, its score is taken. Where they do not fit,
    /// the move is taken back. Where no move was made, nothing changes.
    pub open spec fn weigh(self, sights: Seq<Sight>) -> Model {
        match self.phase {
            Phase::Moved(mv) => if self.problem.fits(self.placements, sights) {
                Model {
                    offered: sights,
                    phase: Phase::Weighed(mv, self.problem.total_score(self.placements, sights) as i128),
                    ..self
                }
            } else {
                Model { placements: mv.backward(self.placements), phase: Phase::Ready, ..self }
            },
            _ => self,
        }
    }

    /// Whether the move under way is to stand: it does not lower the score, or luck has it.
    pub open spec fn accepts(self, lucky: bool) -> bool {
        match self.phase {
            Phase::Weighed(_, s) => s >= self.score || lucky,
            _ => false,
        }
    }

    /// The state after the decision on a move whose score was taken. A
    /// move that stands makes its placement, score and sights the current
    /// ones, and the best ones where the score is above the best so far. A
    /// move that does not stand is taken back. Either way one more move is
    /// counted as decided.
    pub open spec fn settle(self, lucky: bool) -> Model {
        match self.phase {
            Phase::Weighed(mv, s) => if self.accepts(lucky) {
                Model {
                    score: s as int,
                    sights: self.offered,
                    offered: Seq::empty(),
                    best_placements: if s > self.best_score { self.placements } else { self.best_placements },
                    best_score: if s > self.best_score { s as int } else { self.best_score },
                    best_sights: if s > self.best_score { self.offered } else { self.best_sights },
                    phase: Phase::Ready,
                    trials: bump(self.trials),
                    accepted: bump(self.accepted),
                    ..self
                }
            } else {
                Model {
                    placements: mv.backward(self.placements),
                    offered: Seq::empty(),
                    phase: Phase::Ready,
                    trials: bump(self.trials),
                    ..self
                }
            },
            _ => self,
        }
    }

    /// Whether the move under way stands at a temperature against a draw
    /// given by its logarithm, both in ticks. Nothing stands without a
    /// move whose score was taken.
    pub open spec fn lucky_at(self, temperature: int, log_draw: int) -> bool {
        match self.phase {
            Phase::Weighed(_, s) => stands_at(s - self.score, temperature, log_draw),
            _ => false,
        }
    }

    /// The state after one event.
    pub open spec fn step(self, event: Event) -> Model {
        match event {
            Event::Try(mv) => self.try_move(mv),
            Event::Weigh(sights) => self.weigh(sights),
            Event::Settle(lucky) => self.settle(lucky),
        }
    }

    /// The state after a run of events.
    pub open spec fn run(self, events: Seq<Event>) -> Model
        decreases events.len(),
    {
        if events.len() == 0 {
            self
        } else {
            self.run(events.drop_last()).step(events.last())
        }
    }

    /// Whether the placement at rest and the best placement are allowed.
    pub open spec fn sound(self) -> bool {
        self.problem.valid(self.rest()) && self.problem.valid(self.best_placements)
    }
}

/// A search for a better placement, one move at a time: a move is tried,
/// the placement that it leads to is scored, and the move stands or is
/// taken back.
pub struct Optimizer {
    problem: Problem,
    current: State,
    sights: Vec<Sight>,
    offered: Vec<Sight>,
    best: State,
    best_sights: Ghost<Seq<Sight>>,
    phase: Phase,
    trials: u64,
    accepted: u64,
}

impl View for Optimizer {
    type V = Model;

    closed spec fn view(&self) -> Model {
        Model {
            problem: self.problem,
            placements: self.current.placements@,
            score: self.current.score as int,
            sights: self.sights@,
            offered: self.offered@,
            best_placements: self.best.placements@,
            best_score: self.best.score as int,
            best_sights: self.best_sights@,
            phase: self.phase,
            trials: self.trials as nat,
            accepted: self.accepted as nat,
        }
    }
}

impl Optimizer {
    /// Whether the optimizer's state is well formed.
    pub open spec fn wf(&self) -> bool {
        self@.wf()
    }

    /// An optimizer that starts from the given placement, where the
    /// placement can be scored with the sights given for it.
    pub fn new(problem: Problem, solution: Solution, sights: Vec<Sight>) -> (r: Option<Optimizer>)
        ensures
            r is Some <==> problem.scorable(solution.placements@, sights@),
            r matches Some(o) ==> o.wf() && o@ == Model::start(problem, solution.placements@, sights@),
    {
        if !problem.check() || !sights_fit(&problem, solution.placements.as_slice(), sights.as_slice()) {
            return None;
        }
        let total: i128 = score(&problem, solution.placements.as_slice(), sights.as_slice());
        let current = State { score: total, placements: solution.placements };
        let best = current.clone();
        let o = Optimizer {
            problem,
            current,
            best_sights: Ghost(sights@),
            sights,
            offered: Vec::new(),
            best,
            phase: Phase::Ready,
            trials: 0,
            accepted: 0,
        };
        assert(o@ =~= Model::start(problem, solution.placements@, sights@));
        Some(o)
    }

    /// Tries a move: makes it, and takes it back at once where the
    /// placement that it leads to is not allowed. Says whether the move was made.
    pub fn try_move(&mut self, mv: Move) -> (placed: bool)
        requires
            old(self).wf(),
        ensures
            final(self).wf(),
            final(self)@ == old(self)@.try_move(mv),
            placed == old(self)@.places(mv),
    {
        match self.phase {
            Phase::Ready => {},
            _ => {
                return false;
            },
        }
        if !mv.check(&self.current.placements) {
            return false;
        }
        proof {
            mv.lemma_undo(self.current.placements@);
        }
        self.current.move_forward(mv);
        if !self.current.is_valid(&self.problem) {
            self.current.move_backward(mv);
            return false;
        }
        self.phase = Phase::Moved(mv);
        true
    }

    /// Takes the sights of the placement as it stands after a move, and
    /// with them its score. Where the sights do not fit the placement, the
    /// move is taken back instead.
    pub fn weigh(&mut self, sights: Vec<Sight>) -> (r: Option<i128>)
        requires
            old(self).wf(),
        ensures
            final(self).wf(),
            final(self)@ == old(self)@.weigh(sights@),
            r == (if old(self)@.weighs(sights@) {
                Some(old(self)@.problem.total_score(old(self)@.placements, sights@) as i128)
            } else {
                None
            }),
    {
        match self.phase {
            Phase::Moved(mv) => {
                if sights_fit(&self.problem, self.current.placements.as_slice(), sights.as_slice()) {
                    let total: i128 = score(&self.problem, self.current.placements.as_slice(), sights.as_slice());
                    self.offered = sights;
                    self.phase = Phase::Weighed(mv, total);
                    Some(total)
                } else {
                    proof {
                        mv.lemma_redo(self.current.placements@);
                    }
                    self.current.move_backward(mv);
                    self.phase = Phase::Ready;
                    None
                }
            },
            _ => None,
        }
    }

    /// Decides on the move whose score was taken, and says whether it
    /// stands. A move stands where it does not lower the score, or where
    /// `lucky` is set. Without such a move nothing changes.
    pub fn settle(&mut self, lucky: bool) -> (stands: bool)
        requires
            old(self).wf(),
        ensures
            final(self).wf(),
            final(self)@ == old(self)@.settle(lucky),
            stands == old(self)@.accepts(lucky),
    {
        match self.phase {
            Phase::Weighed(mv, s) => {
                if self.trials < u64::MAX {
                    self.trials = self.trials + 1;
                }
                if s >= self.current.score || lucky {
                    if self.accepted < u64::MAX {
                        self.accepted = self.accepted + 1;
                    }
                    self.current.score = s;
                    let mut taken: Vec<Sight> = Vec::new();
                    std::mem::swap(&mut taken, &mut self.offered);
                    if s > self.best.score {
                        self.best = self.current.clone();
                        self.best_sights = Ghost(taken@);
                    }
                    self.sights = taken;
                    self.phase = Phase::Ready;
                    true
                } else {
                    proof {
                        mv.lemma_redo(self.current.placements@);
                    }
                    self.current.move_backward(mv);
                    self.offered = Vec::new();
                    self.phase = Phase::Ready;
                    false
                }
            },
            _ => false,
        }
    }

    /// Decides on the move whose score was taken, at a temperature and
    /// against a draw given by its logarithm, both in ticks, and says
    /// whether the move stands. Without such a move nothing changes.
    pub fn decide(&mut self, temperature: i64, log_draw: i64) -> (stands: bool)
        requires
            old(self).wf(),
        ensures
            final(self).wf(),
            final(self)@ == old(self)@.settle(old(self)@.lucky_at(temperature as int, log_draw as int)),
            stands == old(self)@.accepts(old(self)@.lucky_at(temperature as int, log_draw as int)),
    {
        match self.phase {
            Phase::Weighed(_, s) => {
                proof {
                    lemma_score_fits(self@.problem, self@.rest(), self@.sights);
                    lemma_score_fits(self@.problem, self@.placements, self@.offered);
                }
                let lucky: bool = stands(s - self.current.score, temperature, log_draw);
                self.settle(lucky)
            },
            _ => false,
        }
    }

    /// The problem that the search is on.
    pub fn problem(&self) -> (r: &Problem)
        ensures
            *r == self@.problem,
    {
        &self.problem
    }

    /// The placement as it stands, with the move that was made, if any.
    pub fn placements(&self) -> (r: &Vec<P>)
        ensures
            r@ == self@.placements,
    {
        &self.current.placements
    }

    /// The sights of the placement without the move that was made, if any.
    pub fn sights(&self) -> (r: &Vec<Sight>)
        ensures
            r@ == self@.sights,
    {
        &self.sights
    }

    /// The score of the placement without the move that was made, if any.
    pub fn current_score(&self) -> (r: i128)
        ensures
            r == self@.score,
    {
        self.current.score
    }

    /// The best score so far.
    pub fn best_score(&self) -> (r: i128)
        ensures
            r == self@.best_score,
    {
        self.best.score
    }

    /// The best placement so far.
    pub fn best(&self) -> (r: Solution)
        ensures
            r.placements@ == self@.best_placements,
    {
        let placements: Vec<P> = self.best.placements.clone();
        assert(placements@ =~= self.best.placements@);
        Solution { placements }
    }

    /// What the optimizer waits for.
    pub fn phase(&self) -> (r: Phase)
        ensures
            r == self@.phase,
    {
        self.phase
    }

    /// How many moves were decided on.
    pub fn trials(&self) -> (r: u64)
        ensures
            r == self@.trials,
    {
        self.trials
    }

    /// How many moves stood.
    pub fn accepted(&self) -> (r: u64)
        ensures
            r == self@.accepted,
    {
        self.accepted
    }

    /// The share of the decided moves that stood, as a pair of counts, the
    /// smaller first; nothing where no move was decided on.
    pub fn acceptance(&self) -> (r: Option<(u64, u64)>)
        requires
            self.wf(),
        ensures
            self@.trials == 0 ==> r is None,
            self@.trials > 0 ==> r == Some((self@.accepted as u64, self@.trials as u64)),
            r matches Some(rate) ==> rate.0 <= rate.1 && rate.1 > 0,
    {
        if self.trials == 0 {
            None
        } else {
            Some((self.accepted, self.trials))
        }
    }
}

} // verus!
