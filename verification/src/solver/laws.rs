use crate::problem::{Problem, MAX_COUNT};
use crate::score::{MAX_HEARD, MAX_SCORE};
use crate::sight::Sight;
use crate::solver::optimizer::{Event, Model, Phase};
use crate::types::P;
use vstd::prelude::*;

verus! {

/// The score of a placement that can be scored is within the limit.
pub proof fn lemma_score_fits(problem: Problem, placements: Seq<P>, sights: Seq<Sight>)
    requires
        problem.scorable(placements, sights),
    ensures
        -MAX_SCORE <= problem.total_score(placements, sights) <= MAX_SCORE,
{
    let n = problem.musicians@.len() as int;
    problem.lemma_total_bound(placements, sights, n);
    assert(n * (MAX_COUNT * MAX_HEARD) <= MAX_COUNT * (MAX_COUNT * MAX_HEARD)) by (nonlinear_arith)
        requires
            0 <= n <= MAX_COUNT,
    ;
}

/// The state in which a search starts from a placement that can be scored is well formed.
pub proof fn law_start_is_well_formed(problem: Problem, placements: Seq<P>, sights: Seq<Sight>)
    requires
        problem.scorable(placements, sights),
    ensures
        Model::start(problem, placements, sights).wf(),
{
}

/// Whatever a well-formed optimizer is told, it stays well formed and on its problem.
pub proof fn law_step_keeps_well_formed(m: Model, event: Event)
    requires
        m.wf(),
    ensures
        m.step(event).wf(),
        m.step(event).problem == m.problem,
{
    match event {
        Event::Try(mv) => {
            if m.places(mv) {
                mv.lemma_undo(m.placements);
            }
        },
        Event::Weigh(sights) => {
            match m.phase {
                Phase::Moved(mv) => {
                    if m.problem.fits(m.placements, sights) {
                        lemma_score_fits(m.problem, m.placements, sights);
                    }
                },
                _ => {},
            }
        },
        Event::Settle(lucky) => {},
    }
}

/// Whatever run of events a well-formed optimizer is told, it stays well
/// formed and on its problem.
pub proof fn law_run_keeps_well_formed(m: Model, events: Seq<Event>)
    requires
        m.wf(),
    ensures
        m.run(events).wf(),
        m.run(events).problem == m.problem,
    decreases events.len(),
{
    if events.len() > 0 {
        law_run_keeps_well_formed(m, events.drop_last());
        law_step_keeps_well_formed(m.run(events.drop_last()), events.last());
    }
}

/// What an optimizer ends with depends on nothing but the state that it
/// started in and the events that it was told: two that agree in both take
/// the same decisions throughout and end in the same state, with the same
/// best placement.
pub proof fn law_same_run_same_end(a: Model, b: Model, events: Seq<Event>, lucky: bool)
    requires
        a == b,
    ensures
        a.run(events) == b.run(events),
        a.run(events).best_placements == b.run(events).best_placements,
        a.run(events).accepts(lucky) == b.run(events).accepts(lucky),
        forall|k: int|
            0 <= k <= events.len() ==>
                a.run(#[trigger] events.take(k)) == b.run(events.take(k)),
{
}

/// The best score never falls in one step.
pub proof fn law_best_never_falls_in_a_step(m: Model, event: Event)
    ensures
        m.step(event).best_score >= m.best_score,
{
}

/// The best score never falls over a run.
pub proof fn law_best_never_falls(m: Model, events: Seq<Event>)
    ensures
        m.run(events).best_score >= m.best_score,
    decreases events.len(),
{
    if events.len() > 0 {
        law_best_never_falls(m, events.drop_last());
        law_best_never_falls_in_a_step(m.run(events.drop_last()), events.last());
    }
}

/// After any run, the best score is the score of the best placement under
/// the sights that were given for it, and is no less than the current score.
pub proof fn law_best_score_is_the_score_of_the_best(m: Model, events: Seq<Event>)
    requires
        m.wf(),
    ensures
        ({
            let end = m.run(events);
            &&& end.best_score == m.problem.total_score(end.best_placements, end.best_sights)
            &&& end.score == m.problem.total_score(end.rest(), end.sights)
            &&& end.best_score >= end.score
        }),
{
    law_run_keeps_well_formed(m, events);
}

/// A search never ends with a best score below the score of the placement
/// that it started from.
pub proof fn law_no_regression(problem: Problem, placements: Seq<P>, sights: Seq<Sight>, events: Seq<Event>)
    requires
        problem.scorable(placements, sights),
    ensures
        Model::start(problem, placements, sights).run(events).best_score >= problem.total_score(
            placements,
            sights,
        ),
{
    law_best_never_falls(Model::start(problem, placements, sights), events);
}

/// A move that stands leaves an allowed placement as the current one, and
/// the best placement changes to none but an allowed one.
pub proof fn law_what_stands_is_allowed(m: Model, lucky: bool)
    requires
        m.wf(),
    ensures
        m.accepts(lucky) ==> m.problem.valid(m.settle(lucky).rest()),
        m.settle(lucky).best_placements != m.best_placements ==> m.problem.valid(m.settle(lucky).best_placements),
{
}

/// A step keeps the placement at rest and the best placement allowed.
pub proof fn law_step_keeps_allowed(m: Model, event: Event)
    requires
        m.wf(),
        m.sound(),
    ensures
        m.step(event).sound(),
{
    match event {
        Event::Try(mv) => {
            if m.places(mv) {
                mv.lemma_undo(m.placements);
            }
        },
        Event::Weigh(sights) => {},
        Event::Settle(lucky) => {},
    }
}

/// Where a search starts from an allowed placement, every placement that
/// is ever the current one at rest, or the best one, is allowed.
pub proof fn law_run_keeps_allowed(m: Model, events: Seq<Event>)
    requires
        m.wf(),
        m.sound(),
    ensures
        m.run(events).sound(),
    decreases events.len(),
{
    if events.len() > 0 {
        law_run_keeps_allowed(m, events.drop_last());
        law_run_keeps_well_formed(m, events.drop_last());
        law_step_keeps_allowed(m.run(events.drop_last()), events.last());
    }
}

} // verus!
