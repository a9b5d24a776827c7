//! Placing musicians on a stage: scoring a placement against the audience,
//! checking that it is allowed, and the bookkeeping of an annealing search.
//!
//! Every real quantity is held in fixed point. Lengths, tastes and
//! temperatures are whole numbers of millionths ([`types::UNIT`] ticks to
//! one), and directions are whole fractions of a turn
//! ([`sight::HALF_TURN`] units to half a turn), so that every decision the
//! library takes is exact. The angles under which a musician sees the
//! audience and the other musicians are given to the library; it does not
//! compute them.
//!
//! - [`types`], [`problem`], [`solution`]: points, problems and solutions.
//! - [`sight`]: directions, shadows, and what a musician has around it.
//! - [`sort`], [`sweep`]: the sweep over ascending directions that finds
//!   the attendees with a free line to a musician.
//! - [`score`], [`pairs`], [`prune`], [`best`]: scores, and what follows from them.
//! - [`solver`]: the validity of a placement, moves, and the search.

pub mod best;
pub mod pairs;
pub mod problem;
pub mod prune;
pub mod score;
pub mod sight;
pub mod solution;
pub mod solver;
pub mod sort;
pub mod sweep;
pub mod types;

pub use best::improves;
pub use problem::{Attendee, Pillar, Problem, MAX_COUNT, MAX_TASTE};
pub use prune::{attendee_scores, simplify_problem};
pub use score::{can_score, contribution_of, score, sights_fit, single_score, unblocked_pairs};
pub use sight::{normalize_angle, Shadow, Sight, BLOCK_DISTANCE, FULL_TURN, HALF_TURN, QUARTER_TURN};
pub use solution::Solution;
pub use solver::draw::{choose_move, draw_move};
pub use solver::moves::Move;
pub use solver::optimizer::{Event, Model, Optimizer, Phase, State};
pub use solver::policy::Policy;
pub use solver::schedule::Config;
pub use solver::{far_apart, is_valid, RADIUS};
pub use types::{P, UNIT};
