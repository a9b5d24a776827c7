use kenkoooo::solver::policy::pool_size_of;
use kenkoooo::{
    choose_move, draw_move, is_valid, normalize_angle, score, Attendee, Config, Move, Optimizer, Phase, Policy,
    Problem, Sight, Solution, State, HALF_TURN, P, UNIT,
};
use rand::rngs::StdRng;
use rand::{Rng, SeedableRng};

fn direction(radians: f64) -> i64 {
    normalize_angle((radians / std::f64::consts::PI * HALF_TURN as f64).round() as i64)
}

/// What the musician at index `m` has around it.
fn sight(problem: &Problem, placements: &[P], m: usize) -> Sight {
    let center = placements[m];
    let towards = |p: &P| ((p.y - center.y) as f64).atan2((p.x - center.x) as f64);
    let seen_under = |p: &P| {
        let dx = (p.x - center.x) as f64;
        let dy = (p.y - center.y) as f64;
        (5.0 * UNIT as f64 / (dx * dx + dy * dy).sqrt()).min(1.0).asin()
    };
    let attendees: Vec<i64> = problem.attendees.iter().map(|a| direction(towards(&a.position()))).collect();
    let bearings: Vec<i64> = placements.iter().map(|p| direction(towards(p))).collect();
    let half_widths: Vec<i64> = placements.iter().map(|p| direction(seen_under(p))).collect();
    Sight::around(placements, m, &attendees, &bearings, &half_widths).unwrap()
}

fn sights(problem: &Problem, placements: &[P]) -> Vec<Sight> {
    (0..placements.len()).map(|m| sight(problem, placements, m)).collect()
}

fn at(x: i64, y: i64) -> P {
    P { x: x * UNIT, y: y * UNIT }
}

fn listener(x: i64, y: i64, tastes: &[i64]) -> Attendee {
    Attendee { x: x * UNIT, y: y * UNIT, tastes: tastes.to_vec() }
}

fn hall(musicians: Vec<usize>, attendees: Vec<Attendee>) -> Problem {
    Problem {
        stage_width: 100 * UNIT,
        stage_height: 100 * UNIT,
        stage_bottom_left: (0, 0),
        musicians,
        attendees,
        pillars: Vec::new(),
        playing_together: None,
    }
}

fn duo() -> (Problem, Solution) {
    let problem = hall(vec![0, 0], vec![listener(20, 120, &[UNIT]), listener(80, 120, &[UNIT])]);
    (problem, Solution { placements: vec![at(20, 20), at(80, 80)] })
}

fn start(problem: &Problem, solution: &Solution) -> Optimizer {
    let all = sights(problem, &solution.placements);
    Optimizer::new(problem.clone(), solution.clone(), all).unwrap()
}

/// A band of twelve on a stage, with listeners on three sides.
fn band() -> (Problem, Solution) {
    let mut attendees = Vec::new();
    for k in 0..10 {
        attendees.push(listener(5 + 10 * k, 130, &[UNIT * (1 + k % 3), -UNIT]));
        attendees.push(listener(-40, 10 * k, &[-UNIT / 2, 2 * UNIT]));
        attendees.push(listener(150, 3 + 9 * k, &[UNIT, UNIT]));
    }
    let musicians: Vec<usize> = (0..12).map(|m| m % 2).collect();
    let placements: Vec<P> = (0..12).map(|m| at(15 + 22 * (m % 4), 20 + 25 * (m / 4))).collect();
    (hall(musicians, attendees), Solution { placements })
}

struct Trace {
    decisions: Vec<bool>,
    moves: Vec<Move>,
    best_scores: Vec<i128>,
    best: Solution,
    best_score: i128,
    rate: Option<(u64, u64)>,
}

/// A search that ends after a number of decided moves.
fn search(problem: &Problem, solution: &Solution, seed: u64, trials: u64, config: &Config) -> Trace {
    let mut rng = StdRng::seed_from_u64(seed);
    let mut optimizer = start(problem, solution);
    let mut trace = Trace {
        decisions: Vec::new(),
        moves: Vec::new(),
        best_scores: vec![optimizer.best_score()],
        best: optimizer.best(),
        best_score: 0,
        rate: None,
    };
    let mut attempts = 0;
    while optimizer.trials() < trials && attempts < 100 * trials {
        attempts += 1;
        let pool = optimizer.candidates(config.move_policy);
        let mv = draw_move(&mut rng, &pool).unwrap();
        trace.moves.push(mv);
        if !optimizer.try_move(mv) {
            assert_eq!(optimizer.phase(), Phase::Ready);
            continue;
        }
        assert!(is_valid(optimizer.problem(), optimizer.placements()));
        let all = sights(optimizer.problem(), optimizer.placements());
        let new_score = optimizer.weigh(all).unwrap();
        let elapsed = optimizer.trials() * (config.time_limit / trials);
        let temperature = config.temperature(elapsed);
        let draw: f64 = rng.gen_range(0.0..1.0);
        let log_draw = ((draw.ln() * UNIT as f64).round() as i64).min(0);
        let before = optimizer.current_score();
        let stands = optimizer.decide(temperature, log_draw);
        assert_eq!(stands, kenkoooo::solver::schedule::stands(new_score - before, temperature, log_draw));
        if new_score < before && temperature < i64::MAX {
            // As in floating point, unless the draw is on the edge.
            let chance = ((new_score - before) as f64 / (temperature as f64 / UNIT as f64)).exp();
            if (chance - draw).abs() > 1e-5 {
                assert_eq!(stands, chance > draw);
            }
        } else if new_score >= before {
            assert!(stands);
        }
        assert_eq!(optimizer.current_score(), if stands { new_score } else { before });
        assert!(is_valid(optimizer.problem(), optimizer.placements()));
        assert!(is_valid(optimizer.problem(), &optimizer.best().placements));
        let recomputed = sights(optimizer.problem(), optimizer.placements());
        assert_eq!(score(optimizer.problem(), optimizer.placements(), &recomputed), optimizer.current_score());
        trace.decisions.push(stands);
        trace.best_scores.push(optimizer.best_score());
    }
    trace.best = optimizer.best();
    trace.best_score = optimizer.best_score();
    trace.rate = optimizer.acceptance();
    trace
}

#[test]
fn a_search_starts_with_the_score_of_the_placement_given() {
    let (problem, solution) = duo();
    let optimizer = start(&problem, &solution);
    assert_eq!(optimizer.current_score(), 992);
    assert_eq!(optimizer.best_score(), 992);
    assert_eq!(optimizer.best().placements, solution.placements);
    assert_eq!(optimizer.placements(), &solution.placements);
    assert_eq!(optimizer.phase(), Phase::Ready);
    assert_eq!(optimizer.trials(), 0);
    assert_eq!(optimizer.accepted(), 0);
    assert_eq!(optimizer.problem().musicians, problem.musicians);
    assert_eq!(optimizer.sights().len(), 2);
}

#[test]
fn a_search_without_a_decided_move_has_no_acceptance_rate() {
    let (problem, solution) = duo();
    let mut optimizer = start(&problem, &solution);
    assert_eq!(optimizer.acceptance(), None);
    assert!(!optimizer.try_move(Move::Shift { i: 0, to_x: true, d: 15 * UNIT }));
    assert_eq!(optimizer.acceptance(), None);
    assert_eq!(optimizer.best().placements, solution.placements);
}

#[test]
fn a_search_does_not_start_from_what_cannot_be_scored() {
    let (problem, solution) = duo();
    let all = sights(&problem, &solution.placements);
    assert!(Optimizer::new(problem.clone(), solution.clone(), all[..1].to_vec()).is_none());
    let short = Solution { placements: vec![at(20, 20)] };
    assert!(Optimizer::new(problem.clone(), short, all.clone()).is_none());
    let mut odd = problem.clone();
    odd.musicians[0] = 3;
    assert!(Optimizer::new(odd, solution.clone(), all.clone()).is_none());
    // A placement that is not allowed can still be searched from.
    let crowded = Solution { placements: vec![at(20, 20), at(22, 20)] };
    let all = sights(&problem, &crowded.placements);
    assert!(Optimizer::new(problem, crowded, all).is_some());
}

#[test]
fn a_move_to_a_place_that_is_not_allowed_is_taken_back_at_once() {
    let (problem, solution) = duo();
    let mut optimizer = start(&problem, &solution);
    // Off the stage.
    assert!(!optimizer.try_move(Move::Shift { i: 0, to_x: true, d: 11 * UNIT }));
    assert_eq!(optimizer.placements(), &solution.placements);
    // Too near to the other musician.
    let close = Solution { placements: vec![at(20, 20), at(35, 20)] };
    let mut crowded = start(&problem, &close);
    assert!(!crowded.try_move(Move::Shift { i: 1, to_x: true, d: 5 * UNIT + 1 }));
    assert_eq!(crowded.placements(), &close.placements);
    assert!(crowded.try_move(Move::Shift { i: 1, to_x: true, d: 5 * UNIT }));
    assert_eq!(crowded.placements(), &vec![at(20, 20), at(30, 20)]);
    assert!(optimizer.try_move(Move::Shift { i: 0, to_x: true, d: -60 * UNIT }));
    assert_eq!(optimizer.phase(), Phase::Moved(Move::Shift { i: 0, to_x: true, d: -60 * UNIT }));
    assert_eq!(optimizer.placements(), &vec![at(80, 20), at(80, 80)]);
    // A musician that is not there, and a shift that leaves the range of coordinates.
    let mut other = start(&problem, &solution);
    assert!(!other.try_move(Move::Shift { i: 2, to_x: true, d: 0 }));
    assert!(!other.try_move(Move::Swap { i: 0, j: 2 }));
    assert!(!other.try_move(Move::Shift { i: 0, to_x: true, d: i64::MIN }));
    assert_eq!(other.placements(), &solution.placements);
    assert_eq!(other.phase(), Phase::Ready);
    assert_eq!(other.trials(), 0);
}

#[test]
fn a_shift_moves_against_the_axis_and_is_undone_along_it() {
    let mut state = State { score: 5, placements: vec![at(20, 20), at(80, 80)] };
    state.move_forward(Move::Shift { i: 1, to_x: true, d: 3 });
    assert_eq!(state.placements, vec![at(20, 20), P { x: 80 * UNIT - 3, y: 80 * UNIT }]);
    state.move_forward(Move::Shift { i: 0, to_x: false, d: -7 });
    assert_eq!(state.placements[0], P { x: 20 * UNIT, y: 20 * UNIT + 7 });
    state.move_backward(Move::Shift { i: 0, to_x: false, d: -7 });
    state.move_backward(Move::Shift { i: 1, to_x: true, d: 3 });
    assert_eq!(state.placements, vec![at(20, 20), at(80, 80)]);
    assert_eq!(state.score, 5);
}

#[test]
fn a_swap_changes_two_places_and_is_its_own_undoing() {
    let mut state = State { score: 0, placements: vec![at(20, 20), at(50, 50), at(80, 80)] };
    state.move_forward(Move::Swap { i: 0, j: 2 });
    assert_eq!(state.placements, vec![at(80, 80), at(50, 50), at(20, 20)]);
    state.move_forward(Move::Swap { i: 0, j: 2 });
    assert_eq!(state.placements, vec![at(20, 20), at(50, 50), at(80, 80)]);
    state.move_forward(Move::Swap { i: 1, j: 2 });
    state.move_backward(Move::Swap { i: 1, j: 2 });
    assert_eq!(state.placements, vec![at(20, 20), at(50, 50), at(80, 80)]);
    state.move_forward(Move::Swap { i: 1, j: 1 });
    assert_eq!(state.placements, vec![at(20, 20), at(50, 50), at(80, 80)]);
    let copy = state.clone();
    assert_eq!(copy.placements, state.placements);
    assert_eq!(copy.score, state.score);
}

#[test]
fn a_state_is_valid_as_its_placement_is() {
    let (problem, solution) = duo();
    let mut state = State { score: 0, placements: solution.placements };
    assert!(state.is_valid(&problem));
    state.move_forward(Move::Shift { i: 0, to_x: true, d: 11 * UNIT });
    assert!(!state.is_valid(&problem));
}

#[test]
fn a_move_can_be_made_where_it_names_musicians_and_stays_in_range() {
    let places = vec![P { x: i64::MIN + 5, y: 0 }, P { x: 0, y: i64::MAX - 5 }];
    assert!(Move::Shift { i: 0, to_x: true, d: 5 }.check(&places));
    assert!(!Move::Shift { i: 0, to_x: true, d: 6 }.check(&places));
    assert!(Move::Shift { i: 1, to_x: false, d: -5 }.check(&places));
    assert!(!Move::Shift { i: 1, to_x: false, d: -6 }.check(&places));
    assert!(Move::Shift { i: 1, to_x: true, d: i64::MAX }.check(&places));
    assert!(!Move::Shift { i: 2, to_x: true, d: 0 }.check(&places));
    assert!(Move::Swap { i: 0, j: 1 }.check(&places));
    assert!(!Move::Swap { i: 0, j: 2 }.check(&places));
    assert!(!Move::Swap { i: 2, j: 0 }.check(&places));
}

#[test]
fn a_move_that_raises_the_score_always_stands() {
    let (problem, solution) = duo();
    let mut optimizer = start(&problem, &solution);
    // Towards the attendees.
    let mv = Move::Shift { i: 0, to_x: false, d: -UNIT };
    assert!(optimizer.try_move(mv));
    let all = sights(&problem, optimizer.placements());
    let new_score = optimizer.weigh(all).unwrap();
    assert!(new_score > 992);
    assert_eq!(optimizer.phase(), Phase::Weighed(mv, new_score));
    assert_eq!(optimizer.current_score(), 992);
    assert!(optimizer.settle(false));
    assert_eq!(optimizer.current_score(), new_score);
    assert_eq!(optimizer.best_score(), new_score);
    assert_eq!(optimizer.best().placements, vec![P { x: 20 * UNIT, y: 21 * UNIT }, at(80, 80)]);
    assert_eq!(optimizer.acceptance(), Some((1, 1)));
    assert_eq!(optimizer.phase(), Phase::Ready);
}

#[test]
fn a_move_that_lowers_the_score_stands_only_by_luck() {
    let (problem, solution) = duo();
    let away = Move::Shift { i: 0, to_x: false, d: UNIT };
    let mut unlucky = start(&problem, &solution);
    assert!(unlucky.try_move(away));
    let all = sights(&problem, unlucky.placements());
    let lower = unlucky.weigh(all).unwrap();
    assert!(lower < 992);
    assert!(!unlucky.settle(false));
    assert_eq!(unlucky.current_score(), 992);
    assert_eq!(unlucky.placements(), &solution.placements);
    assert_eq!(unlucky.best_score(), 992);
    assert_eq!(unlucky.acceptance(), Some((0, 1)));

    let mut lucky = start(&problem, &solution);
    assert!(lucky.try_move(away));
    let all = sights(&problem, lucky.placements());
    assert_eq!(lucky.weigh(all), Some(lower));
    assert!(lucky.settle(true));
    assert_eq!(lucky.current_score(), lower);
    assert_eq!(lucky.placements(), &vec![P { x: 20 * UNIT, y: 19 * UNIT }, at(80, 80)]);
    // The best stays what it was.
    assert_eq!(lucky.best_score(), 992);
    assert_eq!(lucky.best().placements, solution.placements);
    assert_eq!(lucky.acceptance(), Some((1, 1)));
}

#[test]
fn a_move_that_keeps_the_score_stands_and_leaves_the_best_as_it_is() {
    let (problem, solution) = duo();
    let mut optimizer = start(&problem, &solution);
    assert!(optimizer.try_move(Move::Swap { i: 0, j: 1 }));
    let all = sights(&problem, optimizer.placements());
    assert_eq!(optimizer.weigh(all), Some(992));
    assert!(optimizer.settle(false));
    assert_eq!(optimizer.placements(), &vec![at(80, 80), at(20, 20)]);
    assert_eq!(optimizer.best().placements, solution.placements);
    assert_eq!(optimizer.best_score(), 992);
}

#[test]
fn events_out_of_turn_change_nothing() {
    let (problem, solution) = duo();
    let mut optimizer = start(&problem, &solution);
    let all = sights(&problem, &solution.placements);
    assert_eq!(optimizer.weigh(all.clone()), None);
    assert!(!optimizer.settle(true));
    assert_eq!(optimizer.trials(), 0);
    assert_eq!(optimizer.phase(), Phase::Ready);
    let mv = Move::Shift { i: 0, to_x: false, d: -UNIT };
    assert!(optimizer.try_move(mv));
    assert!(!optimizer.try_move(mv));
    assert!(!optimizer.settle(true));
    assert_eq!(optimizer.phase(), Phase::Moved(mv));
    assert_eq!(optimizer.placements(), &vec![P { x: 20 * UNIT, y: 21 * UNIT }, at(80, 80)]);
    assert_eq!(optimizer.trials(), 0);
}

#[test]
fn sights_that_do_not_fit_take_the_move_back() {
    let (problem, solution) = duo();
    let mut optimizer = start(&problem, &solution);
    assert!(optimizer.try_move(Move::Shift { i: 0, to_x: false, d: -UNIT }));
    let all = sights(&problem, optimizer.placements());
    assert_eq!(optimizer.weigh(all[..1].to_vec()), None);
    assert_eq!(optimizer.phase(), Phase::Ready);
    assert_eq!(optimizer.placements(), &solution.placements);
    assert_eq!(optimizer.current_score(), 992);
    assert_eq!(optimizer.trials(), 0);
}

#[test]
fn a_uniform_search_draws_from_all_musicians() {
    let (problem, solution) = band();
    let optimizer = start(&problem, &solution);
    assert_eq!(optimizer.candidates(Policy::Uniform), (0..12).collect::<Vec<usize>>());
}

#[test]
fn a_score_biased_search_draws_from_those_worth_most() {
    let (problem, solution) = band();
    let optimizer = start(&problem, &solution);
    let all = sights(&problem, &solution.placements);
    let worth: Vec<i128> =
        (0..12).map(|m| kenkoooo::single_score(&problem, &solution.placements, &all, m)).collect();
    let mut expected: Vec<usize> = (0..12).collect();
    expected.sort_by(|a, b| worth[*b].cmp(&worth[*a]).then(a.cmp(b)));
    let pool = optimizer.candidates(Policy::ScoreBiased);
    assert_eq!(pool.len(), 10);
    assert_eq!(pool, expected[..10].to_vec());
    let ranked = optimizer.ranking();
    assert_eq!(ranked.iter().map(|k| k.index).collect::<Vec<usize>>(), expected);
    assert!(ranked.iter().all(|k| k.key == -worth[k.index]));
}

#[test]
fn musicians_worth_the_same_are_ranked_by_index() {
    let problem = hall(vec![0; 3], vec![listener(50, 500, &[0])]);
    let solution = Solution { placements: vec![at(20, 20), at(50, 50), at(80, 80)] };
    let optimizer = start(&problem, &solution);
    assert_eq!(optimizer.candidates(Policy::ScoreBiased), vec![0, 1, 2]);
}

#[test]
fn the_pool_is_a_tenth_of_the_musicians_but_ten_at_least() {
    assert_eq!(pool_size_of(0), 0);
    assert_eq!(pool_size_of(1), 1);
    assert_eq!(pool_size_of(9), 9);
    assert_eq!(pool_size_of(10), 10);
    assert_eq!(pool_size_of(11), 10);
    assert_eq!(pool_size_of(109), 10);
    assert_eq!(pool_size_of(110), 11);
    assert_eq!(pool_size_of(1000), 100);
    assert_eq!(pool_size_of(1009), 100);
}

#[test]
fn a_draw_stands_for_a_swap_or_a_shift_of_musicians_of_the_pool() {
    let pool = vec![7, 3, 9];
    assert_eq!(choose_move(&pool, true, 0, 2, false, 5), Move::Swap { i: 7, j: 9 });
    assert_eq!(choose_move(&pool, true, 1, 1, true, 5), Move::Swap { i: 3, j: 3 });
    assert_eq!(choose_move(&pool, false, 2, 0, true, -5), Move::Shift { i: 9, to_x: true, d: -5 });
    assert_eq!(choose_move(&pool, false, 1, 0, false, 8), Move::Shift { i: 3, to_x: false, d: 8 });
}

#[test]
fn drawn_moves_are_on_the_pool_and_shift_by_less_than_a_unit() {
    let mut rng = StdRng::seed_from_u64(42);
    let pool = vec![4, 8, 15, 16, 23];
    let (mut swaps, mut on_x, mut on_y, mut negative, mut positive) = (0, 0, 0, 0, 0);
    let mut drawn = std::collections::BTreeSet::new();
    for _ in 0..4000 {
        match draw_move(&mut rng, &pool).unwrap() {
            Move::Swap { i, j } => {
                assert!(pool.contains(&i) && pool.contains(&j));
                swaps += 1;
            }
            Move::Shift { i, to_x, d } => {
                assert!(pool.contains(&i));
                assert!(-UNIT <= d && d < UNIT);
                drawn.insert(i);
                if to_x {
                    on_x += 1;
                } else {
                    on_y += 1;
                }
                if d < 0 {
                    negative += 1;
                } else {
                    positive += 1;
                }
            }
        }
    }
    // One move in five is a swap; shifts go either way on either axis.
    assert!(600 < swaps && swaps < 1000);
    assert!(1300 < on_x && 1300 < on_y);
    assert!(1300 < negative && 1300 < positive);
    assert_eq!(drawn.len(), pool.len());
}

#[test]
fn nothing_is_drawn_from_an_empty_pool() {
    let mut rng = StdRng::seed_from_u64(1);
    assert_eq!(draw_move(&mut rng, &Vec::new()), None);
}

#[test]
fn a_pool_of_one_gives_moves_on_that_musician() {
    let mut rng = StdRng::seed_from_u64(3);
    for _ in 0..200 {
        match draw_move(&mut rng, &vec![6]).unwrap() {
            Move::Swap { i, j } => assert_eq!((i, j), (6, 6)),
            Move::Shift { i, .. } => assert_eq!(i, 6),
        }
    }
}

#[test]
fn the_same_seed_gives_the_same_moves() {
    let pool: Vec<usize> = (0..30).collect();
    let mut first = StdRng::seed_from_u64(1234);
    let mut second = StdRng::seed_from_u64(1234);
    let mut third = StdRng::seed_from_u64(1235);
    let a: Vec<Move> = (0..100).map(|_| draw_move(&mut first, &pool).unwrap()).collect();
    let b: Vec<Move> = (0..100).map(|_| draw_move(&mut second, &pool).unwrap()).collect();
    let c: Vec<Move> = (0..100).map(|_| draw_move(&mut third, &pool).unwrap()).collect();
    assert_eq!(a, b);
    assert_ne!(a, c);
}

#[test]
fn two_searches_with_the_same_seed_decide_alike() {
    let (problem, solution) = band();
    let config = Config::new(10_000 * UNIT, 60 * UNIT as u64, Policy::ScoreBiased).unwrap();
    let first = search(&problem, &solution, 42, 150, &config);
    let second = search(&problem, &solution, 42, 150, &config);
    assert_eq!(first.decisions.len(), 150);
    assert_eq!(first.decisions, second.decisions);
    assert_eq!(first.moves, second.moves);
    assert_eq!(first.best.placements, second.best.placements);
    assert_eq!(first.best_score, second.best_score);
    assert_eq!(first.best_scores, second.best_scores);
    assert_eq!(first.rate, second.rate);
}

#[test]
fn the_best_score_never_falls_and_is_the_score_of_the_best_placement() {
    let (problem, solution) = band();
    for (seed, policy) in [(1, Policy::Uniform), (2, Policy::ScoreBiased), (3, Policy::Uniform)] {
        let config = Config::new(10_000 * UNIT, 60 * UNIT as u64, policy).unwrap();
        let trace = search(&problem, &solution, seed, 120, &config);
        for pair in trace.best_scores.windows(2) {
            assert!(pair[0] <= pair[1]);
        }
        assert_eq!(*trace.best_scores.last().unwrap(), trace.best_score);
        let all = sights(&problem, &trace.best.placements);
        assert_eq!(score(&problem, &trace.best.placements, &all), trace.best_score);
        assert!(is_valid(&problem, &trace.best.placements));
    }
}

#[test]
fn a_search_never_ends_below_where_it_started() {
    let (problem, solution) = band();
    let all = sights(&problem, &solution.placements);
    let before = score(&problem, &solution.placements, &all);
    for seed in 0..4 {
        // A temperature this high lets nearly every move stand.
        let hot = Config::new(i64::MAX, 60 * UNIT as u64, Policy::Uniform).unwrap();
        let trace = search(&problem, &solution, seed, 100, &hot);
        assert!(trace.best_score >= before);
        let (stood, decided) = trace.rate.unwrap();
        assert_eq!(decided, 100);
        assert!(stood <= decided);
        assert_eq!(stood as usize, trace.decisions.iter().filter(|d| **d).count());
    }
}

#[test]
fn a_cold_search_lets_only_moves_stand_that_do_not_lower_the_score() {
    let (problem, solution) = band();
    let all = sights(&problem, &solution.placements);
    let before = score(&problem, &solution.placements, &all);
    let cold = Config { start_temperature: 1, end_temperature: 1, time_limit: 1000, move_policy: Policy::Uniform };
    assert!(cold.check());
    let trace = search(&problem, &solution, 9, 150, &cold);
    assert!(trace.best_score > before);
    assert!(trace.decisions.iter().any(|d| *d));
    assert!(trace.decisions.iter().any(|d| !*d));
}

#[test]
fn a_search_from_a_placement_that_is_not_allowed_accepts_only_allowed_ones() {
    let (problem, _) = duo();
    let crowded = Solution { placements: vec![at(20, 20), at(22, 20)] };
    assert!(!is_valid(&problem, &crowded.placements));
    let mut optimizer = start(&problem, &crowded);
    // A small shift leaves the two as near as they were: not made.
    assert!(!optimizer.try_move(Move::Shift { i: 0, to_x: true, d: UNIT }));
    assert_eq!(optimizer.placements(), &crowded.placements);
    // A shift that parts them is made, and what then stands is allowed.
    let apart = Move::Shift { i: 1, to_x: true, d: -50 * UNIT };
    assert!(optimizer.try_move(apart));
    let all = sights(&problem, optimizer.placements());
    let new_score = optimizer.weigh(all).unwrap();
    let stands = optimizer.settle(true);
    assert!(stands);
    assert!(is_valid(optimizer.problem(), optimizer.placements()));
    assert_eq!(optimizer.current_score(), new_score);
    assert!(optimizer.best_score() >= new_score);
}

#[test]
fn a_proposed_move_is_made_and_waits_for_its_sights() {
    let (problem, solution) = band();
    let mut optimizer = start(&problem, &solution);
    let mut rng = StdRng::seed_from_u64(7);
    let mut made = 0;
    for _ in 0..50 {
        let before = optimizer.placements().clone();
        match optimizer.propose(&mut rng, Policy::ScoreBiased) {
            Some(mv) => {
                made += 1;
                assert_eq!(optimizer.phase(), Phase::Moved(mv));
                assert!(mv.check(&before));
                let mut moved = State { score: 0, placements: before };
                moved.move_forward(mv);
                assert_eq!(&moved.placements, optimizer.placements());
                assert!(is_valid(optimizer.problem(), optimizer.placements()));
                // Nothing is proposed while a move is under way.
                assert_eq!(optimizer.propose(&mut rng, Policy::ScoreBiased), None);
                let all = sights(&problem, optimizer.placements());
                optimizer.weigh(all).unwrap();
                optimizer.settle(false);
            }
            None => {
                assert_eq!(optimizer.phase(), Phase::Ready);
                assert_eq!(optimizer.placements(), &before);
            }
        }
    }
    assert!(made > 10);
    assert_eq!(optimizer.trials(), made);
}

#[test]
fn a_move_is_made_and_taken_back_on_a_placement() {
    let mut places = vec![at(20, 20), at(50, 50), at(80, 80)];
    let shift = Move::Shift { i: 2, to_x: false, d: 4 * UNIT };
    shift.apply(&mut places);
    assert_eq!(places, vec![at(20, 20), at(50, 50), at(80, 76)]);
    let swap = Move::Swap { i: 2, j: 0 };
    swap.apply(&mut places);
    assert_eq!(places, vec![at(80, 76), at(50, 50), at(20, 20)]);
    swap.invert(&mut places);
    shift.invert(&mut places);
    assert_eq!(places, vec![at(20, 20), at(50, 50), at(80, 80)]);
}

#[test]
fn a_move_is_decided_on_at_a_temperature_against_a_draw() {
    let (problem, solution) = duo();
    let away = Move::Shift { i: 0, to_x: false, d: UNIT };
    let mut optimizer = start(&problem, &solution);
    assert!(optimizer.try_move(away));
    let all = sights(&problem, optimizer.placements());
    let lower = optimizer.weigh(all).unwrap();
    let loss = 992 - lower;
    assert!(loss > 0);
    // At a temperature of one the move stands against a draw whose
    // logarithm is below the loss, and against no other.
    assert!(!optimizer.decide(UNIT, -(loss as i64) * UNIT));
    assert_eq!(optimizer.acceptance(), Some((0, 1)));
    assert_eq!(optimizer.placements(), &solution.placements);
    assert!(optimizer.try_move(away));
    let all = sights(&problem, optimizer.placements());
    assert_eq!(optimizer.weigh(all), Some(lower));
    assert!(optimizer.decide(UNIT, -(loss as i64) * UNIT - 1));
    assert_eq!(optimizer.current_score(), lower);
    assert_eq!(optimizer.best_score(), 992);
    assert_eq!(optimizer.acceptance(), Some((1, 2)));
    // A move back up stands against any draw.
    assert!(optimizer.try_move(Move::Shift { i: 0, to_x: false, d: -UNIT }));
    let all = sights(&problem, optimizer.placements());
    assert_eq!(optimizer.weigh(all), Some(992));
    assert!(optimizer.decide(1, 0));
    // Without a move under way nothing is decided.
    assert!(!optimizer.decide(i64::MAX, i64::MIN));
    assert_eq!(optimizer.acceptance(), Some((2, 3)));
}

#[test]
fn what_was_drawn_is_taken_where_it_can_be_made() {
    let (problem, solution) = duo();
    let mut optimizer = start(&problem, &solution);
    assert_eq!(optimizer.take(None), None);
    assert_eq!(optimizer.phase(), Phase::Ready);
    let off_stage = Move::Shift { i: 0, to_x: true, d: 11 * UNIT };
    assert_eq!(optimizer.take(Some(off_stage)), None);
    assert_eq!(optimizer.placements(), &solution.placements);
    let swap = Move::Swap { i: 0, j: 1 };
    assert_eq!(optimizer.take(Some(swap)), Some(swap));
    assert_eq!(optimizer.phase(), Phase::Moved(swap));
    assert_eq!(optimizer.placements(), &vec![at(80, 80), at(20, 20)]);
    // Nothing more is taken while the move is under way.
    assert_eq!(optimizer.take(Some(swap)), None);
    assert_eq!(optimizer.placements(), &vec![at(80, 80), at(20, 20)]);
}

#[test]
fn a_move_is_proposed_where_every_move_that_may_be_drawn_can_be_made() {
    // Two musicians in the middle of a wide stage, far from each other:
    // no shift by less than one and no swap leads off the stage or too near.
    let (problem, _) = duo();
    let solution = Solution { placements: vec![at(30, 50), at(70, 50)] };
    let mut optimizer = start(&problem, &solution);
    let mut rng = StdRng::seed_from_u64(11);
    for policy in [Policy::Uniform, Policy::ScoreBiased] {
        for _ in 0..200 {
            let before = optimizer.placements().clone();
            let mv = optimizer.propose(&mut rng, policy).unwrap();
            assert_eq!(optimizer.phase(), Phase::Moved(mv));
            // Taken back by sights that do not fit, so that each draw starts from the same place.
            assert_eq!(optimizer.weigh(Vec::new()), None);
            assert_eq!(optimizer.placements(), &before);
        }
    }
}
