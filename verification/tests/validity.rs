use kenkoooo::{far_apart, is_valid, Problem, P, RADIUS, UNIT};

fn stage(left: i64, bottom: i64, width: i64, height: i64, musicians: usize) -> Problem {
    Problem {
        stage_width: width * UNIT,
        stage_height: height * UNIT,
        stage_bottom_left: (left * UNIT, bottom * UNIT),
        musicians: vec![0; musicians],
        attendees: Vec::new(),
        pillars: Vec::new(),
        playing_together: None,
    }
}

fn at(x: i64, y: i64) -> P {
    P { x: x * UNIT, y: y * UNIT }
}

#[test]
fn two_musicians_far_apart_are_valid() {
    assert!(is_valid(&stage(0, 0, 100, 100, 2), &[at(20, 20), at(80, 80)]));
}

#[test]
fn two_musicians_at_one_place_are_invalid() {
    assert!(!is_valid(&stage(0, 0, 100, 100, 2), &[at(20, 20), at(20, 20)]));
}

#[test]
fn a_wrong_number_of_places_is_invalid() {
    let problem = stage(0, 0, 100, 100, 2);
    assert!(!is_valid(&problem, &[at(20, 20)]));
    assert!(!is_valid(&problem, &[at(20, 20), at(50, 50), at(80, 80)]));
    assert!(!is_valid(&problem, &[]));
}

#[test]
fn no_musicians_and_no_places_are_valid() {
    assert!(is_valid(&stage(0, 0, 100, 100, 0), &[]));
}

#[test]
fn the_radius_is_ten() {
    assert_eq!(RADIUS, 10 * UNIT);
}

#[test]
fn a_place_on_the_inner_edge_is_valid_and_one_tick_outside_is_not() {
    let problem = stage(5, 7, 100, 60, 1);
    let left = 15 * UNIT;
    let right = 95 * UNIT;
    let bottom = 17 * UNIT;
    let top = 57 * UNIT;
    assert!(is_valid(&problem, &[P { x: left, y: bottom }]));
    assert!(is_valid(&problem, &[P { x: right, y: top }]));
    assert!(!is_valid(&problem, &[P { x: left - 1, y: bottom }]));
    assert!(!is_valid(&problem, &[P { x: left, y: bottom - 1 }]));
    assert!(!is_valid(&problem, &[P { x: right + 1, y: top }]));
    assert!(!is_valid(&problem, &[P { x: right, y: top + 1 }]));
}

#[test]
fn a_stage_too_small_for_the_radius_holds_nobody() {
    let problem = stage(0, 0, 19, 100, 1);
    assert!(!is_valid(&problem, &[at(9, 50)]));
    assert!(!is_valid(&problem, &[at(10, 50)]));
}

#[test]
fn musicians_exactly_a_radius_apart_are_valid_and_a_tick_nearer_are_not() {
    let problem = stage(0, 0, 100, 100, 2);
    let a = at(20, 20);
    assert!(is_valid(&problem, &[a, P { x: a.x + RADIUS, y: a.y }]));
    assert!(!is_valid(&problem, &[a, P { x: a.x + RADIUS - 1, y: a.y }]));
    // 6-8-10 triangle: exactly the radius along the diagonal.
    assert!(is_valid(&problem, &[a, P { x: a.x + 6 * UNIT, y: a.y + 8 * UNIT }]));
    assert!(!is_valid(&problem, &[a, P { x: a.x + 6 * UNIT, y: a.y + 8 * UNIT - 1 }]));
}

#[test]
fn the_first_pair_too_near_makes_a_placement_invalid() {
    let problem = stage(0, 0, 100, 100, 3);
    assert!(is_valid(&problem, &[at(20, 20), at(50, 50), at(80, 80)]));
    assert!(!is_valid(&problem, &[at(20, 20), at(50, 50), at(55, 50)]));
    assert!(!is_valid(&problem, &[at(20, 20), at(25, 20), at(80, 80)]));
}

#[test]
fn far_apart_holds_over_the_whole_range_of_coordinates() {
    let low = P { x: i64::MIN, y: i64::MIN };
    let high = P { x: i64::MAX, y: i64::MAX };
    assert!(far_apart(low, high));
    assert!(far_apart(high, low));
    assert!(!far_apart(low, low));
    assert!(!far_apart(high, P { x: i64::MAX - 1, y: i64::MAX }));
}

#[test]
fn validity_holds_on_a_stage_at_the_end_of_the_range() {
    let problem = Problem {
        stage_width: i64::MAX,
        stage_height: i64::MAX,
        stage_bottom_left: (i64::MAX - 100 * UNIT, i64::MAX - 100 * UNIT),
        musicians: vec![0],
        attendees: Vec::new(),
        pillars: Vec::new(),
        playing_together: None,
    };
    assert!(is_valid(&problem, &[P { x: i64::MAX, y: i64::MAX }]));
    assert!(!is_valid(&problem, &[P { x: i64::MAX - 100 * UNIT, y: i64::MAX }]));
}
