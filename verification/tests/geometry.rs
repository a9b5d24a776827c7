use kenkoooo::{normalize_angle, Shadow, Sight, FULL_TURN, HALF_TURN, P, QUARTER_TURN, UNIT};

#[test]
fn the_squared_distance_of_a_point_to_itself_is_zero() {
    let p = P { x: 3 * UNIT, y: -4 * UNIT };
    assert_eq!(p.d2(&p), 0);
}

#[test]
fn the_squared_distance_is_the_sum_of_the_squared_gaps() {
    let a = P { x: 0, y: 0 };
    let b = P { x: 3 * UNIT, y: 4 * UNIT };
    assert_eq!(a.d2(&b), 25 * (UNIT as u128) * (UNIT as u128));
    assert_eq!(b.d2(&a), a.d2(&b));
    let c = P { x: -7, y: 2 };
    let d = P { x: 5, y: -3 };
    assert_eq!(c.d2(&d), 144 + 25);
}

#[test]
fn the_squared_distance_of_far_points_fits() {
    let a = P { x: i64::MIN, y: 0 };
    let b = P { x: i64::MAX, y: 0 };
    let gap = u64::MAX as u128;
    assert_eq!(a.d2(&b), gap * gap);
}

#[test]
fn the_difference_of_two_points_is_taken_by_coordinate() {
    let a = P { x: 10, y: -2 };
    let b = P { x: 4, y: 5 };
    assert_eq!(a.sub(b), P { x: 6, y: -7 });
    assert_eq!(b.sub(a), P { x: -6, y: 7 });
    assert_eq!(a.sub(a), P { x: 0, y: 0 });
}

#[test]
fn a_turn_is_four_quarters() {
    assert_eq!(FULL_TURN, 2 * HALF_TURN);
    assert_eq!(HALF_TURN, 2 * QUARTER_TURN);
}

#[test]
fn a_direction_is_left_as_it_is() {
    assert_eq!(normalize_angle(0), 0);
    assert_eq!(normalize_angle(HALF_TURN), HALF_TURN);
    assert_eq!(normalize_angle(-HALF_TURN + 1), -HALF_TURN + 1);
    assert_eq!(normalize_angle(QUARTER_TURN), QUARTER_TURN);
    assert_eq!(normalize_angle(-QUARTER_TURN), -QUARTER_TURN);
}

#[test]
fn an_angle_beyond_the_seam_is_wrapped() {
    assert_eq!(normalize_angle(HALF_TURN + 1), -HALF_TURN + 1);
    assert_eq!(normalize_angle(HALF_TURN + QUARTER_TURN), -QUARTER_TURN);
    assert_eq!(normalize_angle(-HALF_TURN), HALF_TURN);
    assert_eq!(normalize_angle(-HALF_TURN - 1), HALF_TURN - 1);
    assert_eq!(normalize_angle(-HALF_TURN - QUARTER_TURN), QUARTER_TURN);
    assert_eq!(normalize_angle(FULL_TURN), 0);
    assert_eq!(normalize_angle(-FULL_TURN), 0);
}

#[test]
fn the_ends_of_the_range_are_wrapped() {
    // The least value is two turns below zero.
    assert_eq!(normalize_angle(i64::MIN), 0);
    assert_eq!(normalize_angle(i64::MAX), -1);
}

#[test]
fn a_shadow_has_its_ends_either_side_of_its_bearing() {
    let s = Shadow { bearing: 1000, half_width: 100 };
    assert!(s.check());
    assert_eq!(s.ends(), (900, 1100));
}

#[test]
fn a_shadow_across_the_seam_starts_above_its_end() {
    let s = Shadow { bearing: HALF_TURN - 10, half_width: 100 };
    assert!(s.check());
    assert_eq!(s.ends(), (HALF_TURN - 110, -HALF_TURN + 90));
    let t = Shadow { bearing: -HALF_TURN + 10, half_width: 100 };
    assert!(t.check());
    assert_eq!(t.ends(), (HALF_TURN - 90, -HALF_TURN + 110));
}

#[test]
fn a_shadow_out_of_range_is_not_well_formed() {
    assert!(!Shadow { bearing: -HALF_TURN, half_width: 0 }.check());
    assert!(!Shadow { bearing: HALF_TURN + 1, half_width: 0 }.check());
    assert!(!Shadow { bearing: 0, half_width: -1 }.check());
    assert!(!Shadow { bearing: 0, half_width: QUARTER_TURN + 1 }.check());
    assert!(Shadow { bearing: HALF_TURN, half_width: QUARTER_TURN }.check());
    assert!(Shadow { bearing: 0, half_width: 0 }.check());
}

#[test]
fn a_musician_within_the_blocking_distance_hides_a_half_plane() {
    let center = P { x: 0, y: 0 };
    let same = Shadow::cast(center, center, 0, 0);
    assert_eq!(same, Shadow { bearing: 0, half_width: QUARTER_TURN });
    let near = Shadow::cast(center, P { x: 3 * UNIT, y: 4 * UNIT }, 77, 5);
    assert_eq!(near, Shadow { bearing: 77, half_width: QUARTER_TURN });
    let just_outside = Shadow::cast(center, P { x: 3 * UNIT, y: 4 * UNIT + 1 }, 77, 5);
    assert_eq!(just_outside, Shadow { bearing: 77, half_width: 5 });
}

#[test]
fn a_cast_shadow_is_well_formed_whatever_is_given() {
    let center = P { x: 0, y: 0 };
    let far = P { x: 100 * UNIT, y: 0 };
    let wide = Shadow::cast(center, far, HALF_TURN + 5, QUARTER_TURN + 9);
    assert_eq!(wide, Shadow { bearing: -HALF_TURN + 5, half_width: QUARTER_TURN });
    assert!(wide.check());
    let negative = Shadow::cast(center, far, -HALF_TURN, -3);
    assert_eq!(negative, Shadow { bearing: HALF_TURN, half_width: 0 });
    assert!(negative.check());
    let extreme = Shadow::cast(P { x: i64::MIN, y: i64::MIN }, P { x: i64::MAX, y: i64::MAX }, i64::MAX, i64::MIN);
    assert!(extreme.check());
}

#[test]
fn a_sight_with_an_attendee_out_of_range_is_not_well_formed() {
    let good = Sight { attendees: vec![0, HALF_TURN, -HALF_TURN + 1], shadows: vec![Shadow { bearing: 0, half_width: 1 }] };
    assert!(good.check());
    let low = Sight { attendees: vec![0, -HALF_TURN], shadows: Vec::new() };
    assert!(!low.check());
    let high = Sight { attendees: vec![HALF_TURN + 1], shadows: Vec::new() };
    assert!(!high.check());
    let shadow = Sight { attendees: vec![0], shadows: vec![Shadow { bearing: 0, half_width: -1 }] };
    assert!(!shadow.check());
    let empty = Sight { attendees: Vec::new(), shadows: Vec::new() };
    assert!(empty.check());
}
