use roadsim::deviation::{RoadDeviation, DEV_CENTER, DEV_MAX, STEER_LIMIT};
use roadsim::fuzzy::{Fuzzy, FuzzyError, InputHandle, Trapezoid, DEGREE_ONE};

fn controller() -> (Fuzzy, RoadDeviation) {
    let mut fuzzy = Fuzzy::new();
    let rd = RoadDeviation::new(&mut fuzzy);
    (fuzzy, rd)
}

#[test]
fn controller_handles_are_assigned_in_declaration_order() {
    let (_fuzzy, rd) = controller();
    assert_eq!(rd.input.0, 0);
    assert_eq!(rd.far_left.0, 0);
    assert_eq!(rd.middle_left.0, 1);
    assert_eq!(rd.left.0, 2);
    assert_eq!(rd.middle.0, 3);
    assert_eq!(rd.right.0, 4);
    assert_eq!(rd.middle_right.0, 5);
    assert_eq!(rd.far_right.0, 6);
}

#[test]
fn far_left_membership_values() {
    let (fuzzy, rd) = controller();
    // 0.05 -> 1.0, 0.25 -> 0.0, 0.175 -> 0.5, in fixed point.
    assert_eq!(fuzzy.membership(rd.far_left, 50), DEGREE_ONE);
    assert_eq!(fuzzy.membership(rd.far_left, 250), 0);
    assert_eq!(fuzzy.membership(rd.far_left, 175), DEGREE_ONE / 2);
}

#[test]
fn membership_zero_outside_support() {
    let (fuzzy, rd) = controller();
    assert_eq!(fuzzy.membership(rd.far_left, 300), 0);
    assert_eq!(fuzzy.membership(rd.middle_left, 100), 0);
    assert_eq!(fuzzy.membership(rd.middle_left, 400), 0);
    assert_eq!(fuzzy.membership(rd.middle, 350), 0);
    assert_eq!(fuzzy.membership(rd.middle, 650), 0);
    assert_eq!(fuzzy.membership(rd.right, 500), 0);
    assert_eq!(fuzzy.membership(rd.far_right, 750), 0);
}

#[test]
fn membership_plateaus_and_peaks() {
    let (fuzzy, rd) = controller();
    assert_eq!(fuzzy.membership(rd.left, 0), DEGREE_ONE);
    assert_eq!(fuzzy.membership(rd.left, 349), DEGREE_ONE);
    assert_eq!(fuzzy.membership(rd.middle, 500), DEGREE_ONE);
    assert_eq!(fuzzy.membership(rd.right, 650), DEGREE_ONE);
    assert_eq!(fuzzy.membership(rd.right, 1000), DEGREE_ONE);
    assert_eq!(fuzzy.membership(rd.middle_right, 750), DEGREE_ONE);
    assert_eq!(fuzzy.membership(rd.far_right, 900), DEGREE_ONE);
}

#[test]
fn membership_in_unit_range_everywhere() {
    let (fuzzy, rd) = controller();
    let sets = [
        rd.far_left,
        rd.middle_left,
        rd.left,
        rd.middle,
        rd.right,
        rd.middle_right,
        rd.far_right,
    ];
    for x in 0..=1000i64 {
        for s in sets.iter() {
            let m = fuzzy.membership(*s, x);
            assert!(0 <= m && m <= DEGREE_ONE);
        }
    }
}

#[test]
fn membership_saturates_out_of_range() {
    let (fuzzy, rd) = controller();
    assert_eq!(
        fuzzy.membership(rd.far_left, -50),
        fuzzy.membership(rd.far_left, 0)
    );
    assert_eq!(
        fuzzy.membership(rd.far_right, 2000),
        fuzzy.membership(rd.far_right, 1000)
    );
}

#[test]
fn membership_is_continuous_in_small_steps() {
    let (fuzzy, rd) = controller();
    let sets = [
        rd.far_left,
        rd.middle_left,
        rd.left,
        rd.middle,
        rd.right,
        rd.middle_right,
        rd.far_right,
    ];
    for x in 0..1000i64 {
        for s in sets.iter() {
            let a = fuzzy.membership(*s, x);
            let b = fuzzy.membership(*s, x + 1);
            assert!((a - b).abs() <= 20);
        }
    }
}

#[test]
fn partition_has_no_dead_zone() {
    let (fuzzy, rd) = controller();
    let sets = [
        rd.far_left,
        rd.middle_left,
        rd.left,
        rd.middle,
        rd.right,
        rd.middle_right,
        rd.far_right,
    ];
    for x in 0..=1000i64 {
        assert!(sets.iter().any(|s| fuzzy.membership(*s, x) > 0));
    }
}

#[test]
fn steering_is_zero_at_center() {
    let (fuzzy, rd) = controller();
    assert_eq!(rd.steering(&fuzzy, DEV_CENTER), 0);
}

#[test]
fn steering_is_monotone_and_bounded() {
    let (fuzzy, rd) = controller();
    let mut prev = rd.steering(&fuzzy, 0);
    assert_eq!(prev, STEER_LIMIT);
    for x in 1..=1000i64 {
        let s = rd.steering(&fuzzy, x);
        assert!(s <= prev);
        assert!(-STEER_LIMIT <= s && s <= STEER_LIMIT);
        prev = s;
    }
    assert_eq!(prev, -STEER_LIMIT);
}

#[test]
fn steering_is_odd_about_center() {
    let (fuzzy, rd) = controller();
    for x in 0..=1000i64 {
        assert_eq!(rd.steering(&fuzzy, DEV_MAX - x), -rd.steering(&fuzzy, x));
    }
}

#[test]
fn add_input_rejects_empty_range() {
    let mut fuzzy = Fuzzy::new();
    assert_eq!(fuzzy.add_input(5, 5), Err(FuzzyError::EmptyRange));
    assert_eq!(fuzzy.add_input(7, 3), Err(FuzzyError::EmptyRange));
}

#[test]
fn add_input_rejects_wide_range() {
    let mut fuzzy = Fuzzy::new();
    assert_eq!(
        fuzzy.add_input(0, 2_000_000_000),
        Err(FuzzyError::RangeTooWide)
    );
}

#[test]
fn add_input_set_rejects_unknown_input() {
    let mut fuzzy = Fuzzy::new();
    let shape = Trapezoid { a: 0, b: 1, c: 2, d: 3 };
    assert_eq!(
        fuzzy.add_input_set(InputHandle(0), shape),
        Err(FuzzyError::UnknownInput)
    );
}

#[test]
fn add_input_set_rejects_bad_shape() {
    let mut fuzzy = Fuzzy::new();
    let input = fuzzy.add_input(0, 100).unwrap();
    let shape = Trapezoid { a: 10, b: 5, c: 20, d: 30 };
    assert_eq!(
        fuzzy.add_input_set(input, shape),
        Err(FuzzyError::BadShape)
    );
    let outside = Trapezoid { a: 0, b: 10, c: 20, d: 200 };
    assert_eq!(
        fuzzy.add_input_set(input, outside),
        Err(FuzzyError::BadShape)
    );
}
