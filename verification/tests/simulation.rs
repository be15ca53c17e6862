use roadsim::car::{AddCarMode, Car, CarState, CarSystem, CarType, StreetLight};
use roadsim::deviation::DEV_CENTER;
use roadsim::geom::{ControlPoint, Vec2};
use roadsim::network::{Backbone, CrossSection, Location, Road, RoadNetwork};
use roadsim::planner::find_path;

fn cp(x: i64, y: i64, dx: i64, dy: i64) -> ControlPoint {
    ControlPoint { position: Vec2 { x, y }, direction: Vec2 { x: dx, y: dy } }
}

fn loc(name: &str) -> Location {
    Location { name: name.as_bytes().to_vec() }
}

/// Locations A, B, C: a road A -> B and a cross-section (A, B, C).
fn abc_network() -> RoadNetwork {
    RoadNetwork::build(Backbone {
        locations: vec![loc("A"), loc("B"), loc("C")],
        roads: vec![Road {
            from: 0,
            to: 1,
            points: vec![
                cp(200_000, 500_000, 10_000, 0),
                cp(400_000, 500_000, 10_000, 0),
            ],
        }],
        cross_sections: vec![CrossSection {
            from: 0,
            across: 1,
            to: 2,
            points: vec![
                cp(400_000, 500_000, 10_000, 0),
                cp(500_000, 600_000, 0, 10_000),
            ],
        }],
    })
    .unwrap()
}

/// Two roads in disconnected subgraphs: A -> B and D -> E.
fn disconnected_network() -> RoadNetwork {
    RoadNetwork::build(Backbone {
        locations: vec![loc("A"), loc("B"), loc("D"), loc("E")],
        roads: vec![
            Road {
                from: 0,
                to: 1,
                points: vec![
                    cp(200_000, 500_000, 10_000, 0),
                    cp(400_000, 500_000, 10_000, 0),
                ],
            },
            Road {
                from: 2,
                to: 3,
                points: vec![
                    cp(200_000, 900_000, 10_000, 0),
                    cp(400_000, 900_000, 10_000, 0),
                ],
            },
        ],
        cross_sections: vec![],
    })
    .unwrap()
}

#[test]
fn find_path_resolves_road_then_cross_section() {
    let n = abc_network();
    // A point on the A -> B road, and a point just past the junction on
    // the connector toward C.
    let on_road = Vec2 { x: 250_000, y: 500_000 };
    let past_cross = Vec2 { x: 495_000, y: 590_000 };
    let path = find_path(&n, on_road, past_cross).unwrap();
    assert_eq!(path, vec![0usize, 1usize]);
}

#[test]
fn find_path_same_segment_is_single_step() {
    let n = abc_network();
    let a = Vec2 { x: 220_000, y: 500_000 };
    let b = Vec2 { x: 380_000, y: 500_000 };
    assert_eq!(find_path(&n, a, b).unwrap(), vec![0usize]);
}

#[test]
fn find_path_returns_none_across_disconnected_subgraphs() {
    let n = disconnected_network();
    let on_first = Vec2 { x: 250_000, y: 500_000 };
    let on_second = Vec2 { x: 250_000, y: 900_000 };
    assert!(find_path(&n, on_first, on_second).is_none());
    assert!(find_path(&n, on_second, on_first).is_none());
}

#[test]
fn from_positions_plans_a_route() {
    let n = abc_network();
    let car = Car::from_positions(
        &n,
        Vec2 { x: 250_000, y: 500_000 },
        Vec2 { x: 495_000, y: 590_000 },
        CarType::Normal,
    )
    .unwrap();
    assert_eq!(car.path, vec![0usize, 1usize]);
    assert_eq!(car.state, CarState::GoNormal);
    assert_eq!(car.seg_index, 0);
    assert_eq!(car.progress, 0);
    assert_eq!(car.deviation, DEV_CENTER);
}

#[test]
fn from_positions_fails_recoverably_without_route() {
    let n = disconnected_network();
    let car = Car::from_positions(
        &n,
        Vec2 { x: 250_000, y: 500_000 },
        Vec2 { x: 250_000, y: 900_000 },
        CarType::Normal,
    );
    assert!(car.is_none());
}

#[test]
fn vehicle_converges_to_lane_center() {
    let n = abc_network();
    let sys = CarSystem::new();
    let mut car = Car::from_positions(
        &n,
        Vec2 { x: 210_000, y: 500_000 },
        Vec2 { x: 390_000, y: 500_000 },
        CarType::Slow,
    )
    .unwrap();
    car.deviation = 950;
    let lights: Vec<StreetLight> = vec![];
    let mut prev = car.deviation;
    for _ in 0..20 {
        car = car.tick(&n, &sys.fuzzy, &sys.road_deviation, &lights, 1);
        if matches!(car.state, CarState::Idle) {
            break;
        }
        // Never past the centerline, never away from it; strictly closer
        // while at least two fixed-point steps away.
        assert!(DEV_CENTER <= car.deviation && car.deviation <= prev);
        if prev - DEV_CENTER >= 2 {
            assert!(car.deviation < prev);
        }
        prev = car.deviation;
    }
    assert!(prev - DEV_CENTER <= 1);
}

#[test]
fn vehicle_stops_at_active_signal_and_resumes() {
    let n = abc_network();
    let sys = CarSystem::new();
    // One 16-step segment; the car starts 10 steps in, 6 from the end,
    // inside the look-ahead window of the signal at the junction.
    let mut car = Car::from_positions(
        &n,
        Vec2 { x: 210_000, y: 500_000 },
        Vec2 { x: 390_000, y: 500_000 },
        CarType::Normal,
    )
    .unwrap();
    car.progress = 10;
    let red = vec![StreetLight { segment: 0, active: true }];
    let green = vec![StreetLight { segment: 0, active: false }];

    car = car.tick(&n, &sys.fuzzy, &sys.road_deviation, &red, 1);
    assert_eq!(car.state, CarState::StoppedAtSignal);
    assert_eq!(car.progress, 10);
    // It stays stopped while the signal is active: it never skips the stop.
    car = car.tick(&n, &sys.fuzzy, &sys.road_deviation, &red, 1);
    assert_eq!(car.state, CarState::StoppedAtSignal);
    assert_eq!(car.progress, 10);

    car = car.tick(&n, &sys.fuzzy, &sys.road_deviation, &green, 1);
    assert_eq!(car.state, CarState::GoNormal);
    assert_eq!(car.progress, 14);
}

#[test]
fn stop_is_never_skipped_by_a_large_tick() {
    let n = abc_network();
    let sys = CarSystem::new();
    // A single 16-step segment gated by an active signal, with the car at
    // its very start, outside the fixed look-ahead.
    let mut car = Car::from_positions(
        &n,
        Vec2 { x: 210_000, y: 500_000 },
        Vec2 { x: 390_000, y: 500_000 },
        CarType::Normal,
    )
    .unwrap();
    let red = vec![StreetLight { segment: 0, active: true }];

    // One tick of dt = 4 would advance 16 steps — the whole segment. The
    // stop window widens to the tick's advance, so the car stops instead
    // of leaping past the signal.
    car = car.tick(&n, &sys.fuzzy, &sys.road_deviation, &red, 4);
    assert_eq!(car.state, CarState::StoppedAtSignal);
    assert_eq!(car.progress, 0);

    // With dt = 3 (advance 12, window 12) the car may drive 12 steps in,
    // still inside the segment, and must stop on the following tick.
    let mut car2 = Car::from_positions(
        &n,
        Vec2 { x: 210_000, y: 500_000 },
        Vec2 { x: 390_000, y: 500_000 },
        CarType::Normal,
    )
    .unwrap();
    car2 = car2.tick(&n, &sys.fuzzy, &sys.road_deviation, &red, 3);
    assert_eq!(car2.state, CarState::GoNormal);
    assert_eq!(car2.progress, 12);
    car2 = car2.tick(&n, &sys.fuzzy, &sys.road_deviation, &red, 3);
    assert_eq!(car2.state, CarState::StoppedAtSignal);
    assert_eq!(car2.progress, 12);
}

#[test]
fn vehicle_becomes_idle_at_path_end_and_is_removed() {
    let n = abc_network();
    let mut sys = CarSystem::new();
    let car = Car::from_positions(
        &n,
        Vec2 { x: 210_000, y: 500_000 },
        Vec2 { x: 390_000, y: 500_000 },
        CarType::Normal,
    )
    .unwrap();
    sys.add(car, &n);
    assert_eq!(sys.cars.len(), 1);
    let lights: Vec<StreetLight> = vec![];
    // 16 steps at speed 4: four ticks to the end, one more to retire.
    for _ in 0..5 {
        sys.update(&n, &lights, 1);
    }
    assert_eq!(sys.cars.len(), 0);
}

#[test]
fn placement_command_sequence_adds_a_car() {
    let n = abc_network();
    let mut sys = CarSystem::new();
    sys.begin_add(CarType::Slow);
    assert!(matches!(sys.add_car, AddCarMode::Adding));
    assert_eq!(sys.handle_click(&n, Vec2 { x: 250_000, y: 500_000 }), None);
    assert!(matches!(sys.add_car, AddCarMode::AddedPoint(_)));
    assert_eq!(sys.handle_click(&n, Vec2 { x: 495_000, y: 590_000 }), Some(true));
    assert!(matches!(sys.add_car, AddCarMode::Nope));
    assert_eq!(sys.cars.len(), 1);
    assert_eq!(sys.cars[0].car_type, CarType::Slow);
    assert_eq!(sys.cars[0].state, CarState::Slow);
    assert_eq!(sys.cars[0].id, 0);
    assert_eq!(sys.next_id, 1);
}

#[test]
fn placement_is_discarded_when_no_route_exists() {
    let n = disconnected_network();
    let mut sys = CarSystem::new();
    sys.begin_add(CarType::Normal);
    assert_eq!(sys.handle_click(&n, Vec2 { x: 250_000, y: 500_000 }), None);
    assert_eq!(sys.handle_click(&n, Vec2 { x: 250_000, y: 900_000 }), Some(false));
    assert!(matches!(sys.add_car, AddCarMode::Nope));
    assert_eq!(sys.cars.len(), 0);
}

#[test]
fn cancel_resets_placement_mode() {
    let mut sys = CarSystem::new();
    sys.begin_add(CarType::Normal);
    sys.cancel_add();
    assert!(matches!(sys.add_car, AddCarMode::Nope));
}

#[test]
fn click_selects_a_nearby_car_and_sets_change_flag() {
    let n = abc_network();
    let mut sys = CarSystem::new();
    let car = Car::from_positions(
        &n,
        Vec2 { x: 210_000, y: 500_000 },
        Vec2 { x: 390_000, y: 500_000 },
        CarType::Normal,
    )
    .unwrap();
    sys.add(car, &n);
    assert!(!sys.take_chosen_changed());
    // The car sits at the start of its lane; click right there.
    sys.handle_click(&n, Vec2 { x: 200_000, y: 500_000 });
    assert_eq!(sys.chosen_car, Some(0));
    assert!(sys.take_chosen_changed());
    assert!(!sys.take_chosen_changed());
    let idx = sys.find_car_index(0).unwrap();
    assert_eq!(sys.cars[idx].path, vec![0usize]);
    // A click far from any car clears the selection.
    sys.handle_click(&n, Vec2 { x: 900_000_000, y: 900_000_000 });
    assert_eq!(sys.chosen_car, None);
    assert!(sys.take_chosen_changed());
}
