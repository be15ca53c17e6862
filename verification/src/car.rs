//! The vehicle controller: each car follows a planned route segment by
//! segment, corrects its lateral deviation through the fuzzy deviation
//! controller once per simulation step, and runs a behavioral state
//! machine (driving, slow driving, stopped at an active signal, done).
//!
//! Modeling decision: a vehicle's pose is kept in the lane frame — its
//! longitudinal progress along the route plus its normalized lateral
//! deviation — and its world position is derived from the route's
//! centerline. There is no separately integrated world pose or heading,
//! so the deviation is the state the controller acts on directly rather
//! than a quantity re-measured against the centerline each step; the
//! per-step feedback `dev_step` plays the role of measuring, steering and
//! integrating in one exact update.

use vstd::prelude::*;
use vstd::arithmetic::div_mod::{
    lemma_div_by_self, lemma_div_is_ordered, lemma_div_multiples_vanish, lemma_div_pos_is_pos,
};
use crate::deviation::{
    lemma_steering_bounds, steering_value, RoadDeviation, DEV_CENTER, DEV_MAX,
};
use crate::fuzzy::Fuzzy;
use crate::geom::{div_signed, div_tz, Vec2};
use crate::geom::geo_ok;
use crate::network::{network_wf, RoadNetwork};
use crate::planner::{
    clamp_query, clamp_query_ex, dist2, dist2_ex, find_path, is_route, linked,
    nearest_segment_spec, query_ok, seg_count, tess_of,
};

verus! {

/// Parameter steps a normal car advances per time unit.
pub const NORMAL_SPEED: u64 = 4;

/// Parameter steps a slow car advances per time unit.
pub const SLOW_SPEED: u64 = 2;

/// Largest time step one tick may cover.
pub const MAX_DT: u64 = 10_000;

/// A car reacts to an active signal within this many parameter steps of
/// its current segment's end.
pub const LOOKAHEAD: u64 = 8;

/// Divisor applied to the raw steering correction per tick.
pub const STEER_GAIN: i64 = 40;

#[derive(Clone, Copy, PartialEq, Eq, Structural, Debug)]
pub enum CarType {
    Normal,
    Slow,
}

#[derive(Clone, Copy, PartialEq, Eq, Structural, Debug)]
pub enum CarState {
    /// Terminal: the car finished its route and awaits removal.
    Idle,
    GoNormal,
    Slow,
    StoppedAtSignal,
}

/// A traffic control gating the far end of one segment.
#[derive(Clone, Copy, PartialEq, Eq, Structural, Debug)]
pub struct StreetLight {
    pub segment: usize,
    pub active: bool,
}

/// One simulated vehicle.
#[derive(Debug)]
pub struct Car {
    pub id: u64,
    pub car_type: CarType,
    pub state: CarState,
    /// The planned route, as segment indices of the network.
    pub path: Vec<usize>,
    /// Index into `path` of the segment being driven.
    pub seg_index: usize,
    /// Longitudinal progress on that segment, in tessellation steps.
    pub progress: u64,
    /// Normalized lateral deviation in `[0, DEV_MAX]`; the lane-frame
    /// state the controller acts on (see the module note).
    pub deviation: i64,
}

pub open spec fn drive_state(t: CarType) -> CarState {
    match t {
        CarType::Normal => CarState::GoNormal,
        CarType::Slow => CarState::Slow,
    }
}

pub open spec fn speed_of(t: CarType) -> int {
    match t {
        CarType::Normal => NORMAL_SPEED as int,
        CarType::Slow => SLOW_SPEED as int,
    }
}

/// Parameter length of segment `s`: 16 steps per centerline Bezier.
pub open spec fn seg_len(n: RoadNetwork, s: int) -> int {
    let nr = n.backbone.roads@.len() as int;
    if s < nr {
        16 * n.lanes@[s].center@.len() as int
    } else {
        16 * n.cross_geometries@[s - nr].center@.len() as int
    }
}

/// A car consistent with the network it drives on.
pub open spec fn car_wf(c: Car, n: RoadNetwork) -> bool {
    &&& c.path@.len() >= 1
    &&& forall|i: int| 0 <= i < c.path@.len() ==> (#[trigger] c.path@[i]) < seg_count(n)
    &&& forall|i: int|
        0 <= i < c.path@.len() - 1 ==> linked(n, #[trigger] c.path@[i] as int, c.path@[i + 1] as int)
    &&& c.seg_index < c.path@.len()
    &&& 0 <= c.progress <= seg_len(n, c.path@[c.seg_index as int] as int)
    &&& 0 <= c.deviation <= DEV_MAX
}

/// The distance within which an active signal takes effect: the fixed
/// look-ahead, widened to at least one tick's advance so that a moving
/// car can never leap past a gated segment end in a single step.
pub open spec fn stop_window(t: CarType, dt: int) -> int {
    if speed_of(t) * dt >= LOOKAHEAD {
        speed_of(t) * dt
    } else {
        LOOKAHEAD as int
    }
}

/// An active signal gates the car's current segment within the car's
/// stop window.
pub open spec fn approaching_stop(n: RoadNetwork, c: Car, lights: Seq<StreetLight>, dt: int) -> bool {
    exists|i: int|
        0 <= i < lights.len() && (#[trigger] lights[i]).active && lights[i].segment == c.path@[
            c.seg_index as int] && seg_len(n, c.path@[c.seg_index as int] as int) - c.progress
            <= stop_window(c.car_type, dt)
}

/// Some active signal gates the car's current segment, at any distance.
pub open spec fn gated(n: RoadNetwork, c: Car, lights: Seq<StreetLight>) -> bool {
    exists|i: int|
        0 <= i < lights.len() && (#[trigger] lights[i]).active && lights[i].segment == c.path@[
            c.seg_index as int]
}

/// The car's progress has reached the end of the last route segment.
pub open spec fn at_path_end(n: RoadNetwork, c: Car) -> bool {
    c.seg_index == c.path@.len() - 1 && c.progress == seg_len(
        n,
        c.path@[c.seg_index as int] as int,
    )
}

/// One controller step of the normalized deviation.
pub open spec fn dev_step(x: int) -> int {
    x + div_tz(steering_value(x), STEER_GAIN as int)
}

/// The full per-tick transition of one car.
pub open spec fn step_spec(n: RoadNetwork, c: Car, lights: Seq<StreetLight>, dt: int) -> Car {
    if c.state is Idle {
        c
    } else if at_path_end(n, c) {
        Car { state: CarState::Idle, ..c }
    } else if approaching_stop(n, c, lights, dt) {
        Car { state: CarState::StoppedAtSignal, ..c }
    } else {
        let s = c.path@[c.seg_index as int] as int;
        let plen = seg_len(n, s);
        let adv = speed_of(c.car_type) * dt;
        let dev = dev_step(c.deviation as int) as i64;
        if c.progress + adv >= plen {
            if c.seg_index == c.path@.len() - 1 {
                Car { state: drive_state(c.car_type), progress: plen as u64, deviation: dev, ..c }
            } else {
                Car {
                    state: drive_state(c.car_type),
                    seg_index: (c.seg_index + 1) as usize,
                    progress: 0,
                    deviation: dev,
                    ..c
                }
            }
        } else {
            Car {
                state: drive_state(c.car_type),
                progress: (c.progress + adv) as u64,
                deviation: dev,
                ..c
            }
        }
    }
}

/// Vehicle convergence: one controller step never moves the deviation
/// across the centerline nor away from it, and while the car is at least
/// two fixed-point steps off center it strictly approaches it.
pub proof fn lemma_deviation_converges(x: int)
    requires
        0 <= x <= DEV_MAX,
    ensures
        0 <= dev_step(x) <= DEV_MAX,
        x >= DEV_CENTER ==> DEV_CENTER <= dev_step(x) <= x,
        x <= DEV_CENTER ==> x <= dev_step(x) <= DEV_CENTER,
        x - DEV_CENTER >= 2 ==> dev_step(x) <= x - 1,
        DEV_CENTER - x >= 2 ==> dev_step(x) >= x + 1,
{
    lemma_steering_bounds(x);
    let s = steering_value(x);
    if x >= DEV_CENTER {
        let d = x - DEV_CENTER;
        assert(-40 * d <= s <= -20 * d);
        let m = -s;
        assert(0 <= m <= 40 * d);
        lemma_div_pos_is_pos(m, 40);
        lemma_div_is_ordered(m, 40 * d, 40);
        lemma_div_multiples_vanish(d, 40);
        assert(40 * d == 40 * d);
        assert(m / 40 <= d);
        assert(div_tz(s, 40) == -(m / 40));
        if d >= 2 {
            assert(m >= 20 * d >= 40);
            lemma_div_is_ordered(40, m, 40);
            lemma_div_by_self(40);
            assert(m / 40 >= 1);
        }
    } else {
        let d = DEV_CENTER - x;
        assert(20 * d <= s <= 40 * d);
        lemma_div_pos_is_pos(s, 40);
        lemma_div_is_ordered(s, 40 * d, 40);
        lemma_div_multiples_vanish(d, 40);
        assert(s / 40 <= d);
        assert(div_tz(s, 40) == s / 40);
        if d >= 2 {
            assert(s >= 20 * d >= 40);
            lemma_div_is_ordered(40, s, 40);
            lemma_div_by_self(40);
            assert(s / 40 >= 1);
        }
    }
}

/// Vehicle convergence, at the level of one simulation step: a driving
/// car's deviation never moves away from the lane center, and strictly
/// approaches it while at least two fixed-point steps away.
pub proof fn lemma_step_deviation(n: RoadNetwork, c: Car, lights: Seq<StreetLight>, dt: int)
    requires
        0 <= c.deviation <= DEV_MAX,
    ensures
        c.deviation >= DEV_CENTER ==> DEV_CENTER <= step_spec(n, c, lights, dt).deviation
            <= c.deviation,
        c.deviation <= DEV_CENTER ==> c.deviation <= step_spec(n, c, lights, dt).deviation
            <= DEV_CENTER,
        !(c.state is Idle) && !at_path_end(n, c) && !approaching_stop(n, c, lights, dt)
            && c.deviation - DEV_CENTER >= 2 ==> step_spec(n, c, lights, dt).deviation
            <= c.deviation - 1,
        !(c.state is Idle) && !at_path_end(n, c) && !approaching_stop(n, c, lights, dt)
            && DEV_CENTER - c.deviation >= 2 ==> step_spec(n, c, lights, dt).deviation
            >= c.deviation + 1,
{
    lemma_deviation_converges(c.deviation as int);
}

/// Stopping is never skipped: a live car within look-ahead of an active
/// signal neither advances nor changes anything but its state, which
/// becomes `StoppedAtSignal`.
pub proof fn lemma_stop_transition(n: RoadNetwork, c: Car, lights: Seq<StreetLight>, dt: int)
    requires
        !(c.state is Idle),
        !at_path_end(n, c),
        approaching_stop(n, c, lights, dt),
    ensures
        step_spec(n, c, lights, dt).state is StoppedAtSignal,
        step_spec(n, c, lights, dt).progress == c.progress,
        step_spec(n, c, lights, dt).seg_index == c.seg_index,
        step_spec(n, c, lights, dt).deviation == c.deviation,
{
}

/// Once the signal clears, a stopped car resumes the driving state of its
/// type.
pub proof fn lemma_resume_transition(n: RoadNetwork, c: Car, lights: Seq<StreetLight>, dt: int)
    requires
        c.state is StoppedAtSignal,
        !at_path_end(n, c),
        !approaching_stop(n, c, lights, dt),
    ensures
        step_spec(n, c, lights, dt).state == drive_state(c.car_type),
{
}

/// A car whose progress reaches its route's end becomes idle, whatever
/// state it was driving in.
pub proof fn lemma_path_end_transition(n: RoadNetwork, c: Car, lights: Seq<StreetLight>, dt: int)
    requires
        !(c.state is Idle),
        at_path_end(n, c),
    ensures
        step_spec(n, c, lights, dt).state is Idle,
        step_spec(n, c, lights, dt).progress == c.progress,
{
}

/// The stop is never skipped: while an active signal gates the car's
/// current segment, one tick never carries the car across that segment's
/// end — the car either stands stopped where it was, or keeps driving
/// strictly inside the segment. The stop window is at least one tick's
/// advance, so no step size can leap over an active signal.
pub proof fn lemma_never_skips_stop(n: RoadNetwork, c: Car, lights: Seq<StreetLight>, dt: int)
    requires
        !(c.state is Idle),
        !at_path_end(n, c),
        gated(n, c, lights),
        0 <= dt,
    ensures
        step_spec(n, c, lights, dt).seg_index == c.seg_index,
        step_spec(n, c, lights, dt).path@ == c.path@,
        step_spec(n, c, lights, dt).state is StoppedAtSignal ==> step_spec(
            n,
            c,
            lights,
            dt,
        ).progress == c.progress,
        !(step_spec(n, c, lights, dt).state is StoppedAtSignal) ==> step_spec(
            n,
            c,
            lights,
            dt,
        ).progress < seg_len(n, c.path@[c.seg_index as int] as int),
{
    if approaching_stop(n, c, lights, dt) {
    } else {
        let i = choose|i: int|
            0 <= i < lights.len() && (#[trigger] lights[i]).active && lights[i].segment == c.path@[
                c.seg_index as int];
        assert(seg_len(n, c.path@[c.seg_index as int] as int) - c.progress > stop_window(
            c.car_type,
            dt,
        ));
        assert(speed_of(c.car_type) * dt >= 0) by (nonlinear_arith)
            requires
                speed_of(c.car_type) >= 0,
                dt >= 0,
        ;
    }
}

impl Car {
    /// Advances this car by one simulation step of `dt` time units,
    /// against a consistent snapshot of the network and the signals.
    #[verifier::loop_isolation(false)]
    pub fn tick(self, n: &RoadNetwork, fuzzy: &Fuzzy, rd: &RoadDeviation, lights: &Vec<
        StreetLight,
    >, dt: u64) -> (c: Car)
        requires
            network_wf(*n),
            car_wf(self, *n),
            rd.wf_for(*fuzzy),
            0 < dt <= MAX_DT,
        ensures
            c == step_spec(*n, self, lights@, dt as int),
            car_wf(c, *n),
    {
        proof {
            lemma_seg_len_bounds(*n, self.path@[self.seg_index as int] as int);
        }
        if matches!(self.state, CarState::Idle) {
            return self;
        }
        let nr = n.backbone.roads.len();
        let seg = self.path[self.seg_index];
        let plen: u64 = if seg < nr {
            16 * (n.lanes[seg].center.len() as u64)
        } else {
            16 * (n.cross_geometries[seg - nr].center.len() as u64)
        };
        let at_end = self.seg_index == self.path.len() - 1 && self.progress == plen;
        if at_end {
            return Car { state: CarState::Idle, ..self };
        }
        let speed: u64 = match self.car_type {
            CarType::Normal => NORMAL_SPEED,
            CarType::Slow => SLOW_SPEED,
        };
        proof {
            assert(speed * dt <= 40_000 && speed * dt >= 0) by (nonlinear_arith)
                requires
                    0 < speed <= 4,
                    0 < dt <= MAX_DT,
                    MAX_DT == 10_000u64,
            ;
        }
        let adv: u64 = speed * dt;
        let window: u64 = if LOOKAHEAD >= adv {
            LOOKAHEAD
        } else {
            adv
        };
        proof {
            assert(window == stop_window(self.car_type, dt as int));
        }
        let mut stop = false;
        let mut i: usize = 0;
        while i < lights.len()
            invariant
                i <= lights@.len(),
                seg == self.path@[self.seg_index as int],
                plen == seg_len(*n, seg as int),
                self.progress <= plen,
                window == stop_window(self.car_type, dt as int),
                stop ==> approaching_stop(*n, self, lights@, dt as int),
                !stop ==> forall|j: int|
                    0 <= j < i ==> !((#[trigger] lights@[j]).active && lights@[j].segment == seg
                        && plen - self.progress <= window),
            decreases lights@.len() - i,
        {
            let l = lights[i];
            if l.active && l.segment == seg && plen - self.progress <= window {
                stop = true;
            }
            i = i + 1;
        }
        if stop {
            return Car { state: CarState::StoppedAtSignal, ..self };
        }
        assert(!approaching_stop(*n, self, lights@, dt as int));
        let steer = rd.steering(fuzzy, self.deviation);
        proof {
            lemma_deviation_converges(self.deviation as int);
        }
        let dev: i64 = self.deviation + div_signed(steer, STEER_GAIN);
        let next_state = match self.car_type {
            CarType::Normal => CarState::GoNormal,
            CarType::Slow => CarState::Slow,
        };
        if self.progress + adv >= plen {
            if self.seg_index == self.path.len() - 1 {
                Car { state: next_state, progress: plen, deviation: dev, ..self }
            } else {
                let next_index = self.seg_index + 1;
                proof {
                    lemma_seg_len_bounds(*n, self.path@[next_index as int] as int);
                }
                Car { state: next_state, seg_index: next_index, progress: 0, deviation: dev, ..self }
            }
        } else {
            Car { state: next_state, progress: self.progress + adv, deviation: dev, ..self }
        }
    }
}

/// Every segment's parameter length lies between 16 and 16 times the
/// control-point cap.
pub proof fn lemma_seg_len_bounds(n: RoadNetwork, s: int)
    requires
        network_wf(n),
        0 <= s < seg_count(n),
    ensures
        16 <= seg_len(n, s) <= 16 * 499,
        seg_len(n, s) == tess_of(n, s).len() - 1,
{
    let nr = n.backbone.roads@.len() as int;
    if s < nr {
        assert(n.lanes@[s].center@ == crate::network::center_seq_spec(
            n.backbone.roads@[s].points@,
        ));
    } else {
        assert(n.cross_geometries@[s - nr].center@ == crate::network::center_seq_spec(
            n.backbone.cross_sections@[s - nr].points@,
        ));
    }
}


/// A car's world position: the centerline tessellation vertex at its
/// progress.
pub open spec fn car_position_spec(c: Car, n: RoadNetwork) -> Vec2 {
    tess_of(n, c.path@[c.seg_index as int] as int)[c.progress as int]
}

impl Car {
    /// Creates a car at the start of a freshly planned route between two
    /// world positions, or reports that no route exists — a recoverable
    /// failure, not a crash.
    pub fn from_positions(n: &RoadNetwork, from: Vec2, to: Vec2, car_type: CarType) -> (r: Option<
        Car,
    >)
        requires
            network_wf(*n),
        ensures
            r matches Some(c) ==> {
                &&& car_wf(c, *n)
                &&& c.car_type == car_type
                &&& c.state == drive_state(car_type)
                &&& c.seg_index == 0
                &&& c.progress == 0
                &&& c.deviation == DEV_CENTER
                &&& seg_count(*n) > 0
                &&& is_route(
                    *n,
                    c.path@,
                    nearest_segment_spec(*n, clamp_query(from)),
                    nearest_segment_spec(*n, clamp_query(to)),
                )
            },
            r is None ==> seg_count(*n) == 0 || (forall|p: Seq<usize>|
                !is_route(
                    *n,
                    p,
                    nearest_segment_spec(*n, clamp_query(from)),
                    nearest_segment_spec(*n, clamp_query(to)),
                )),
    {
        match find_path(n, from, to) {
            Some(path) => {
                proof {
                    lemma_seg_len_bounds(*n, path@[0] as int);
                }
                Some(
                    Car {
                        id: 0,
                        car_type,
                        state: match car_type {
                            CarType::Normal => CarState::GoNormal,
                            CarType::Slow => CarState::Slow,
                        },
                        path,
                        seg_index: 0,
                        progress: 0,
                        deviation: DEV_CENTER,
                    },
                )
            },
            None => None,
        }
    }

    /// This car's world position on its route's centerline.
    pub fn position(&self, n: &RoadNetwork) -> (v: Vec2)
        requires
            network_wf(*n),
            car_wf(*self, *n),
        ensures
            v == car_position_spec(*self, *n),
            geo_ok(v),
    {
        proof {
            lemma_seg_len_bounds(*n, self.path@[self.seg_index as int] as int);
        }
        let nr = n.backbone.roads.len();
        let seg = self.path[self.seg_index];
        let p: usize = self.progress as usize;
        if seg < nr {
            proof {
                assert(crate::network::seg_tess_ok(n.lanes@[seg as int]));
            }
            n.lanes[seg].center_tess[p]
        } else {
            proof {
                assert(crate::network::seg_tess_ok(n.cross_geometries@[seg as int - nr as int]));
            }
            n.cross_geometries[seg - nr].center_tess[p]
        }
    }
}

/// The add-mode of the vehicle placement command sequence: idle, waiting
/// for the first point, or holding the first point while waiting for the
/// second.
#[derive(Clone, Copy, PartialEq, Eq, Structural, Debug)]
pub enum AddCarMode {
    Nope,
    Adding,
    AddedPoint(Vec2),
}

/// Squared distance under which a click selects a car.
pub const NEAR_DIST2: i64 = 400_000_000;

/// The set of live vehicles and the placement/selection state around
/// them, together with the fuzzy controller they all steer by.
pub struct CarSystem {
    pub fuzzy: Fuzzy,
    pub road_deviation: RoadDeviation,
    pub cars: Vec<Car>,
    pub next_id: u64,
    pub add_car: AddCarMode,
    pub add_car_type: CarType,
    pub chosen_car: Option<u64>,
    pub chosen_changed: bool,
}

pub open spec fn sys_wf(s: CarSystem, n: RoadNetwork) -> bool {
    &&& s.road_deviation.wf_for(s.fuzzy)
    &&& forall|i: int| 0 <= i < s.cars@.len() ==> car_wf(#[trigger] s.cars@[i], n)
}

/// The cars of `s` that have not finished their route, in order.
pub open spec fn live_cars(s: Seq<Car>) -> Seq<Car>
    decreases s.len(),
{
    if s.len() == 0 {
        Seq::empty()
    } else {
        live_cars(s.drop_last()) + if s.last().state is Idle {
            Seq::<Car>::empty()
        } else {
            seq![s.last()]
        }
    }
}

/// Every car of `s` advanced by one step.
pub open spec fn stepped_cars(n: RoadNetwork, s: Seq<Car>, lights: Seq<StreetLight>, dt: int) -> Seq<
    Car,
> {
    Seq::new(s.len(), |i: int| step_spec(n, s[i], lights, dt))
}

/// The first car of `cars`, front to back, whose position lies within
/// selection distance of `p`.
pub open spec fn first_near_car(cars: Seq<Car>, n: RoadNetwork, p: Vec2) -> Option<u64>
    decreases cars.len(),
{
    if cars.len() == 0 {
        None
    } else if dist2(car_position_spec(cars[0], n), p) <= NEAR_DIST2 {
        Some(cars[0].id)
    } else {
        first_near_car(cars.drop_first(), n, p)
    }
}

/// A prefix of cars that are all out of selection range does not affect
/// the first-near lookup.
proof fn lemma_first_near_skip(cars: Seq<Car>, n: RoadNetwork, p: Vec2, i: int)
    requires
        0 <= i <= cars.len(),
        forall|j: int|
            0 <= j < i ==> dist2(car_position_spec(#[trigger] cars[j], n), p) > NEAR_DIST2,
    ensures
        first_near_car(cars, n, p) == first_near_car(cars.subrange(i, cars.len() as int), n, p),
    decreases i,
{
    if i > 0 {
        lemma_first_near_skip(cars, n, p, i - 1);
        let s1 = cars.subrange(i - 1, cars.len() as int);
        assert(s1[0] == cars[i - 1]);
        assert(s1.drop_first() =~= cars.subrange(i, cars.len() as int));
    } else {
        assert(cars.subrange(0, cars.len() as int) =~= cars);
    }
}

impl CarSystem {
    /// A fresh system: its own fuzzy engine with the road-deviation
    /// controller declared in it, and no cars.
    pub fn new() -> (s: CarSystem)
        ensures
            s.road_deviation.wf_for(s.fuzzy),
            s.cars@.len() == 0,
            s.next_id == 0,
            s.add_car is Nope,
            s.add_car_type == CarType::Normal,
            s.chosen_car is None,
            s.chosen_changed == false,
    {
        let mut fuzzy = Fuzzy::new();
        let road_deviation = RoadDeviation::new(&mut fuzzy);
        CarSystem {
            fuzzy,
            road_deviation,
            cars: Vec::new(),
            next_id: 0,
            add_car: AddCarMode::Nope,
            add_car_type: CarType::Normal,
            chosen_car: None,
            chosen_changed: false,
        }
    }

    /// Index of the car with the given id.
    pub fn find_car_index(&self, id: u64) -> (r: Option<usize>)
        ensures
            r matches Some(i) ==> i < self.cars@.len() && self.cars@[i as int].id == id,
            r is None ==> forall|i: int| 0 <= i < self.cars@.len() ==> (#[trigger] self.cars@[i]).id
                != id,
    {
        let mut i: usize = 0;
        while i < self.cars.len()
            invariant
                i <= self.cars@.len(),
                forall|j: int| 0 <= j < i ==> (#[trigger] self.cars@[j]).id != id,
            decreases self.cars@.len() - i,
        {
            if self.cars[i].id == id {
                return Some(i);
            }
            i = i + 1;
        }
        None
    }

    /// The first car within selection distance of a point.
    pub fn find_car_near(&self, n: &RoadNetwork, p: Vec2) -> (r: Option<u64>)
        requires
            network_wf(*n),
            sys_wf(*self, *n),
            query_ok(p),
        ensures
            r == first_near_car(self.cars@, *n, p),
            r matches Some(id) ==> exists|i: int|
                0 <= i < self.cars@.len() && (#[trigger] self.cars@[i]).id == id && dist2(
                    car_position_spec(self.cars@[i], *n),
                    p,
                ) <= NEAR_DIST2,
            r is None ==> forall|i: int|
                0 <= i < self.cars@.len() ==> dist2(
                    car_position_spec(#[trigger] self.cars@[i], *n),
                    p,
                ) > NEAR_DIST2,
    {
        let len = self.cars.len();
        let mut i: usize = 0;
        while i < len
            invariant
                network_wf(*n),
                sys_wf(*self, *n),
                query_ok(p),
                len == self.cars@.len(),
                i <= len,
                forall|j: int|
                    0 <= j < i ==> dist2(car_position_spec(#[trigger] self.cars@[j], *n), p)
                        > NEAR_DIST2,
            decreases self.cars@.len() - i,
        {
            let pos = self.cars[i].position(n);
            let d = dist2_ex(pos, p);
            if d <= NEAR_DIST2 {
                proof {
                    lemma_first_near_skip(self.cars@, *n, p, i as int);
                    let rest = self.cars@.subrange(i as int, len as int);
                    assert(rest[0] == self.cars@[i as int]);
                }
                return Some(self.cars[i].id);
            }
            i = i + 1;
        }
        proof {
            lemma_first_near_skip(self.cars@, *n, p, len as int);
            assert(self.cars@.subrange(len as int, len as int) =~= Seq::<Car>::empty());
        }
        None
    }

    /// Appends a car under a fresh id.
    pub fn add(&mut self, car: Car, n: &RoadNetwork)
        requires
            network_wf(*n),
            sys_wf(*old(self), *n),
            car_wf(car, *n),
            old(self).next_id < 0xffff_ffff_ffff_ffff,
        ensures
            sys_wf(*final(self), *n),
            final(self).cars@ == old(self).cars@.push(Car { id: old(self).next_id, ..car }),
            final(self).next_id == old(self).next_id + 1,
            final(self).fuzzy == old(self).fuzzy,
            final(self).road_deviation == old(self).road_deviation,
            final(self).add_car == old(self).add_car,
            final(self).add_car_type == old(self).add_car_type,
            final(self).chosen_car == old(self).chosen_car,
            final(self).chosen_changed == old(self).chosen_changed,
    {
        let id = self.next_id;
        self.next_id = id + 1;
        self.cars.push(Car { id, ..car });
    }

    /// Arms the placement sequence for the next two clicks, with the type
    /// the next vehicle will have.
    pub fn begin_add(&mut self, car_type: CarType)
        ensures
            final(self).add_car is Adding,
            final(self).add_car_type == car_type,
            final(self).cars@ == old(self).cars@,
            final(self).fuzzy == old(self).fuzzy,
            final(self).road_deviation == old(self).road_deviation,
            final(self).next_id == old(self).next_id,
            final(self).chosen_car == old(self).chosen_car,
            final(self).chosen_changed == old(self).chosen_changed,
    {
        self.add_car = AddCarMode::Adding;
        self.add_car_type = car_type;
    }

    /// The cancel command: resets the placement sequence to idle; the
    /// pending vehicle type is left as it was.
    pub fn cancel_add(&mut self)
        ensures
            final(self).add_car is Nope,
            final(self).add_car_type == old(self).add_car_type,
            final(self).cars@ == old(self).cars@,
            final(self).fuzzy == old(self).fuzzy,
            final(self).road_deviation == old(self).road_deviation,
            final(self).next_id == old(self).next_id,
            final(self).chosen_car == old(self).chosen_car,
            final(self).chosen_changed == old(self).chosen_changed,
    {
        self.add_car = AddCarMode::Nope;
    }

    /// A click in the world. Outside the placement sequence it selects
    /// the first car within range of the cursor and raises the change
    /// flag when the selection changes. During placement it supplies the
    /// start and then the end point: a vehicle is placed exactly when a
    /// route exists between the segments nearest the two points, and
    /// `Some(false)` reports the recoverable planning failure otherwise;
    /// clicks that complete no placement yield none.
    pub fn handle_click(&mut self, n: &RoadNetwork, p: Vec2) -> (placed: Option<bool>)
        requires
            network_wf(*n),
            sys_wf(*old(self), *n),
            old(self).next_id < 0xffff_ffff_ffff_ffff,
        ensures
            sys_wf(*final(self), *n),
            final(self).fuzzy == old(self).fuzzy,
            final(self).road_deviation == old(self).road_deviation,
            final(self).add_car_type == old(self).add_car_type,
            old(self).add_car is Nope ==> {
                &&& final(self).add_car is Nope
                &&& final(self).cars@ == old(self).cars@
                &&& final(self).next_id == old(self).next_id
                &&& placed is None
                &&& final(self).chosen_car == first_near_car(
                    old(self).cars@,
                    *n,
                    clamp_query(p),
                )
                &&& final(self).chosen_changed == (old(self).chosen_changed || final(self).chosen_car
                    != old(self).chosen_car)
            },
            old(self).add_car is Adding ==> {
                &&& final(self).add_car == AddCarMode::AddedPoint(p)
                &&& final(self).cars@ == old(self).cars@
                &&& final(self).next_id == old(self).next_id
                &&& final(self).chosen_car == old(self).chosen_car
                &&& final(self).chosen_changed == old(self).chosen_changed
                &&& placed is None
            },
            old(self).add_car matches AddCarMode::AddedPoint(prev) ==> {
                let s = nearest_segment_spec(*n, clamp_query(prev));
                let t = nearest_segment_spec(*n, clamp_query(p));
                &&& final(self).add_car is Nope
                &&& final(self).chosen_car == old(self).chosen_car
                &&& final(self).chosen_changed == old(self).chosen_changed
                &&& (placed == Some(true) <==> seg_count(*n) > 0 && (exists|q: Seq<usize>|
                    is_route(*n, q, s, t)))
                &&& (placed == Some(false) <==> !(seg_count(*n) > 0 && (exists|q: Seq<usize>|
                    is_route(*n, q, s, t))))
                &&& placed == Some(true) ==> {
                    let c = final(self).cars@.last();
                    &&& final(self).cars@ == old(self).cars@.push(c)
                    &&& final(self).next_id == old(self).next_id + 1
                    &&& c.id == old(self).next_id
                    &&& c.car_type == old(self).add_car_type
                    &&& c.state == drive_state(old(self).add_car_type)
                    &&& c.seg_index == 0
                    &&& c.progress == 0
                    &&& c.deviation == DEV_CENTER
                    &&& is_route(*n, c.path@, s, t)
                    &&& car_wf(c, *n)
                }
                &&& placed == Some(false) ==> final(self).cars@ == old(self).cars@
                    && final(self).next_id == old(self).next_id
            },
    {
        match self.add_car {
            AddCarMode::Nope => {
                let q = clamp_query_ex(p);
                let found = self.find_car_near(n, q);
                let changed = match (found, self.chosen_car) {
                    (Option::None, Option::None) => false,
                    (Option::Some(a), Option::Some(b)) => a != b,
                    _ => true,
                };
                if changed {
                    self.chosen_changed = true;
                }
                self.chosen_car = found;
                None
            },
            AddCarMode::Adding => {
                self.add_car = AddCarMode::AddedPoint(p);
                None
            },
            AddCarMode::AddedPoint(prev) => {
                self.add_car = AddCarMode::Nope;
                if let Some(car) = Car::from_positions(n, prev, p, self.add_car_type) {
                    let ghost path0 = car.path@;
                    proof {
                        assert(is_route(
                            *n,
                            path0,
                            nearest_segment_spec(*n, clamp_query(prev)),
                            nearest_segment_spec(*n, clamp_query(p)),
                        ));
                    }
                    self.add(car, n);
                    Some(true)
                } else {
                    Some(false)
                }
            },
        }
    }

    /// Reads and clears the chosen-car change flag, so a presentation
    /// layer re-reads the chosen path only when it changed.
    pub fn take_chosen_changed(&mut self) -> (r: bool)
        ensures
            r == old(self).chosen_changed,
            final(self).chosen_changed == false,
            final(self).cars@ == old(self).cars@,
            final(self).fuzzy == old(self).fuzzy,
            final(self).road_deviation == old(self).road_deviation,
            final(self).chosen_car == old(self).chosen_car,
    {
        let r = self.chosen_changed;
        self.chosen_changed = false;
        r
    }

    /// One simulation step: every car advances one tick against the same
    /// snapshot of the network and signals, and the cars that finished
    /// their route are removed.
    #[verifier::loop_isolation(false)]
    #[verifier::rlimit(100)]
    pub fn update(&mut self, n: &RoadNetwork, lights: &Vec<StreetLight>, dt: u64)
        requires
            network_wf(*n),
            sys_wf(*old(self), *n),
            0 < dt <= MAX_DT,
        ensures
            sys_wf(*final(self), *n),
            final(self).cars@ == live_cars(
                stepped_cars(*n, old(self).cars@, lights@, dt as int),
            ),
            final(self).fuzzy == old(self).fuzzy,
            final(self).road_deviation == old(self).road_deviation,
            final(self).next_id == old(self).next_id,
            final(self).add_car == old(self).add_car,
    {
        let len = self.cars.len();
        let ghost cars0 = self.cars@;
        let mut new_cars: Vec<Car> = Vec::new();
        let mut i: usize = 0;
        while i < len
            invariant
                len == cars0.len(),
                i <= len,
                self.fuzzy == old(self).fuzzy,
                self.road_deviation == old(self).road_deviation,
                self.next_id == old(self).next_id,
                self.add_car == old(self).add_car,
                self.add_car_type == old(self).add_car_type,
                self.chosen_car == old(self).chosen_car,
                self.chosen_changed == old(self).chosen_changed,
                self.cars@ == cars0.subrange(i as int, len as int),
                new_cars@ == live_cars(stepped_cars(*n, cars0.subrange(0, i as int), lights@, dt as int)),
                forall|j: int| 0 <= j < new_cars@.len() ==> car_wf(#[trigger] new_cars@[j], *n),
            decreases len - i,
        {
            let c = self.cars.remove(0);
            proof {
                assert(c == cars0[i as int]);
                assert(self.cars@ =~= cars0.subrange(i as int + 1, len as int));
            }
            let c2 = c.tick(n, &self.fuzzy, &self.road_deviation, lights, dt);
            let ghost pre = stepped_cars(*n, cars0.subrange(0, i as int), lights@, dt as int);
            let ghost post = stepped_cars(*n, cars0.subrange(0, i as int + 1), lights@, dt as int);
            proof {
                assert(post =~= pre.push(c2));
                assert(post.drop_last() =~= pre);
                assert(live_cars(post) == live_cars(pre) + if c2.state is Idle {
                    Seq::<Car>::empty()
                } else {
                    seq![c2]
                });
            }
            if !matches!(c2.state, CarState::Idle) {
                new_cars.push(c2);
                proof {
                    assert(new_cars@ =~= live_cars(post));
                }
            } else {
                proof {
                    assert(new_cars@ =~= live_cars(post));
                }
            }
            i = i + 1;
        }
        self.cars = new_cars;
        proof {
            assert(cars0.subrange(0, len as int) =~= cars0);
        }
    }
}

} // verus!
