//! The road-deviation controller definition: one fuzzy input, "normalized
//! lateral deviation" over `[0, DEV_MAX]` (0 = far left of the lane,
//! `DEV_CENTER` = centered, `DEV_MAX` = far right), partitioned by seven
//! overlapping trapezoid membership sets, and a defuzzification step that
//! turns the seven memberships into one signed steering correction.
//!
//! Positive corrections steer toward the right, negative toward the left,
//! so the correction always opposes the deviation.

use vstd::prelude::*;
use vstd::arithmetic::div_mod::lemma_div_multiples_vanish;
use crate::fuzzy::{
    clamp_spec, trap_value_spec, Fuzzy, FuzzyError, InputHandle, InputRange, SetEntry, SetHandle,
    Trapezoid, DEGREE_ONE,
};

verus! {

/// Upper end of the normalized deviation domain (fixed point for 1.0).
pub const DEV_MAX: i64 = 1000;

/// The centered deviation (fixed point for 0.5).
pub const DEV_CENTER: i64 = 500;

/// Strongest steering correction the controller can emit.
pub const STEER_LIMIT: i64 = 12000;

pub open spec fn far_left_shape() -> Trapezoid {
    Trapezoid { a: 0, b: 0, c: 100, d: 250 }
}

pub open spec fn middle_left_shape() -> Trapezoid {
    Trapezoid { a: 100, b: 250, c: 250, d: 400 }
}

pub open spec fn left_shape() -> Trapezoid {
    Trapezoid { a: 0, b: 0, c: 350, d: 500 }
}

pub open spec fn middle_shape() -> Trapezoid {
    Trapezoid { a: 350, b: 500, c: 500, d: 650 }
}

pub open spec fn right_shape() -> Trapezoid {
    Trapezoid { a: 500, b: 650, c: 1000, d: 1000 }
}

pub open spec fn middle_right_shape() -> Trapezoid {
    Trapezoid { a: 600, b: 750, c: 750, d: 900 }
}

pub open spec fn far_right_shape() -> Trapezoid {
    Trapezoid { a: 750, b: 900, c: 1000, d: 1000 }
}

pub open spec fn far_left_value(x: int) -> int {
    trap_value_spec(far_left_shape(), x)
}

pub open spec fn middle_left_value(x: int) -> int {
    trap_value_spec(middle_left_shape(), x)
}

pub open spec fn left_value(x: int) -> int {
    trap_value_spec(left_shape(), x)
}

pub open spec fn middle_value(x: int) -> int {
    trap_value_spec(middle_shape(), x)
}

pub open spec fn right_value(x: int) -> int {
    trap_value_spec(right_shape(), x)
}

pub open spec fn middle_right_value(x: int) -> int {
    trap_value_spec(middle_right_shape(), x)
}

pub open spec fn far_right_value(x: int) -> int {
    trap_value_spec(far_right_shape(), x)
}

/// Weighted-sum defuzzification of the seven memberships at deviation `x`:
/// the "left of center" sets push right (positive), the "right of center"
/// sets push left (negative), the centered set pushes nothing.
pub open spec fn steering_value(x: int) -> int {
    3 * far_left_value(x) + 2 * middle_left_value(x) + left_value(x) - right_value(x) - 2
        * middle_right_value(x) - 3 * far_right_value(x)
}

/// `3000 * k / 150 == 20 * k`: the trapezoid edges of the deviation sets
/// are all 150 wide, so their fixed-point values are exactly linear.
proof fn lemma_exact_slope(k: int)
    ensures
        3000 * k / 150 == 20 * k,
{
    assert(3000 * k == 150 * (20 * k)) by (nonlinear_arith);
    lemma_div_multiples_vanish(20 * k, 150);
}

/// Closed linear form of each of the seven deviation membership sets.
pub proof fn lemma_deviation_set_values(x: int)
    requires
        0 <= x <= DEV_MAX,
    ensures
        far_left_value(x) == if x < 100 {
            3000int
        } else if x < 250 {
            20 * (250 - x)
        } else {
            0int
        },
        middle_left_value(x) == if x <= 100 {
            0int
        } else if x < 250 {
            20 * (x - 100)
        } else if x < 400 {
            20 * (400 - x)
        } else {
            0int
        },
        left_value(x) == if x < 350 {
            3000int
        } else if x < 500 {
            20 * (500 - x)
        } else {
            0int
        },
        middle_value(x) == if x <= 350 {
            0int
        } else if x < 500 {
            20 * (x - 350)
        } else if x < 650 {
            20 * (650 - x)
        } else {
            0int
        },
        right_value(x) == if x <= 500 {
            0int
        } else if x < 650 {
            20 * (x - 500)
        } else {
            3000int
        },
        middle_right_value(x) == if x <= 600 {
            0int
        } else if x < 750 {
            20 * (x - 600)
        } else if x < 900 {
            20 * (900 - x)
        } else {
            0int
        },
        far_right_value(x) == if x <= 750 {
            0int
        } else if x < 900 {
            20 * (x - 750)
        } else {
            3000int
        },
{
    lemma_exact_slope(x);
    lemma_exact_slope(250 - x);
    lemma_exact_slope(x - 100);
    lemma_exact_slope(400 - x);
    lemma_exact_slope(500 - x);
    lemma_exact_slope(x - 350);
    lemma_exact_slope(650 - x);
    lemma_exact_slope(x - 500);
    lemma_exact_slope(x - 600);
    lemma_exact_slope(900 - x);
    lemma_exact_slope(x - 750);
}

/// Partition coverage: every deviation in the domain belongs to at least
/// one of the seven sets with membership above zero — there is no dead
/// zone in the partition.
pub proof fn lemma_partition_coverage(x: int)
    requires
        0 <= x <= DEV_MAX,
    ensures
        far_left_value(x) > 0 || middle_left_value(x) > 0 || left_value(x) > 0 || middle_value(x)
            > 0 || right_value(x) > 0 || middle_right_value(x) > 0 || far_right_value(x) > 0,
{
    lemma_deviation_set_values(x);
}

/// Fixed-point continuity: moving the deviation by one domain step moves
/// every membership by at most 20 (i.e. 20/3000 of full membership), so
/// the seven set values have no jumps.
pub proof fn lemma_deviation_sets_continuous(x: int)
    requires
        0 <= x < DEV_MAX,
    ensures
        -20 <= far_left_value(x + 1) - far_left_value(x) <= 20,
        -20 <= middle_left_value(x + 1) - middle_left_value(x) <= 20,
        -20 <= left_value(x + 1) - left_value(x) <= 20,
        -20 <= middle_value(x + 1) - middle_value(x) <= 20,
        -20 <= right_value(x + 1) - right_value(x) <= 20,
        -20 <= middle_right_value(x + 1) - middle_right_value(x) <= 20,
        -20 <= far_right_value(x + 1) - far_right_value(x) <= 20,
{
    lemma_deviation_set_values(x);
    lemma_deviation_set_values(x + 1);
}

/// Monotone steering response: the further right the deviation, the
/// smaller (further toward a left-steer) the correction.
pub proof fn lemma_steering_monotone(x1: int, x2: int)
    requires
        0 <= x1 <= x2 <= DEV_MAX,
    ensures
        steering_value(x1) >= steering_value(x2),
{
    lemma_deviation_set_values(x1);
    lemma_deviation_set_values(x2);
}

/// No correction when centered.
pub proof fn lemma_steering_centered()
    ensures
        steering_value(DEV_CENTER as int) == 0,
{
    lemma_deviation_set_values(DEV_CENTER as int);
}

/// The partition is symmetric about the center, so the steering response
/// is an odd function of the offset from center.
pub proof fn lemma_steering_symmetric(x: int)
    requires
        0 <= x <= DEV_MAX,
    ensures
        steering_value(DEV_MAX - x) == -steering_value(x),
{
    lemma_deviation_set_values(x);
    lemma_deviation_set_values(DEV_MAX as int - x);
}

/// The correction opposes the deviation and its size is pinned between
/// 20 and 40 times the offset from center: enough to correct, never so
/// much that a proportional follower crosses the centerline.
pub proof fn lemma_steering_bounds(x: int)
    requires
        0 <= x <= DEV_MAX,
    ensures
        x >= DEV_CENTER ==> -40 * (x - DEV_CENTER) <= steering_value(x) <= -20 * (x - DEV_CENTER),
        x <= DEV_CENTER ==> 20 * (DEV_CENTER - x) <= steering_value(x) <= 40 * (DEV_CENTER - x),
        -STEER_LIMIT <= steering_value(x) <= STEER_LIMIT,
{
    lemma_deviation_set_values(x);
}

/// Handles of the road-deviation controller: its input and the seven
/// deviation sets, valid against the `Fuzzy` engine they were added to.
#[derive(Clone, Copy, PartialEq, Eq, Structural, Debug)]
pub struct RoadDeviation {
    pub input: InputHandle,
    pub far_left: SetHandle,
    pub middle_left: SetHandle,
    pub left: SetHandle,
    pub middle: SetHandle,
    pub right: SetHandle,
    pub middle_right: SetHandle,
    pub far_right: SetHandle,
}

impl RoadDeviation {
    /// The engine `f` holds this controller's input with the normalized
    /// deviation domain, and the seven sets with their fixed shapes.
    pub open spec fn wf_for(self, f: Fuzzy) -> bool {
        &&& f.wf()
        &&& self.input.0 < f.inputs@.len()
        &&& f.inputs@[self.input.0 as int] == (InputRange { min: 0, max: DEV_MAX })
        &&& self.far_left.0 < f.sets@.len()
        &&& f.sets@[self.far_left.0 as int] == (SetEntry {
            input: self.input.0,
            shape: far_left_shape(),
        })
        &&& self.middle_left.0 < f.sets@.len()
        &&& f.sets@[self.middle_left.0 as int] == (SetEntry {
            input: self.input.0,
            shape: middle_left_shape(),
        })
        &&& self.left.0 < f.sets@.len()
        &&& f.sets@[self.left.0 as int] == (SetEntry { input: self.input.0, shape: left_shape() })
        &&& self.middle.0 < f.sets@.len()
        &&& f.sets@[self.middle.0 as int] == (SetEntry {
            input: self.input.0,
            shape: middle_shape(),
        })
        &&& self.right.0 < f.sets@.len()
        &&& f.sets@[self.right.0 as int] == (SetEntry { input: self.input.0, shape: right_shape() })
        &&& self.middle_right.0 < f.sets@.len()
        &&& f.sets@[self.middle_right.0 as int] == (SetEntry {
            input: self.input.0,
            shape: middle_right_shape(),
        })
        &&& self.far_right.0 < f.sets@.len()
        &&& f.sets@[self.far_right.0 as int] == (SetEntry {
            input: self.input.0,
            shape: far_right_shape(),
        })
    }

    /// Declares the deviation input and its seven membership sets in the
    /// given engine, in order from far-left to far-right. Nothing already
    /// declared there is disturbed.
    pub fn new(fuzzy: &mut Fuzzy) -> (rd: RoadDeviation)
        requires
            old(fuzzy).wf(),
        ensures
            rd.wf_for(*final(fuzzy)),
            final(fuzzy).inputs@ == old(fuzzy).inputs@.push(InputRange { min: 0, max: DEV_MAX }),
            final(fuzzy).sets@.len() == old(fuzzy).sets@.len() + 7,
            forall|s: int|
                0 <= s < old(fuzzy).sets@.len() ==> final(fuzzy).sets@[s] == old(fuzzy).sets@[s],
            rd.input.0 == old(fuzzy).inputs@.len(),
            rd.far_left.0 == old(fuzzy).sets@.len(),
            rd.middle_left.0 == old(fuzzy).sets@.len() + 1,
            rd.left.0 == old(fuzzy).sets@.len() + 2,
            rd.middle.0 == old(fuzzy).sets@.len() + 3,
            rd.right.0 == old(fuzzy).sets@.len() + 4,
            rd.middle_right.0 == old(fuzzy).sets@.len() + 5,
            rd.far_right.0 == old(fuzzy).sets@.len() + 6,
    {
        let input = match fuzzy.add_input(0, DEV_MAX) {
            Ok(h) => h,
            Err(_) => {
                proof {
                    assert(false);
                }
                InputHandle(0)
            },
        };
        let far_left = Self::add_set(fuzzy, input, Trapezoid { a: 0, b: 0, c: 100, d: 250 });
        let middle_left = Self::add_set(fuzzy, input, Trapezoid { a: 100, b: 250, c: 250, d: 400 });
        let left = Self::add_set(fuzzy, input, Trapezoid { a: 0, b: 0, c: 350, d: 500 });
        let middle = Self::add_set(fuzzy, input, Trapezoid { a: 350, b: 500, c: 500, d: 650 });
        let right = Self::add_set(fuzzy, input, Trapezoid { a: 500, b: 650, c: 1000, d: 1000 });
        let middle_right = Self::add_set(
            fuzzy,
            input,
            Trapezoid { a: 600, b: 750, c: 750, d: 900 },
        );
        let far_right = Self::add_set(fuzzy, input, Trapezoid { a: 750, b: 900, c: 1000, d: 1000 });
        RoadDeviation {
            input,
            far_left,
            middle_left,
            left,
            middle,
            right,
            middle_right,
            far_right,
        }
    }

    /// Adds one deviation set; the shapes used by `new` always fit the
    /// deviation input's range, so this cannot fail.
    fn add_set(fuzzy: &mut Fuzzy, input: InputHandle, shape: Trapezoid) -> (h: SetHandle)
        requires
            old(fuzzy).wf(),
            input.0 < old(fuzzy).inputs@.len(),
            old(fuzzy).inputs@[input.0 as int] == (InputRange { min: 0, max: DEV_MAX }),
            0 <= shape.a <= shape.b <= shape.c <= shape.d <= DEV_MAX,
        ensures
            final(fuzzy).wf(),
            final(fuzzy).inputs@ == old(fuzzy).inputs@,
            final(fuzzy).sets@ == old(fuzzy).sets@.push(SetEntry { input: input.0, shape }),
            h.0 == old(fuzzy).sets@.len(),
    {
        match fuzzy.add_input_set(input, shape) {
            Ok(h) => h,
            Err(_) => {
                proof {
                    assert(false);
                }
                SetHandle(0)
            },
        }
    }

    /// The steering correction for a vehicle at normalized deviation
    /// `deviation` (clamped into the domain): all seven memberships are
    /// evaluated and combined by a signed weighted sum.
    pub fn steering(&self, fuzzy: &Fuzzy, deviation: i64) -> (s: i64)
        requires
            self.wf_for(*fuzzy),
        ensures
            s == steering_value(clamp_spec(deviation as int, 0, DEV_MAX as int)),
            -STEER_LIMIT <= s <= STEER_LIMIT,
    {
        let fl = fuzzy.membership(self.far_left, deviation);
        let ml = fuzzy.membership(self.middle_left, deviation);
        let l = fuzzy.membership(self.left, deviation);
        let r = fuzzy.membership(self.right, deviation);
        let mr = fuzzy.membership(self.middle_right, deviation);
        let fr = fuzzy.membership(self.far_right, deviation);
        proof {
            lemma_steering_bounds(clamp_spec(deviation as int, 0, DEV_MAX as int));
        }
        3 * fl + 2 * ml + l - r - 2 * mr - 3 * fr
    }
}

} // verus!
