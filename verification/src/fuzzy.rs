//! A small fuzzy-logic engine: continuous scalar inputs, each carrying a
//! number of overlapping membership functions ("fuzzy sets"), and a query
//! that evaluates the degree of membership of a concrete value in a set.
//!
//! All quantities are fixed-point integers: a membership degree is a value
//! in `[0, DEGREE_ONE]` standing for the real interval `[0, 1]`.

use vstd::prelude::*;
use vstd::arithmetic::div_mod::{
    lemma_div_pos_is_pos, lemma_div_is_ordered, lemma_div_multiples_vanish,
};

verus! {

/// Fixed-point unit: the membership degree that stands for 1.0.
pub const DEGREE_ONE: i64 = 3000;

/// Largest magnitude allowed for a fuzzy input's domain bounds.
pub const DOMAIN_LIMIT: i64 = 1_000_000_000;

/// Handle to an input registered in a `Fuzzy` engine.
#[derive(Clone, Copy, PartialEq, Eq, Structural, Debug)]
pub struct InputHandle(pub usize);

/// Handle to a membership set registered in a `Fuzzy` engine.
#[derive(Clone, Copy, PartialEq, Eq, Structural, Debug)]
pub struct SetHandle(pub usize);

/// Breakpoints of a trapezoid membership function: zero up to `a`, rising
/// linearly on `[a, b]`, at `DEGREE_ONE` on `[b, c]`, falling linearly on
/// `[c, d]`, zero beyond `d`. Degenerate edges (`a == b`, or `c == d`)
/// give left- or right-shoulder shapes when they sit on a domain bound.
#[derive(Clone, Copy, PartialEq, Eq, Structural, Debug)]
pub struct Trapezoid {
    pub a: i64,
    pub b: i64,
    pub c: i64,
    pub d: i64,
}

/// Declared range of one scalar input domain.
#[derive(Clone, Copy, PartialEq, Eq, Structural, Debug)]
pub struct InputRange {
    pub min: i64,
    pub max: i64,
}

/// One membership set: the input it is attached to and its shape.
#[derive(Clone, Copy, PartialEq, Eq, Structural, Debug)]
pub struct SetEntry {
    pub input: usize,
    pub shape: Trapezoid,
}

/// Construction errors of the engine.
#[derive(Clone, Copy, PartialEq, Eq, Structural, Debug)]
pub enum FuzzyError {
    /// `add_input` was given `min >= max`.
    EmptyRange,
    /// `add_input` was given a bound beyond `DOMAIN_LIMIT`.
    RangeTooWide,
    /// A handle does not belong to this engine.
    UnknownInput,
    /// A trapezoid's breakpoints are not ordered or leave its input's range.
    BadShape,
}

/// A fuzzy engine instance: it owns its inputs and sets, and its handles
/// are only meaningful against the instance that produced them.
pub struct Fuzzy {
    pub inputs: Vec<InputRange>,
    pub sets: Vec<SetEntry>,
}

/// `x` clamped into `[lo, hi]`.
pub open spec fn clamp_spec(x: int, lo: int, hi: int) -> int {
    if x < lo {
        lo
    } else if x > hi {
        hi
    } else {
        x
    }
}

/// Value of a trapezoid membership function at `x`, in `[0, DEGREE_ONE]`.
pub open spec fn trap_value_spec(t: Trapezoid, x: int) -> int {
    if x < t.b {
        if x <= t.a {
            0
        } else {
            DEGREE_ONE * (x - t.a) / (t.b - t.a)
        }
    } else if x <= t.c {
        DEGREE_ONE as int
    } else if x < t.d {
        DEGREE_ONE * (t.d - x) / (t.d - t.c)
    } else {
        0
    }
}

pub open spec fn input_range_wf(r: InputRange) -> bool {
    -DOMAIN_LIMIT <= r.min && r.min < r.max && r.max <= DOMAIN_LIMIT
}

pub open spec fn trap_wf(t: Trapezoid, r: InputRange) -> bool {
    r.min <= t.a && t.a <= t.b && t.b <= t.c && t.c <= t.d && t.d <= r.max
}

impl Fuzzy {
    /// Every set points at an existing input and has an ordered shape
    /// inside that input's declared range.
    pub open spec fn wf(self) -> bool {
        &&& forall|i: int|
            0 <= i < self.inputs@.len() ==> input_range_wf(#[trigger] self.inputs@[i])
        &&& forall|s: int|
            0 <= s < self.sets@.len() ==> {
                let e = #[trigger] self.sets@[s];
                e.input < self.inputs@.len() && trap_wf(e.shape, self.inputs@[e.input as int])
            }
    }

    /// Membership of `x` (clamped to its input's range) in set `s`.
    pub open spec fn spec_membership(self, s: int, x: int) -> int {
        let e = self.sets@[s];
        let r = self.inputs@[e.input as int];
        trap_value_spec(e.shape, clamp_spec(x, r.min as int, r.max as int))
    }

    pub fn new() -> (f: Fuzzy)
        ensures
            f.wf(),
            f.inputs@.len() == 0,
            f.sets@.len() == 0,
    {
        Fuzzy { inputs: Vec::new(), sets: Vec::new() }
    }

    /// Registers a new scalar input domain `[min, max]`.
    pub fn add_input(&mut self, min: i64, max: i64) -> (r: Result<InputHandle, FuzzyError>)
        requires
            old(self).wf(),
        ensures
            final(self).wf(),
            min >= max ==> r == Result::<InputHandle, FuzzyError>::Err(FuzzyError::EmptyRange),
            min < max && !(-DOMAIN_LIMIT <= min && max <= DOMAIN_LIMIT) ==> r
                == Result::<InputHandle, FuzzyError>::Err(FuzzyError::RangeTooWide),
            min < max && -DOMAIN_LIMIT <= min && max <= DOMAIN_LIMIT ==> {
                &&& r matches Ok(h) && h.0 == old(self).inputs@.len()
                &&& final(self).inputs@ == old(self).inputs@.push(InputRange { min, max })
            },
            r is Err ==> *final(self) == *old(self),
            final(self).sets@ == old(self).sets@,
    {
        if min >= max {
            return Err(FuzzyError::EmptyRange);
        }
        if min < -DOMAIN_LIMIT || max > DOMAIN_LIMIT {
            return Err(FuzzyError::RangeTooWide);
        }
        let h = InputHandle(self.inputs.len());
        self.inputs.push(InputRange { min, max });
        Ok(h)
    }

    /// Attaches a trapezoid membership function to an existing input.
    pub fn add_input_set(&mut self, input: InputHandle, shape: Trapezoid) -> (r: Result<
        SetHandle,
        FuzzyError,
    >)
        requires
            old(self).wf(),
        ensures
            final(self).wf(),
            input.0 >= old(self).inputs@.len() ==> r
                == Result::<SetHandle, FuzzyError>::Err(FuzzyError::UnknownInput),
            input.0 < old(self).inputs@.len() && !trap_wf(
                shape,
                old(self).inputs@[input.0 as int],
            ) ==> r == Result::<SetHandle, FuzzyError>::Err(FuzzyError::BadShape),
            input.0 < old(self).inputs@.len() && trap_wf(
                shape,
                old(self).inputs@[input.0 as int],
            ) ==> {
                &&& r matches Ok(h) && h.0 == old(self).sets@.len()
                &&& final(self).sets@ == old(self).sets@.push(SetEntry { input: input.0, shape })
            },
            r is Err ==> *final(self) == *old(self),
            final(self).inputs@ == old(self).inputs@,
    {
        if input.0 >= self.inputs.len() {
            return Err(FuzzyError::UnknownInput);
        }
        let range = self.inputs[input.0];
        if !(range.min <= shape.a && shape.a <= shape.b && shape.b <= shape.c && shape.c <= shape.d
            && shape.d <= range.max) {
            return Err(FuzzyError::BadShape);
        }
        let h = SetHandle(self.sets.len());
        self.sets.push(SetEntry { input: input.0, shape });
        Ok(h)
    }

    /// Degree of membership of `value` in set `set`. The value is first
    /// clamped to the input's declared range, so out-of-range queries
    /// saturate instead of failing.
    pub fn membership(&self, set: SetHandle, value: i64) -> (r: i64)
        requires
            self.wf(),
            set.0 < self.sets@.len(),
        ensures
            r == self.spec_membership(set.0 as int, value as int),
            0 <= r <= DEGREE_ONE,
    {
        let e = self.sets[set.0];
        let range = self.inputs[e.input];
        let x: i64 = if value < range.min {
            range.min
        } else if value > range.max {
            range.max
        } else {
            value
        };
        let t = e.shape;
        proof {
            lemma_trap_value_bounds(t, x as int);
        }
        if x < t.b {
            if x <= t.a {
                0
            } else {
                let num: i64 = DEGREE_ONE * (x - t.a);
                let den: i64 = t.b - t.a;
                ((num as u64) / (den as u64)) as i64
            }
        } else if x <= t.c {
            DEGREE_ONE
        } else if x < t.d {
            let num: i64 = DEGREE_ONE * (t.d - x);
            let den: i64 = t.d - t.c;
            ((num as u64) / (den as u64)) as i64
        } else {
            0
        }
    }
}

/// A trapezoid's value always lies in `[0, DEGREE_ONE]`, and is exactly 0
/// outside the support interval `(a, d)` (except where a plateau touches
/// the support's edge).
pub proof fn lemma_trap_value_bounds(t: Trapezoid, x: int)
    requires
        t.a <= t.b <= t.c <= t.d,
    ensures
        0 <= trap_value_spec(t, x) <= DEGREE_ONE,
        x <= t.a && x < t.b ==> trap_value_spec(t, x) == 0,
        x >= t.d && x > t.c ==> trap_value_spec(t, x) == 0,
        t.b <= x <= t.c ==> trap_value_spec(t, x) == DEGREE_ONE,
{
    if x < t.b {
        if x <= t.a {
        } else {
            let num = DEGREE_ONE * (x - t.a);
            let den = t.b - t.a;
            assert(den >= 1);
            assert(num >= 0) by (nonlinear_arith)
                requires
                    x - t.a >= 0,
                    num == DEGREE_ONE * (x - t.a),
            ;
            lemma_div_pos_is_pos(num, den);
            assert(num <= DEGREE_ONE * den) by (nonlinear_arith)
                requires
                    x - t.a <= den,
                    num == DEGREE_ONE * (x - t.a),
            ;
            lemma_div_is_ordered(num, DEGREE_ONE * den, den);
            lemma_div_multiples_vanish(DEGREE_ONE as int, den);
            assert(DEGREE_ONE * den == den * DEGREE_ONE) by (nonlinear_arith);
        }
    } else if x <= t.c {
    } else if x < t.d {
        let num = DEGREE_ONE * (t.d - x);
        let den = t.d - t.c;
        assert(den >= 1);
        assert(num >= 0) by (nonlinear_arith)
            requires
                t.d - x >= 0,
                num == DEGREE_ONE * (t.d - x),
        ;
        lemma_div_pos_is_pos(num, den);
        assert(num <= DEGREE_ONE * den) by (nonlinear_arith)
            requires
                t.d - x <= den,
                num == DEGREE_ONE * (t.d - x),
        ;
        lemma_div_is_ordered(num, DEGREE_ONE * den, den);
        lemma_div_multiples_vanish(DEGREE_ONE as int, den);
        assert(DEGREE_ONE * den == den * DEGREE_ONE) by (nonlinear_arith);
    } else {
    }
}

} // verus!
