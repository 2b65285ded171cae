//! Closed intervals of `i64` values and their saturating arithmetic.

use vstd::prelude::*;

verus! {

/// `x` clamped to the `i64` range.
pub open spec fn clamp64(x: int) -> int {
    if x > i64::MAX {
        i64::MAX as int
    } else if x < i64::MIN {
        i64::MIN as int
    } else {
        x
    }
}

pub open spec fn fits_i64(x: int) -> bool {
    i64::MIN <= x <= i64::MAX
}

/// Division rounding toward zero, as `i64` division does.
pub open spec fn trunc_div(x: int, d: int) -> int {
    if x >= 0 {
        x / d
    } else {
        -((-x) / d)
    }
}

pub open spec fn abs_int(x: int) -> int {
    if x < 0 {
        -x
    } else {
        x
    }
}

/// `a + b`, saturating at the bounds of `i64`.
pub fn sat_add(a: i64, b: i64) -> (r: i64)
    ensures
        r == clamp64(a + b),
{
    match a.checked_add(b) {
        Some(v) => v,
        None => if b > 0 {
            i64::MAX
        } else {
            i64::MIN
        },
    }
}

/// `a - b`, saturating at the bounds of `i64`.
pub fn sat_sub(a: i64, b: i64) -> (r: i64)
    ensures
        r == clamp64(a - b),
{
    match a.checked_sub(b) {
        Some(v) => v,
        None => if b < 0 {
            i64::MAX
        } else {
            i64::MIN
        },
    }
}

/// `a * b`, saturating at the bounds of `i64`.
pub fn sat_mul(a: i64, b: i64) -> (r: i64)
    ensures
        r == clamp64(a * b),
{
    match a.checked_mul(b) {
        Some(v) => v,
        None => {
            if (a > 0 && b > 0) || (a < 0 && b < 0) {
                assert(a * b > 0) by (nonlinear_arith)
                    requires
                        (a > 0 && b > 0) || (a < 0 && b < 0),
                ;
                i64::MAX
            } else {
                assert(a * b <= 0) by (nonlinear_arith)
                    requires
                        !((a > 0 && b > 0) || (a < 0 && b < 0)),
                ;
                i64::MIN
            }
        },
    }
}

/// `|a|`, saturating at `i64::MAX`.
pub fn sat_abs(a: i64) -> (r: i64)
    ensures
        r == clamp64(abs_int(a as int)),
{
    if a == i64::MIN {
        i64::MAX
    } else if a < 0 {
        -a
    } else {
        a
    }
}

/// The closed interval `[min, max]` of `i64` values.
#[derive(Debug, Clone, Copy, PartialEq, Eq, Structural)]
pub struct ValueRange {
    pub min: i64,
    pub max: i64,
}

pub open spec fn vr(min: int, max: int) -> ValueRange {
    ValueRange { min: min as i64, max: max as i64 }
}

pub open spec fn range_union(a: ValueRange, b: ValueRange) -> ValueRange {
    ValueRange {
        min: if a.min <= b.min {
            a.min
        } else {
            b.min
        },
        max: if a.max >= b.max {
            a.max
        } else {
            b.max
        },
    }
}

pub open spec fn range_add(a: ValueRange, b: ValueRange) -> ValueRange {
    vr(clamp64(a.min + b.min), clamp64(a.max + b.max))
}

pub open spec fn range_sub(a: ValueRange, b: ValueRange) -> ValueRange {
    vr(clamp64(a.min - b.max), clamp64(a.max - b.min))
}

pub open spec fn range_mul_const(a: ValueRange, c: i64) -> ValueRange {
    if c >= 0 {
        vr(clamp64(a.min * c), clamp64(a.max * c))
    } else {
        vr(clamp64(a.max * c), clamp64(a.min * c))
    }
}

pub open spec fn range_div_const(a: ValueRange, c: i64) -> Option<ValueRange> {
    if c > 0 {
        Some(vr(trunc_div(a.min as int, c as int), trunc_div(a.max as int, c as int)))
    } else {
        None
    }
}

impl ValueRange {
    /// `x` lies in the interval.
    pub open spec fn contains(self, x: int) -> bool {
        self.min <= x <= self.max
    }

    pub fn new(min: i64, max: i64) -> (r: ValueRange)
        ensures
            r == (ValueRange { min, max }),
    {
        ValueRange { min, max }
    }

    /// The interval holding `val` alone.
    pub fn point(val: i64) -> (r: ValueRange)
        ensures
            r == (ValueRange { min: val, max: val }),
    {
        ValueRange { min: val, max: val }
    }

    /// The smallest interval holding both.
    pub fn union(&self, other: &ValueRange) -> (r: ValueRange)
        ensures
            r == range_union(*self, *other),
    {
        ValueRange {
            min: if self.min <= other.min {
                self.min
            } else {
                other.min
            },
            max: if self.max >= other.max {
                self.max
            } else {
                other.max
            },
        }
    }

    /// The sums of a value of each interval (saturating).
    pub fn add(&self, other: &ValueRange) -> (r: ValueRange)
        ensures
            r == range_add(*self, *other),
    {
        ValueRange { min: sat_add(self.min, other.min), max: sat_add(self.max, other.max) }
    }

    /// The differences of a value of each interval (saturating).
    pub fn sub(&self, other: &ValueRange) -> (r: ValueRange)
        ensures
            r == range_sub(*self, *other),
    {
        ValueRange { min: sat_sub(self.min, other.max), max: sat_sub(self.max, other.min) }
    }

    /// The products of a value of the interval with `c` (saturating).
    pub fn mul_const(&self, c: i64) -> (r: ValueRange)
        ensures
            r == range_mul_const(*self, c),
    {
        if c >= 0 {
            ValueRange { min: sat_mul(self.min, c), max: sat_mul(self.max, c) }
        } else {
            ValueRange { min: sat_mul(self.max, c), max: sat_mul(self.min, c) }
        }
    }

    /// The quotients of a value of the interval by a positive `c`; `None`
    /// for any other divisor.
    pub fn div_const(&self, c: i64) -> (r: Option<ValueRange>)
        ensures
            r == range_div_const(*self, c),
    {
        if c > 0 {
            let lo = match self.min.checked_div(c) {
                Some(q) => q,
                None => 0,
            };
            let hi = match self.max.checked_div(c) {
                Some(q) => q,
                None => 0,
            };
            proof {
                lemma_trunc_div_bounds(self.min as int, c as int);
                lemma_trunc_div_bounds(self.max as int, c as int);
            }
            Some(ValueRange { min: lo, max: hi })
        } else {
            None
        }
    }

    /// Every value of the interval lies in `[min_bound, max_exclusive)`.
    pub fn is_within(&self, min_bound: i64, max_exclusive: i64) -> (b: bool)
        ensures
            b == (self.min >= min_bound && self.max < max_exclusive),
    {
        self.min >= min_bound && self.max < max_exclusive
    }
}

proof fn lemma_trunc_div_bounds(x: int, d: int)
    requires
        d > 0,
        fits_i64(x),
    ensures
        fits_i64(trunc_div(x, d)),
        abs_int(trunc_div(x, d)) <= abs_int(x),
        x == 0 ==> trunc_div(x, d) == 0,
        x > 0 ==> x / d == trunc_div(x, d),
        x < 0 ==> ((x * -1) / d) * -1 == trunc_div(x, d),
{
    if x >= 0 {
        assert(x / d <= x) by (nonlinear_arith)
            requires
                x >= 0,
                d > 0,
        ;
        assert(x / d >= 0) by (nonlinear_arith)
            requires
                x >= 0,
                d > 0,
        ;
    } else {
        assert((-x) / d <= -x) by (nonlinear_arith)
            requires
                x < 0,
                d > 0,
        ;
        assert((-x) / d >= 0) by (nonlinear_arith)
            requires
                x < 0,
                d > 0,
        ;
    }
}

/// Rounding toward zero keeps the order of the dividends.
pub proof fn lemma_trunc_div_monotone(x: int, y: int, d: int)
    requires
        x <= y,
        d > 0,
    ensures
        trunc_div(x, d) <= trunc_div(y, d),
{
    if x >= 0 {
        vstd::arithmetic::div_mod::lemma_div_is_ordered(x, y, d);
    } else if y < 0 {
        vstd::arithmetic::div_mod::lemma_div_is_ordered(-y, -x, d);
    } else {
        assert((-x) / d >= 0) by (nonlinear_arith)
            requires
                x < 0,
                d > 0,
        ;
        assert(y / d >= 0) by (nonlinear_arith)
            requires
                y >= 0,
                d > 0,
        ;
    }
}

/// The union holds every value of either interval.
pub proof fn lemma_union_covers(a: ValueRange, b: ValueRange, x: int)
    requires
        a.contains(x) || b.contains(x),
    ensures
        range_union(a, b).contains(x),
{
}

/// The sum of values of two intervals lies in their sum, wherever it is an
/// `i64`.
pub proof fn lemma_add_sound(a: ValueRange, b: ValueRange, x: int, y: int)
    requires
        a.contains(x),
        b.contains(y),
        fits_i64(x + y),
    ensures
        range_add(a, b).contains(x + y),
{
}

/// The difference of values of two intervals lies in their difference,
/// wherever it is an `i64`.
pub proof fn lemma_sub_sound(a: ValueRange, b: ValueRange, x: int, y: int)
    requires
        a.contains(x),
        b.contains(y),
        fits_i64(x - y),
    ensures
        range_sub(a, b).contains(x - y),
{
}

/// Scaling a value of an interval by `c` lands in the scaled interval,
/// wherever the product is an `i64`.
pub proof fn lemma_mul_const_sound(a: ValueRange, c: i64, x: int)
    requires
        a.contains(x),
        fits_i64(x * c),
    ensures
        range_mul_const(a, c).contains(x * c),
{
    if c >= 0 {
        assert(a.min * c <= x * c <= a.max * c) by (nonlinear_arith)
            requires
                a.min <= x <= a.max,
                c >= 0,
        ;
    } else {
        assert(a.max * c <= x * c <= a.min * c) by (nonlinear_arith)
            requires
                a.min <= x <= a.max,
                c < 0,
        ;
    }
}

/// Dividing a value of an interval by a positive `c` lands in the divided
/// interval.
pub proof fn lemma_div_const_sound(a: ValueRange, c: i64, x: int)
    requires
        a.contains(x),
        c > 0,
    ensures
        range_div_const(a, c) matches Some(r) && r.contains(trunc_div(x, c as int)),
{
    lemma_trunc_div_bounds(a.min as int, c as int);
    lemma_trunc_div_bounds(a.max as int, c as int);
    lemma_trunc_div_monotone(a.min as int, x, c as int);
    lemma_trunc_div_monotone(x, a.max as int, c as int);
}

/// A range found within `[lo, hi)` holds only values in `[lo, hi)`.
pub proof fn lemma_within_sound(a: ValueRange, lo: i64, hi: i64, x: int)
    requires
        a.min >= lo && a.max < hi,
        a.contains(x),
    ensures
        lo <= x < hi,
{
}

} // verus!
