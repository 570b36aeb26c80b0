//! Fixed-point arithmetic on the unit interval and the rounding used for
//! presentation.

use vstd::prelude::*;
use vstd::arithmetic::div_mod::lemma_fundamental_div_mod_converse;

verus! {

/// The fixed-point representation of 1: values of the unit interval are held
/// in millionths.
pub const UNIT: u64 = 1_000_000;

/// The fixed-point representation of 0.5, the neutral value.
pub const HALF: u64 = 500_000;

/// `num / den` in millionths, rounded down.
pub open spec fn ratio(num: int, den: int) -> int {
    (num * 1_000_000) / den
}

/// A value rounded to the nearest multiple of `step`, in units of `step`;
/// halves round up.
pub open spec fn rounded(value: int, step: int) -> int {
    (value + step / 2) / step
}

/// The position of `value` between `min` and `max` in millionths, clamped to
/// the unit interval; one half where the range is empty.
pub open spec fn normalized(value: int, min: int, max: int) -> int {
    if max == min {
        500_000
    } else if min < max {
        if value <= min {
            0
        } else if value >= max {
            1_000_000
        } else {
            ratio(value - min, max - min)
        }
    } else {
        if value >= min {
            0
        } else if value <= max {
            1_000_000
        } else {
            ratio(min - value, min - max)
        }
    }
}

/// The least value of a sequence; 0 for the empty one.
pub open spec fn lowest(values: Seq<u64>) -> u64
    decreases values.len(),
{
    if values.len() == 0 {
        0
    } else if values.len() == 1 {
        values[0]
    } else {
        let rest = lowest(values.drop_last());
        if values.last() < rest {
            values.last()
        } else {
            rest
        }
    }
}

/// The greatest value of a sequence; 0 for the empty one.
pub open spec fn highest(values: Seq<u64>) -> u64
    decreases values.len(),
{
    if values.len() == 0 {
        0
    } else if values.len() == 1 {
        values[0]
    } else {
        let rest = highest(values.drop_last());
        if values.last() > rest {
            values.last()
        } else {
            rest
        }
    }
}

/// `lowest` and `highest` bound every element and are themselves elements.
pub proof fn lemma_lowest_highest(values: Seq<u64>)
    requires
        values.len() > 0,
    ensures
        forall|i: int| 0 <= i < values.len() ==> lowest(values) <= #[trigger] values[i],
        forall|i: int| 0 <= i < values.len() ==> #[trigger] values[i] <= highest(values),
        values.contains(lowest(values)),
        values.contains(highest(values)),
    decreases values.len(),
{
    if values.len() == 1 {
        assert(values[0] == lowest(values));
        assert(values[0] == highest(values));
    } else {
        let front = values.drop_last();
        lemma_lowest_highest(front);
        assert forall|i: int| 0 <= i < values.len() implies lowest(values) <= #[trigger] values[i]
            && values[i] <= highest(values) by {
            if i < front.len() {
                assert(front[i] == values[i]);
            }
        }
        let lo_at = choose|i: int| 0 <= i < front.len() && front[i] == lowest(front);
        let hi_at = choose|i: int| 0 <= i < front.len() && front[i] == highest(front);
        assert(values[lo_at] == lowest(front));
        assert(values[hi_at] == highest(front));
        assert(values[values.len() - 1] == values.last());
    }
}

/// Computes `num / den` in millionths, rounded down, by long division, so
/// that no intermediate value exceeds `den`.
pub fn unit_ratio(num: u128, den: u128) -> (q: u64)
    requires
        0 < den,
        num <= den,
    ensures
        q == ratio(num as int, den as int),
        q <= UNIT,
{
    if num == den {
        proof {
            assert((den as int * 1_000_000) == 1_000_000 * den as int + 0) by (nonlinear_arith);
            lemma_fundamental_div_mod_converse(num as int * 1_000_000, den as int, 1_000_000, 0);
        }
        return 1_000_000;
    }
    let mut q: u64 = 0;
    let mut rem: u128 = num;
    let mut scale: u64 = 1;
    while scale < 1_000_000
        invariant
            0 < den,
            rem < den,
            q < scale,
            q * den + rem == num * scale,
            scale == 1 || scale == 10 || scale == 100 || scale == 1_000 || scale == 10_000
                || scale == 100_000 || scale == 1_000_000,
        decreases 1_000_000 - scale,
    {
        let mut digit: u64 = 0;
        let mut acc: u128 = 0;
        let mut k: u64 = 0;
        while k < 10
            invariant
                k <= 10,
                digit <= k,
                rem < den,
                acc < den,
                digit * den + acc == k * rem,
            decreases 10 - k,
        {
            proof {
                assert((digit + 1) * den == digit * den + den) by (nonlinear_arith);
                assert((k + 1) * rem == k * rem + rem) by (nonlinear_arith);
            }
            if acc >= den - rem {
                acc = acc - (den - rem);
                digit = digit + 1;
            } else {
                acc = acc + rem;
            }
            k = k + 1;
        }
        proof {
            assert(digit < 10) by (nonlinear_arith)
                requires
                    digit * den + acc == 10 * rem,
                    rem < den,
                    0 <= acc,
                    0 < den,
            ;
            assert((q * 10 + digit) * den + acc == num * (scale * 10)) by (nonlinear_arith)
                requires
                    q * den + rem == num * scale,
                    digit * den + acc == 10 * rem,
            ;
        }
        q = q * 10 + digit;
        rem = acc;
        scale = scale * 10;
    }
    proof {
        assert(q as int * den as int + rem as int == num as int * 1_000_000);
        lemma_fundamental_div_mod_converse(
            num as int * 1_000_000,
            den as int,
            q as int,
            rem as int,
        );
    }
    q
}

/// Rounds `value` to the nearest multiple of `step` and returns it in units
/// of `step`; halves round up.
pub fn round_to_step(value: u64, step: u64) -> (r: u64)
    requires
        step > 0,
    ensures
        r == rounded(value as int, step as int),
{
    let whole: u64 = value / step;
    let part: u64 = value % step;
    let half: u64 = step / 2;
    proof {
        lemma_rounded_split(value as int, step as int);
    }
    if part >= step - half {
        whole + 1
    } else {
        whole
    }
}

/// Rounding to the nearest multiple of `step` adds one to the quotient
/// exactly when the remainder reaches the upper half of the step. With a
/// step of one the value stays as it is; with a larger step the result is at
/// most half the value plus one.
pub proof fn lemma_rounded_split(value: int, step: int)
    requires
        value >= 0,
        step > 0,
    ensures
        rounded(value, step) == value / step + if value % step >= step - step / 2 {
            1int
        } else {
            0int
        },
        step == 1 ==> rounded(value, step) == value,
        step >= 2 ==> rounded(value, step) <= value / 2 + 1,
{
    let whole = value / step;
    let part = value % step;
    let half = step / 2;
    vstd::arithmetic::div_mod::lemma_fundamental_div_mod(value, step);
    assert(value == step * whole + part);
    assert(0 <= part < step) by {
        vstd::arithmetic::div_mod::lemma_mod_bound(value, step);
    }
    assert(whole >= 0) by {
        vstd::arithmetic::div_mod::lemma_div_pos_is_pos(value, step);
    }
    if part >= step - half {
        assert(value + half == (whole + 1) * step + (part + half - step)) by (nonlinear_arith)
            requires
                value == step * whole + part,
        ;
        lemma_fundamental_div_mod_converse(value + half, step, whole + 1, part + half - step);
    } else {
        assert(value + half == whole * step + (part + half)) by (nonlinear_arith)
            requires
                value == step * whole + part,
        ;
        lemma_fundamental_div_mod_converse(value + half, step, whole, part + half);
    }
    if step >= 2 {
        assert(2 * whole <= value) by (nonlinear_arith)
            requires
                step >= 2,
                whole >= 0,
                part >= 0,
                value == step * whole + part,
        ;
    }
}

/// Rounding keeps the order of values.
pub proof fn lemma_rounded_monotone(a: int, b: int, step: int)
    requires
        a <= b,
        step > 0,
    ensures
        rounded(a, step) <= rounded(b, step),
{
    vstd::arithmetic::div_mod::lemma_div_is_ordered(a + step / 2, b + step / 2, step);
}

/// Rounds thousandths to hundredths, halves up.
pub fn round2(value: u64) -> (r: u64)
    ensures
        r == rounded(value as int, 10),
{
    round_to_step(value, 10)
}

/// Rounds millionths to thousandths, halves up.
pub fn round3(value: u64) -> (r: u64)
    ensures
        r == rounded(value as int, 1_000),
{
    round_to_step(value, 1_000)
}

/// Maps a raw dial setting in millionths into the unit interval: a setting
/// inside the interval is kept, any other collapses to one half.
pub open spec fn clamped_unit(v: int) -> int {
    if 0 <= v <= 1_000_000 {
        v
    } else {
        500_000
    }
}

/// Keeps a setting that lies in the unit interval and replaces any other by
/// one half.
pub fn clamp01(v: i64) -> (r: i64)
    ensures
        r == clamped_unit(v as int),
        0 <= r <= UNIT,
{
    if 0 <= v && v <= 1_000_000 {
        v
    } else {
        500_000
    }
}

/// Scales `value` into the unit interval by its position between `min` and
/// `max`, in millionths; one half where `min` and `max` coincide.
pub fn normalize(value: u64, min: u64, max: u64) -> (r: u64)
    ensures
        r == normalized(value as int, min as int, max as int),
        r <= UNIT,
{
    if max == min {
        HALF
    } else if min < max {
        if value <= min {
            0
        } else if value >= max {
            UNIT
        } else {
            unit_ratio((value - min) as u128, (max - min) as u128)
        }
    } else {
        if value >= min {
            0
        } else if value <= max {
            UNIT
        } else {
            unit_ratio((min - value) as u128, (min - max) as u128)
        }
    }
}

/// The least and the greatest of the values; `(0, 0)` where there are none.
pub fn min_max(values: &[u64]) -> (r: (u64, u64))
    ensures
        r.0 == lowest(values@),
        r.1 == highest(values@),
        values@.len() == 0 ==> r == (0u64, 0u64),
        values@.len() > 0 ==> values@.contains(r.0) && values@.contains(r.1),
        forall|i: int| 0 <= i < values@.len() ==> r.0 <= #[trigger] values@[i] <= r.1,
{
    if values.len() == 0 {
        return (0, 0);
    }
    let mut min: u64 = values[0];
    let mut max: u64 = values[0];
    let mut i: usize = 1;
    assert(values@.take(1).len() == 1);
    while i < values.len()
        invariant
            1 <= i <= values@.len(),
            min == lowest(values@.take(i as int)),
            max == highest(values@.take(i as int)),
        decreases values@.len() - i,
    {
        let value: u64 = values[i];
        proof {
            let next = values@.take(i + 1);
            assert(next.drop_last() =~= values@.take(i as int));
            assert(next.last() == value);
        }
        if value < min {
            min = value;
        }
        if value > max {
            max = value;
        }
        i = i + 1;
    }
    proof {
        assert(values@.take(i as int) =~= values@);
        lemma_lowest_highest(values@);
    }
    (min, max)
}

} // verus!
