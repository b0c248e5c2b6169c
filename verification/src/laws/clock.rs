//! The clock.

use crate::properties::{clock_divisor, divided_clock, FtdiProperties};
use vstd::prelude::*;

verus! {

/// The clock is never faster than asked for.
pub proof fn law_clock_is_not_too_fast(ftdi: FtdiProperties, speed_khz: u32)
    requires
        ftdi.valid(),
        speed_khz > 0,
    ensures
        ({
            let divisor = clock_divisor(ftdi.max_clock, speed_khz);
            &&& 0 <= divisor <= 0xffff
            &&& ftdi.max_clock <= speed_khz * (divisor + 1)
            &&& divided_clock(ftdi.max_clock, divisor) <= speed_khz
        }),
{
    ftdi.lemma_valid_bounds();
    let max = ftdi.max_clock as int;
    let speed = speed_khz as int;
    let rounded = (max + speed - 1) / speed;
    vstd::arithmetic::div_mod::lemma_fundamental_div_mod(max + speed - 1, speed);
    assert(max <= speed * rounded);
    assert(1 <= rounded <= max) by (nonlinear_arith)
        requires
            max + speed - 1 == speed * rounded + (max + speed - 1) % speed,
            0 <= (max + speed - 1) % speed < speed,
            0 < max,
            0 < speed,
    ;
    assert(max / rounded <= speed) by {
        vstd::arithmetic::div_mod::lemma_div_is_ordered(max, speed * rounded, rounded);
        vstd::arithmetic::div_mod::lemma_div_by_multiple(speed, rounded);
    }
}

/// No other divisor gives a faster clock without exceeding what was asked for.
pub proof fn law_clock_is_as_fast_as_possible(ftdi: FtdiProperties, speed_khz: u32, other: int)
    requires
        ftdi.valid(),
        speed_khz > 0,
        0 <= other,
        ftdi.max_clock <= speed_khz * (other + 1),
    ensures
        clock_divisor(ftdi.max_clock, speed_khz) <= other,
        divided_clock(ftdi.max_clock, other) <= divided_clock(
            ftdi.max_clock,
            clock_divisor(ftdi.max_clock, speed_khz),
        ),
{
    let max = ftdi.max_clock as int;
    let speed = speed_khz as int;
    let rounded = (max + speed - 1) / speed;
    law_clock_is_not_too_fast(ftdi, speed_khz);
    vstd::arithmetic::div_mod::lemma_fundamental_div_mod(max + speed - 1, speed);
    assert(rounded <= other + 1) by (nonlinear_arith)
        requires
            max + speed - 1 == speed * rounded + (max + speed - 1) % speed,
            0 <= (max + speed - 1) % speed < speed,
            max <= speed * (other + 1),
            0 < speed,
    ;
    let divisor = clock_divisor(ftdi.max_clock, speed_khz);
    vstd::arithmetic::div_mod::lemma_div_is_ordered_by_denominator(max, divisor + 1, other + 1);
}

/// A speed that divides the maximum is met exactly, one beyond the maximum gives the maximum, and
/// so does a speed of 0.
pub proof fn law_clock_is_exact_where_it_can_be(ftdi: FtdiProperties, speed_khz: u32)
    requires
        ftdi.valid(),
    ensures
        ({
            let speed = divided_clock(
                ftdi.max_clock,
                clock_divisor(ftdi.max_clock, speed_khz),
            );
            &&& speed_khz > 0 && ftdi.max_clock % speed_khz == 0 ==> speed == speed_khz
            &&& speed_khz >= ftdi.max_clock || speed_khz == 0 ==> speed == ftdi.max_clock
        }),
{
    ftdi.lemma_valid_bounds();
    let max = ftdi.max_clock as int;
    let speed = speed_khz as int;
    if speed > 0 {
        law_clock_is_not_too_fast(ftdi, speed_khz);
        if speed >= max {
            vstd::arithmetic::div_mod::lemma_fundamental_div_mod_converse(
                max + speed - 1,
                speed,
                1,
                max - 1,
            );
            assert(clock_divisor(ftdi.max_clock, speed_khz) == 0);
            assert(max / 1 == max);
        }
        if max % speed == 0 {
            let q = max / speed;
            vstd::arithmetic::div_mod::lemma_fundamental_div_mod(max, speed);
            vstd::arithmetic::div_mod::lemma_fundamental_div_mod_converse(
                max + speed - 1,
                speed,
                q,
                speed - 1,
            );
            assert(0 < q <= max) by (nonlinear_arith)
                requires
                    max == speed * q,
                    0 < max,
                    0 < speed,
            ;
            assert(clock_divisor(ftdi.max_clock, speed_khz) == q - 1);
            vstd::arithmetic::div_mod::lemma_div_by_multiple(speed, q);
            assert(max / q == speed);
        }
    } else {
        assert(max / 1 == max);
    }
}

} // verus!
