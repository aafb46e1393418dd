use vstd::prelude::*;

use crate::time::{Duration, NANOS_PER_SEC};

verus! {

/// `a / b` rounded up, for a positive `b`.
pub open spec fn div_ceil(a: nat, b: nat) -> nat
    recommends
        b > 0,
{
    ((a + b - 1) / (b as int)) as nat
}

pub open spec fn min_nat(a: nat, b: nat) -> nat {
    if a <= b {
        a
    } else {
        b
    }
}

/// Simulation time to advance before the final clamp, all values in nanoseconds.
///
/// Below `min_latency` the step is scaled by `buffer_remaining / min_latency` (rounded down).
/// Above `min_latency + hysteresis` it grows by `real_time` times the excess in seconds
/// (rounded up), but never by more than the excess itself. In between it is `real_time`.
pub open spec fn scaled_step(real_time: nat, buffer_remaining: nat, min_latency: nat, hysteresis: nat) -> nat {
    if buffer_remaining < min_latency {
        real_time * buffer_remaining / min_latency
    } else if buffer_remaining > min_latency + hysteresis {
        let error = (buffer_remaining - (min_latency + hysteresis)) as nat;
        real_time + min_nat(div_ceil(real_time * error, NANOS_PER_SEC as nat), error)
    } else {
        real_time
    }
}

/// What `throttle` returns, in nanoseconds: the scaled step, never more than the buffer holds.
pub open spec fn throttle_spec(real_time: nat, buffer_remaining: nat, min_latency: nat, hysteresis: nat) -> nat {
    min_nat(scaled_step(real_time, buffer_remaining, min_latency, hysteresis), buffer_remaining)
}

/// Compute the amount of time to advance a simulation after `real_time` has passed, given
/// `buffer_remaining` simulation time until data is exhausted.
///
/// Where `buffer_remaining` lies between `min_latency` and `min_latency + hysteresis`,
/// `real_time` is returned exactly. Otherwise the step is scaled to bring the buffer back into
/// that window: slower as the buffer runs dry (a full stop at an empty buffer), faster as it
/// grows, at one extra second per second for each second of excess. The result never exceeds
/// `buffer_remaining`.
pub fn throttle(
    real_time: Duration,
    buffer_remaining: Duration,
    min_latency: Duration,
    hysteresis: Duration,
) -> (r: Duration)
    ensures
        r@ == throttle_spec(real_time@, buffer_remaining@, min_latency@, hysteresis@),
        r@ <= buffer_remaining@,
        min_latency@ <= buffer_remaining@ <= min_latency@ + hysteresis@ && real_time@
            <= buffer_remaining@ ==> r == real_time,
        buffer_remaining@ < min_latency@ && real_time@ > 0 ==> r@ < real_time@,
        buffer_remaining@ > min_latency@ + hysteresis@ && buffer_remaining@ > real_time@
            && real_time@ > 0 ==> r@ > real_time@,
{
    let step: u128 = real_time.as_nanos() as u128;
    let buffer: u128 = buffer_remaining.as_nanos() as u128;
    let min: u128 = min_latency.as_nanos() as u128;
    let window_end: u128 = min + hysteresis.as_nanos() as u128;
    let scaled: u128 = if buffer < min {
        // About to run out of data: slow down in proportion to the remaining margin.
        proof {
            assert(step * buffer <= u64::MAX * u64::MAX) by (nonlinear_arith)
                requires
                    step <= u64::MAX,
                    buffer <= u64::MAX,
            ;
            assert(step * buffer <= step * min) by (nonlinear_arith)
                requires
                    buffer < min,
            ;
            assert((step * buffer) / (min as int) <= step) by (nonlinear_arith)
                requires
                    step * buffer <= step * min,
                    min > 0,
            ;
        }
        step * buffer / min
    } else if buffer > window_end {
        // Fallen too far behind: speed up, but by no more than the known excess, or we would
        // run out of data later.
        let error: u128 = buffer - window_end;
        proof {
            assert(step * error <= u64::MAX * u64::MAX) by (nonlinear_arith)
                requires
                    step <= u64::MAX,
                    error <= u64::MAX,
            ;
        }
        let product: u128 = step * error;
        let boost: u128 = (product + (NANOS_PER_SEC as u128 - 1)) / NANOS_PER_SEC as u128;
        if boost < error {
            step + boost
        } else {
            step + error
        }
    } else {
        step
    };
    // A large `real_time` could overshoot the whole buffer.
    let clamped: u128 = if scaled < buffer {
        scaled
    } else {
        buffer
    };
    proof {
        let (rt, br, ml, hy) = (real_time@, buffer_remaining@, min_latency@, hysteresis@);
        if br < ml && rt > 0 {
            assert(rt * br < rt * ml) by (nonlinear_arith)
                requires
                    br < ml,
                    rt > 0,
            ;
            assert(rt * br / ml < rt) by (nonlinear_arith)
                requires
                    rt * br < rt * ml,
                    ml > 0,
            ;
        }
        if br > ml + hy && rt > 0 {
            let error = (br - (ml + hy)) as nat;
            assert(rt * error >= 1) by (nonlinear_arith)
                requires
                    rt > 0,
                    error > 0,
            ;
            assert(div_ceil(rt * error, NANOS_PER_SEC as nat) >= 1);
        }
    }
    Duration::from_nanos(clamped as u64)
}

} // verus!
