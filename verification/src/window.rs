//! Window math: pure functions from a timestamp and a window size to the
//! aligned window epoch, and the weighted two-bucket estimate used by the
//! sliding window approximation.

use vstd::arithmetic::div_mod::{lemma_fundamental_div_mod, lemma_mod_bound};
use vstd::arithmetic::mul::{lemma_mul_inequality, lemma_mul_is_commutative};
use vstd::prelude::*;

verus! {

/// The aligned start (in seconds) of the window of width `size_secs` that
/// contains `now_secs`: the largest multiple of `size_secs` at most
/// `now_secs`.
pub open spec fn epoch_of(now_secs: int, size_secs: int) -> int
    recommends
        size_secs > 0,
{
    (now_secs / size_secs) * size_secs
}

/// A timestamp lies inside the window that starts at its own epoch.
pub proof fn lemma_epoch_in_window(now_secs: int, size_secs: int)
    requires
        size_secs > 0,
        now_secs >= 0,
    ensures
        0 <= epoch_of(now_secs, size_secs) <= now_secs,
        now_secs < epoch_of(now_secs, size_secs) + size_secs,
        epoch_of(epoch_of(now_secs, size_secs), size_secs) == epoch_of(now_secs, size_secs),
{
    lemma_fundamental_div_mod(now_secs, size_secs);
    lemma_mod_bound(now_secs, size_secs);
    lemma_mul_is_commutative(size_secs, now_secs / size_secs);
    let e = epoch_of(now_secs, size_secs);
    assert(e == now_secs - now_secs % size_secs);
    assert(e / size_secs == now_secs / size_secs) by {
        lemma_fundamental_div_mod(e, size_secs);
        lemma_mod_bound(e, size_secs);
        lemma_mul_is_commutative(size_secs, e / size_secs);
        assert((now_secs / size_secs) * size_secs + 0 == e);
        assert(e % size_secs == 0 && e / size_secs == now_secs / size_secs) by {
            vstd::arithmetic::div_mod::lemma_fundamental_div_mod_converse(
                e,
                size_secs,
                now_secs / size_secs,
                0,
            );
        }
    }
}

/// The epoch of the window containing `now_secs`, as the store key uses it.
pub fn current_epoch(now_secs: u64, size_secs: u64) -> (r: u64)
    requires
        size_secs > 0,
    ensures
        r == epoch_of(now_secs as int, size_secs as int),
        r <= now_secs,
{
    proof {
        lemma_epoch_in_window(now_secs as int, size_secs as int);
    }
    (now_secs / size_secs) * size_secs
}

/// Milliseconds between `now_millis` and the close of the window that
/// contains it: the numerator of the time-based weight. At the instant a
/// window opens this is the whole window; just before it closes it
/// approaches zero.
pub open spec fn remaining_millis(now_millis: int, size_secs: int) -> int
    recommends
        size_secs > 0,
{
    (epoch_of(now_millis / 1000, size_secs) + size_secs) * 1000 - now_millis
}

/// The remaining time is positive and never exceeds the window itself.
pub proof fn lemma_remaining_millis_bounds(now_millis: int, size_secs: int)
    requires
        size_secs > 0,
        now_millis >= 0,
    ensures
        1 <= remaining_millis(now_millis, size_secs) <= 1000 * size_secs,
{
    let now_secs = now_millis / 1000;
    lemma_fundamental_div_mod(now_millis, 1000);
    lemma_mod_bound(now_millis, 1000);
    lemma_epoch_in_window(now_secs, size_secs);
}

/// The nearest integer to the exact quotient `n / d`, ties rounded to the
/// even neighbour.
pub open spec fn round_half_even(n: int, d: int) -> int
    recommends
        d > 0,
        n >= 0,
{
    let q = n / d;
    let r = n % d;
    if 2 * r > d {
        q + 1
    } else if 2 * r < d {
        q
    } else if q % 2 == 0 {
        q
    } else {
        q + 1
    }
}

/// Rounding a quotient of non-negative numbers stays between the floor and
/// the floor plus one.
pub proof fn lemma_round_half_even_bounds(n: int, d: int)
    requires
        d > 0,
        n >= 0,
    ensures
        n / d <= round_half_even(n, d) <= n / d + 1,
        round_half_even(n, d) >= 0,
        n % d == 0 ==> round_half_even(n, d) == n / d,
{
    lemma_fundamental_div_mod(n, d);
    lemma_mod_bound(n, d);
    vstd::arithmetic::div_mod::lemma_div_pos_is_pos(n, d);
}

/// Rounding is monotone in the numerator.
pub proof fn lemma_round_half_even_monotone(n1: int, n2: int, d: int)
    requires
        d > 0,
        0 <= n1 <= n2,
    ensures
        round_half_even(n1, d) <= round_half_even(n2, d),
{
    vstd::arithmetic::div_mod::lemma_div_is_ordered(n1, n2, d);
    lemma_fundamental_div_mod(n1, d);
    lemma_fundamental_div_mod(n2, d);
    lemma_mod_bound(n1, d);
    lemma_mod_bound(n2, d);
    let q1 = n1 / d;
    let q2 = n2 / d;
    if q1 == q2 {
        assert(n1 % d <= n2 % d);
    } else {
        assert(q1 + 1 <= q2);
    }
}

/// The value of an absent counter: the store treats a missing key as zero.
pub open spec fn opt_count(x: Option<u64>) -> int {
    match x {
        Some(v) => v as int,
        None => 0,
    }
}

/// The weighted two-bucket estimate: the current window's own count in
/// full, plus the previous window's count scaled by the fraction of the
/// current window still remaining, rounded half to even.
pub open spec fn weighted_estimate(
    previous: int,
    current: int,
    now_millis: int,
    size_secs: int,
) -> int
    recommends
        size_secs > 0,
        previous >= 0,
        current >= 0,
        now_millis >= 0,
{
    current + round_half_even(previous * remaining_millis(now_millis, size_secs), 1000 * size_secs)
}

/// Clamp a mathematical count into the machine range of the return type.
pub open spec fn cap_u64(n: int) -> int {
    if n > u64::MAX {
        u64::MAX as int
    } else {
        n
    }
}

/// The estimate counts the current window in full and never more than the
/// previous window on top of it.
pub proof fn lemma_weighted_estimate_bounds(
    previous: int,
    current: int,
    now_millis: int,
    size_secs: int,
)
    requires
        size_secs > 0,
        previous >= 0,
        current >= 0,
        now_millis >= 0,
    ensures
        current <= weighted_estimate(previous, current, now_millis, size_secs),
        weighted_estimate(previous, current, now_millis, size_secs) <= current + previous,
{
    let rem = remaining_millis(now_millis, size_secs);
    let d = 1000 * size_secs;
    lemma_remaining_millis_bounds(now_millis, size_secs);
    lemma_round_half_even_bounds(previous * rem, d);
    assert(previous * rem >= 0) by (nonlinear_arith)
        requires
            previous >= 0,
            rem >= 1,
    ;
    lemma_fundamental_div_mod(previous * rem, d);
    lemma_mod_bound(previous * rem, d);
    let q = previous * rem / d;
    assert(q <= previous) by {
        lemma_mul_inequality(rem, d, previous);
        lemma_mul_is_commutative(rem, previous);
        lemma_mul_is_commutative(d, previous);
        assert(previous * rem <= previous * d);
        vstd::arithmetic::div_mod::lemma_div_is_ordered(previous * rem, previous * d, d);
        vstd::arithmetic::div_mod::lemma_div_by_multiple(previous, d);
    }
    if q == previous {
        assert(previous * rem % d == previous * rem - q * d);
        assert(previous * rem - previous * d <= 0) by {
            lemma_mul_inequality(rem, d, previous);
            lemma_mul_is_commutative(rem, previous);
            lemma_mul_is_commutative(d, previous);
        }
        assert(previous * rem % d == 0);
        assert(round_half_even(previous * rem, d) == q);
    }
}

/// The estimate never grows as time passes inside one window: the previous
/// window's contribution decays.
pub proof fn lemma_weighted_estimate_monotone(
    previous: int,
    current: int,
    now1: int,
    now2: int,
    size_secs: int,
)
    requires
        size_secs > 0,
        previous >= 0,
        current >= 0,
        0 <= now1 <= now2,
        epoch_of(now1 / 1000, size_secs) == epoch_of(now2 / 1000, size_secs),
    ensures
        weighted_estimate(previous, current, now2, size_secs) <= weighted_estimate(
            previous,
            current,
            now1,
            size_secs,
        ),
{
    let rem1 = remaining_millis(now1, size_secs);
    let rem2 = remaining_millis(now2, size_secs);
    lemma_remaining_millis_bounds(now1, size_secs);
    lemma_remaining_millis_bounds(now2, size_secs);
    assert(rem2 <= rem1);
    assert(previous * rem2 <= previous * rem1) by {
        lemma_mul_inequality(rem2, rem1, previous);
        lemma_mul_is_commutative(rem2, previous);
        lemma_mul_is_commutative(rem1, previous);
    }
    assert(previous * rem2 >= 0) by (nonlinear_arith)
        requires
            previous >= 0,
            rem2 >= 1,
    ;
    lemma_round_half_even_monotone(previous * rem2, previous * rem1, 1000 * size_secs);
}

/// Weighted count from the previous and current window counters, exactly as
/// both the `record` and the `fetch` path of the sliding window algorithm
/// derive it. Absent counters count as zero. A window size whose millisecond
/// width does not fit the machine word is rejected by the callers; the
/// result is clamped into the return type (unreachable for realistic
/// counters, but stated).
pub fn sliding_window_count(
    previous: Option<u64>,
    current: Option<u64>,
    now_millis: u64,
    size_secs: u64,
) -> (r: u64)
    requires
        size_secs > 0,
        1000 * size_secs <= u64::MAX,
    ensures
        r == cap_u64(
            weighted_estimate(
                opt_count(previous),
                opt_count(current),
                now_millis as int,
                size_secs as int,
            ),
        ),
{
    let now_secs = now_millis / 1000;
    let epoch = current_epoch(now_secs, size_secs);
    proof {
        lemma_remaining_millis_bounds(now_millis as int, size_secs as int);
    }
    let end_ms: u128 = (epoch as u128 + size_secs as u128) * 1000;
    let rem: u128 = end_ms - now_millis as u128;
    let prev: u64 = match previous {
        Some(v) => v,
        None => 0,
    };
    let cur: u64 = match current {
        Some(v) => v,
        None => 0,
    };
    proof {
        assert(prev as u128 * rem <= u128::MAX as u128) by (nonlinear_arith)
            requires
                0 <= prev as u128 <= u64::MAX as u128,
                0 <= rem <= u64::MAX as u128,
        ;
    }
    let n: u128 = prev as u128 * rem;
    let d: u128 = 1000 * size_secs as u128;
    let q: u128 = n / d;
    let rest: u128 = n % d;
    proof {
        assert(q < u128::MAX as u128) by {
            vstd::arithmetic::div_mod::lemma_div_is_ordered_by_denominator(
                n as int,
                1000,
                d as int,
            );
            vstd::arithmetic::div_mod::lemma_div_is_ordered(n as int, u128::MAX as int, 1000);
        }
    }
    let rounded: u128 = if 2 * rest > d {
        q + 1
    } else if 2 * rest < d {
        q
    } else if q % 2 == 0 {
        q
    } else {
        q + 1
    };
    proof {
        assert(q <= prev as u128) by {
            lemma_mul_inequality(rem as int, d as int, prev as int);
            lemma_mul_is_commutative(rem as int, prev as int);
            lemma_mul_is_commutative(d as int, prev as int);
            vstd::arithmetic::div_mod::lemma_div_is_ordered(
                n as int,
                prev as int * d as int,
                d as int,
            );
            vstd::arithmetic::div_mod::lemma_div_by_multiple(prev as int, d as int);
        }
    }
    let total: u128 = cur as u128 + rounded;
    if total > u64::MAX as u128 {
        u64::MAX
    } else {
        total as u64
    }
}

} // verus!
