//! Instants and time buckets.
//!
//! An instant is a count of milliseconds since the Unix epoch, in UTC. A bucket
//! is the window of fixed width that an instant floors into.
use vstd::prelude::*;
use vstd::arithmetic::div_mod::{lemma_fundamental_div_mod, lemma_fundamental_div_mod_converse};

verus! {

/// The instants the library works with lie within this many milliseconds of
/// the epoch, on either side: one hundred million days.
pub const MAX_TIME_MS: i64 = 8_640_000_000_000_000;

/// The longest period, in seconds, on either side of zero.
pub const MAX_PERIOD: i64 = 1_000_000_000_000_000_000;

/// Milliseconds in one hour.
pub const HOUR_MS: i64 = 3_600_000;

/// The instant lies in the range the library works with.
pub open spec fn valid_time(ms: int) -> bool {
    -MAX_TIME_MS <= ms <= MAX_TIME_MS
}

/// The whole seconds since the epoch at the instant `ms`, rounded down.
pub open spec fn whole_seconds(ms: int) -> int {
    ms / 1000
}

/// The hour, counted from the epoch, in which the instant `ms` lies.
pub open spec fn hour_index(ms: int) -> int {
    ms / (HOUR_MS as int)
}

/// The quotient of `t` by `width`, rounded down, for a width that is not zero.
pub open spec fn floor_quotient(t: int, width: int) -> int {
    if width > 0 {
        t / width
    } else {
        (-t) / (-width)
    }
}

/// The start of the bucket of width `width` in which `t` lies: the quotient
/// of `t` by `width`, rounded down, times `width`.
pub open spec fn bucket_start(t: int, width: int) -> int {
    floor_quotient(t, width) * width
}

/// The start, in seconds, of the bucket of width `period` in which the
/// instant `ms` lies.
pub open spec fn bucket_at(ms: i64, period: int) -> int {
    bucket_start(whole_seconds(ms as int), period)
}

/// Whether the instant lies in the range the library works with.
pub fn is_valid_time(ms: i64) -> (r: bool)
    ensures
        r == valid_time(ms as int),
{
    -MAX_TIME_MS <= ms && ms <= MAX_TIME_MS
}

/// The quotient of `a` by a positive `b`, rounded down.
pub fn floor_div(a: i64, b: i64) -> (r: i64)
    requires
        b > 0,
    ensures
        r == a / b,
{
    if a >= 0 {
        a / b
    } else {
        let m: i64 = -(a + 1);
        let q: i64 = m / b;
        proof {
            lemma_fundamental_div_mod(m as int, b as int);
            let rem = (m as int) % (b as int);
            assert(b * q == q * b) by (nonlinear_arith);
            assert((-q - 1) * b == -(q * b) - b) by (nonlinear_arith);
            lemma_fundamental_div_mod_converse(a as int, b as int, -q - 1, b - rem - 1);
        }
        -q - 1
    }
}

/// The whole seconds since the epoch at the instant `ms`, rounded down.
pub fn seconds_of(ms: i64) -> (r: i64)
    ensures
        r == whole_seconds(ms as int),
{
    floor_div(ms, 1000)
}

/// The hour, counted from the epoch, in which the instant `ms` lies.
pub fn hour_of(ms: i64) -> (r: i64)
    ensures
        r == hour_index(ms as int),
{
    floor_div(ms, HOUR_MS)
}

/// The start of the bucket of width `width` in which `t` lies.
pub fn bucket_of(t: i64, width: i64) -> (r: i64)
    requires
        width != 0,
        -MAX_PERIOD <= width <= MAX_PERIOD,
        valid_time(t as int),
    ensures
        r == bucket_start(t as int, width as int),
{
    if width > 0 {
        let q: i64 = floor_div(t, width);
        proof {
            lemma_fundamental_div_mod(t as int, width as int);
            assert(width * q == q * width) by (nonlinear_arith);
        }
        q * width
    } else {
        let up: i64 = -width;
        let q: i64 = floor_div(-t, up);
        proof {
            lemma_fundamental_div_mod(-t as int, up as int);
            assert(up * q == q * up) by (nonlinear_arith);
            assert(q * width == -(q * up)) by (nonlinear_arith)
                requires
                    up == -width,
            ;
        }
        let m: i64 = q * up;
        -m
    }
}

/// A bucket of positive width holds the instants from its start up to, and
/// without, its start plus the width; its start is a multiple of the width.
pub proof fn lemma_bucket_holds(t: int, width: int)
    requires
        width > 0,
    ensures
        bucket_start(t, width) <= t < bucket_start(t, width) + width,
        bucket_start(t, width) % width == 0,
{
    lemma_fundamental_div_mod(t, width);
    assert(width * (t / width) == (t / width) * width) by (nonlinear_arith);
    lemma_fundamental_div_mod_converse(bucket_start(t, width), width, t / width, 0);
}

/// Two instants lie in one bucket exactly when the second lies between the
/// start of the first's bucket and that start plus the width.
pub proof fn lemma_same_bucket(t: int, u: int, width: int)
    requires
        width > 0,
    ensures
        bucket_start(u, width) == bucket_start(t, width) <==> bucket_start(t, width) <= u
            < bucket_start(t, width) + width,
{
    lemma_bucket_holds(t, width);
    lemma_bucket_holds(u, width);
    let b = bucket_start(t, width);
    if b <= u < b + width {
        lemma_fundamental_div_mod_converse(u, width, t / width, u - b);
    }
}

/// Buckets of positive width never go back: a later instant lies in the
/// same bucket or in a later one.
pub proof fn lemma_bucket_never_goes_back(earlier: i64, later: i64, width: int)
    requires
        width > 0,
        earlier <= later,
    ensures
        bucket_at(earlier, width) <= bucket_at(later, width),
{
    let t = whole_seconds(earlier as int);
    let u = whole_seconds(later as int);
    vstd::arithmetic::div_mod::lemma_div_is_ordered(earlier as int, later as int, 1000);
    vstd::arithmetic::div_mod::lemma_div_is_ordered(t, u, width);
    vstd::arithmetic::mul::lemma_mul_inequality(t / width, u / width, width);
}

} // verus!
