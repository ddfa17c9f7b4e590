//! Deterministic sampling of traces.
//!
//! A rate is a double, given by its IEEE 754 bits. The decision is the one that
//! arithmetic on doubles gives: a trace is sampled where the number made of the first
//! eight bytes of its id, as a double, divided by 2^64 is below the rate.

use vstd::arithmetic::power2;
use vstd::prelude::*;

use crate::double;
use crate::double::{is_nan, order_place};
use crate::wire;

verus! {

/// The bits of 1.0.
pub const ONE: u64 = 0x3ff0_0000_0000_0000;

/// How many bits a number has beyond the 53 that a double can hold.
pub open spec fn excess(n: nat) -> nat
    decreases n,
{
    if n < 0x20_0000_0000_0000 {
        0
    } else {
        1 + excess(n / 2)
    }
}

/// The integer that a number becomes as a double: the nearest one with 53 significant
/// bits, and of two that are equally near the even one.
pub open spec fn as_double(n: nat) -> nat {
    let unit = power2::pow2(excess(n));
    let quotient = n / unit;
    let rest = n % unit;
    if 2 * rest > unit || (2 * rest == unit && quotient % 2 == 1) {
        (quotient + 1) * unit
    } else {
        quotient * unit
    }
}

/// The significand of a finite double, as an integer.
pub open spec fn significand(bits: u64) -> nat {
    if (bits / 0x10_0000_0000_0000) % 2048 == 0 {
        bits as nat % 0x10_0000_0000_0000
    } else {
        0x10_0000_0000_0000 + bits as nat % 0x10_0000_0000_0000
    }
}

/// The exponent of a finite double: a positive one is its significand times two to
/// the power of its exponent minus 1075.
pub open spec fn exponent(bits: u64) -> nat {
    if (bits / 0x10_0000_0000_0000) % 2048 == 0 {
        1
    } else {
        ((bits / 0x10_0000_0000_0000) % 2048) as nat
    }
}

/// Whether `n`, as a double, divided by 2^64 is below a positive finite double.
pub open spec fn below(n: nat, bits: u64) -> bool {
    as_double(n) * power2::pow2(1011) < significand(bits) * power2::pow2(exponent(bits))
}

/// Whether a trace with this id is sampled at this rate: always from 1.0 on, never up
/// to 0.0 or where the rate is no number, else by the first eight bytes of the id.
pub open spec fn sampled(trace_id: Seq<u8>, rate: u64) -> bool {
    if double::nan(rate) {
        false
    } else if double::place(rate) >= double::place(ONE) {
        true
    } else if double::place(rate) <= 0 {
        false
    } else {
        below(wire::le_value(trace_id.take(8)), rate)
    }
}

/// Two to the power of `k`.
fn power_of_two(k: u32) -> (p: u128)
    requires
        k <= 64,
    ensures
        p == power2::pow2(k as nat),
        p <= 0x1_0000_0000_0000_0000,
{
    let mut p: u128 = 1;
    let mut i: u32 = 0;
    proof {
        power2::lemma2_to64();
        power2::lemma2_to64_rest();
    }
    while i < k
        invariant
            i <= k <= 64,
            p == power2::pow2(i as nat),
            p <= 0x1_0000_0000_0000_0000,
            power2::pow2(64) == 0x1_0000_0000_0000_0000,
        decreases k - i,
    {
        proof {
            power2::lemma_pow2_unfold((i + 1) as nat);
            if i + 1 < 64 {
                power2::lemma_pow2_strictly_increases((i + 1) as nat, 64);
            }
        }
        p = p * 2;
        i = i + 1;
    }
    p
}

proof fn lemma_excess_small(n: nat)
    requires
        n < 0x1_0000_0000_0000_0000,
    ensures
        excess(n) <= 11,
{
    reveal_with_fuel(excess, 13);
}

/// The integer that a number becomes as a double.
fn round_to_double(n: u64) -> (r: u128)
    ensures
        r == as_double(n as nat),
        r <= 0x1_0000_0000_0000_0000,
{
    let mut k: u32 = 0;
    let mut q: u64 = n;
    proof {
        lemma_excess_small(n as nat);
        power2::lemma2_to64();
    }
    while q >= 0x20_0000_0000_0000
        invariant
            k + excess(q as nat) == excess(n as nat) <= 11,
            q == n as nat / power2::pow2(k as nat),
        decreases q,
    {
        proof {
            power2::lemma_pow2_pos(k as nat);
            power2::lemma_pow2_unfold((k + 1) as nat);
            vstd::arithmetic::div_mod::lemma_div_denominator(
                n as int,
                power2::pow2(k as nat) as int,
                2,
            );
            assert(power2::pow2(k as nat) * 2 == power2::pow2((k + 1) as nat));
        }
        q = q / 2;
        k = k + 1;
    }
    let unit: u128 = power_of_two(k);
    proof {
        power2::lemma_pow2_pos(k as nat);
        power2::lemma2_to64();
        if k < 11 {
            power2::lemma_pow2_strictly_increases(k as nat, 11);
        }
        vstd::arithmetic::div_mod::lemma_fundamental_div_mod(n as int, unit as int);
        assert(q as int * unit as int <= n as int) by (nonlinear_arith)
            requires
                n as int == unit as int * q as int + (n as int % unit as int),
                0 <= n as int % unit as int,
        ;
        assert((q as int + 1) * unit as int <= 0x20_0000_0000_0000 * 2048) by (nonlinear_arith)
            requires
                0 <= q < 0x20_0000_0000_0000,
                0 <= unit <= 2048,
        ;
        assert(q as int * unit as int <= (q as int + 1) * unit as int) by (nonlinear_arith)
            requires
                0 <= unit,
        ;
    }
    let rest: u128 = n as u128 % unit;
    if 2 * rest > unit || (2 * rest == unit && q % 2 == 1) {
        (q as u128 + 1) * unit
    } else {
        q as u128 * unit
    }
}

/// Whether `n`, as a double, divided by 2^64 is below a rate between 0.0 and 1.0.
fn is_below(n: u64, rate: u64) -> (r: bool)
    requires
        0 < double::place(rate) < double::place(ONE),
    ensures
        r == below(n as nat, rate),
{
    let hash: u128 = round_to_double(n);
    let biased: u64 = (rate / 0x10_0000_0000_0000) % 2048;
    let fraction: u64 = rate % 0x10_0000_0000_0000;
    let m: u64 = if biased == 0 {
        fraction
    } else {
        0x10_0000_0000_0000 + fraction
    };
    let e: u64 = if biased == 0 {
        1
    } else {
        biased
    };
    assert(rate < 0x3ff0_0000_0000_0000);
    assert(e <= 1022);
    assert(0 < m < 0x20_0000_0000_0000);
    assert(significand(rate) == m && exponent(rate) == e);
    if e >= 1011 {
        let scale: u128 = power_of_two((e - 1011) as u32);
        proof {
            let k = (e - 1011) as nat;
            power2::lemma2_to64();
            if k < 11 {
                power2::lemma_pow2_strictly_increases(k, 11);
            }
            assert(m as int * scale as int <= 0x20_0000_0000_0000 * 2048) by (nonlinear_arith)
                requires
                    0 < m < 0x20_0000_0000_0000,
                    0 <= scale <= 2048,
            ;
            lemma_scaled_up(hash as int, m as int, e as nat);
        }
        hash < m as u128 * scale
    } else {
        let k: u64 = 1011 - e;
        proof {
            lemma_scaled_down(hash as int, m as int, e as nat);
        }
        if hash == 0 {
            proof {
                assert(0 * power2::pow2(k as nat) as int == 0) by (nonlinear_arith);
            }
            true
        } else if k >= 53 {
            proof {
                power2::lemma2_to64_rest();
                if k > 53 {
                    power2::lemma_pow2_strictly_increases(53, k as nat);
                }
                let s = power2::pow2(k as nat) as int;
                assert(hash as int * s >= s) by (nonlinear_arith)
                    requires
                        hash >= 1,
                        s >= 0,
                ;
            }
            false
        } else {
            let scale: u128 = power_of_two(k as u32);
            proof {
                power2::lemma2_to64_rest();
                power2::lemma_pow2_strictly_increases(k as nat, 53);
                assert(hash as int * scale as int <= 0x1_0000_0000_0000_0000
                    * 0x20_0000_0000_0000) by (nonlinear_arith)
                    requires
                        0 <= hash <= 0x1_0000_0000_0000_0000,
                        0 <= scale <= 0x20_0000_0000_0000,
                ;
            }
            hash * scale < m as u128
        }
    }
}

proof fn lemma_scaled_up(hash: int, m: int, e: nat)
    requires
        e >= 1011,
    ensures
        hash * power2::pow2(1011) < m * power2::pow2(e) <==> hash < m * power2::pow2(
            (e - 1011) as nat,
        ),
{
    let k = (e - 1011) as nat;
    let p = power2::pow2(1011) as int;
    let s = power2::pow2(k) as int;
    power2::lemma_pow2_adds(1011, k);
    power2::lemma_pow2_pos(1011);
    assert(m * (p * s) == (m * s) * p) by (nonlinear_arith);
    lemma_cancel(hash, m * s, p);
}

proof fn lemma_scaled_down(hash: int, m: int, e: nat)
    requires
        e < 1011,
    ensures
        hash * power2::pow2(1011) < m * power2::pow2(e) <==> hash * power2::pow2(
            (1011 - e) as nat,
        ) < m,
{
    let k = (1011 - e) as nat;
    let p = power2::pow2(e) as int;
    let s = power2::pow2(k) as int;
    power2::lemma_pow2_adds(e, k);
    power2::lemma_pow2_pos(e);
    assert(hash * (p * s) == (hash * s) * p) by (nonlinear_arith);
    lemma_cancel(hash * s, m, p);
}

proof fn lemma_cancel(a: int, b: int, p: int)
    requires
        p > 0,
    ensures
        a * p < b * p <==> a < b,
{
    assert(a * p < b * p <==> a < b) by (nonlinear_arith)
        requires
            p > 0,
    ;
}

/// The number made of the first eight bytes of an id, lowest first.
fn first_eight(trace_id: &[u8; 16]) -> (n: u64)
    ensures
        n == wire::le_value(trace_id@.take(8)),
{
    let ghost bytes = trace_id@.take(8);
    let mut n: u64 = 0;
    let mut i: usize = 8;
    assert(bytes.skip(8) =~= Seq::<u8>::empty());
    proof {
        reveal_with_fuel(vstd::arithmetic::power::pow, 9);
    }
    while i > 0
        invariant
            i <= 8,
            bytes == trace_id@.take(8),
            n == wire::le_value(bytes.skip(i as int)),
            n < vstd::arithmetic::power::pow(256, (8 - i) as nat),
            vstd::arithmetic::power::pow(256, 8) == 0x1_0000_0000_0000_0000,
        decreases i,
    {
        proof {
            assert(bytes.skip(i - 1).skip(1) =~= bytes.skip(i as int));
            reveal(vstd::arithmetic::power::pow);
            let p = vstd::arithmetic::power::pow(256, (8 - i) as nat);
            assert(vstd::arithmetic::power::pow(256, (8 - i + 1) as nat) == 256 * p);
            if i > 1 {
                vstd::arithmetic::power::lemma_pow_strictly_increases(256, (9 - i) as nat, 8);
            }
        }
        i = i - 1;
        n = trace_id[i] as u64 + 256 * n;
    }
    assert(bytes.skip(0) =~= bytes);
    n
}

/// Whether a trace with this id is sampled at this rate. The same id gets the same
/// decision everywhere.
pub fn should_sample(trace_id: [u8; 16], sampling_rate: u64) -> (r: bool)
    ensures
        r == sampled(trace_id@, sampling_rate),
{
    if is_nan(sampling_rate) {
        return false;
    }
    let place: i64 = order_place(sampling_rate);
    if place >= order_place(ONE) {
        return true;
    }
    if place <= 0 {
        return false;
    }
    is_below(first_eight(&trace_id), sampling_rate)
}

/// At a rate of 1.0 or more every trace is sampled, at 0.0 or less none.
pub proof fn lemma_sampling_bounds(trace_id: Seq<u8>, rate: u64)
    requires
        !double::nan(rate),
    ensures
        double::place(rate) >= double::place(ONE) ==> sampled(trace_id, rate),
        double::place(rate) <= 0 ==> !sampled(trace_id, rate),
{
}

/// Only the first eight bytes of the id decide.
pub proof fn lemma_sampling_by_prefix(a: Seq<u8>, b: Seq<u8>, rate: u64)
    requires
        a.take(8) == b.take(8),
    ensures
        sampled(a, rate) == sampled(b, rate),
{
}

/// A higher rate samples every trace that a lower one samples.
pub proof fn lemma_sampling_monotonic(trace_id: Seq<u8>, low: u64, high: u64)
    requires
        !double::nan(low),
        !double::nan(high),
        double::place(low) <= double::place(high),
        sampled(trace_id, low),
    ensures
        sampled(trace_id, high),
{
    if 0 < double::place(low) && double::place(high) < double::place(ONE) {
        lemma_value_monotonic(low, high);
    }
}

/// Of two positive finite doubles, the one with the greater place is the greater.
proof fn lemma_value_monotonic(low: u64, high: u64)
    requires
        0 < low <= high < 0x7ff0_0000_0000_0000,
    ensures
        significand(low) * power2::pow2(exponent(low)) <= significand(high) * power2::pow2(
            exponent(high),
        ),
{
    let m = significand(low) as int;
    let n = significand(high) as int;
    let p = power2::pow2(exponent(low)) as int;
    power2::lemma_pow2_pos(exponent(low));
    if exponent(low) == exponent(high) {
        assert(m <= n);
        assert(m * p <= n * p) by (nonlinear_arith)
            requires
                m <= n,
                p >= 0,
        ;
    } else {
        let k = (exponent(high) - exponent(low)) as nat;
        assert(exponent(low) < exponent(high));
        power2::lemma_pow2_adds(exponent(low), k);
        power2::lemma_pow2_pos(k);
        power2::lemma_pow2_unfold(k);
        power2::lemma_pow2_pos((k - 1) as nat);
        let s = power2::pow2(k) as int;
        assert(s >= 2);
        assert(m <= n * s) by (nonlinear_arith)
            requires
                m < 0x20_0000_0000_0000,
                n >= 0x10_0000_0000_0000,
                s >= 2,
        ;
        assert(m * p <= n * (p * s)) by (nonlinear_arith)
            requires
                m <= n * s,
                p >= 0,
        ;
    }
}

/// A number becomes a double that differs from it by at most 1024, and by nothing where it has at
/// most 53 bits.
proof fn lemma_as_double_near(n: nat)
    requires
        n < 0x1_0000_0000_0000_0000,
    ensures
        n - 1024 <= as_double(n) <= n + 1024,
        n < 0x20_0000_0000_0000 ==> as_double(n) == n,
{
    let unit = power2::pow2(excess(n)) as int;
    lemma_excess_small(n);
    power2::lemma2_to64();
    if excess(n) < 11 {
        power2::lemma_pow2_strictly_increases(excess(n), 11);
    }
    power2::lemma_pow2_pos(excess(n));
    let quotient = n as int / unit;
    let rest = n as int % unit;
    vstd::arithmetic::div_mod::lemma_fundamental_div_mod(n as int, unit);
    assert((quotient + 1) * unit == unit * quotient + unit) by (nonlinear_arith);
    assert(quotient * unit == unit * quotient) by (nonlinear_arith);
}

/// The share of traces that is sampled is the rate: with the number that the first eight bytes of
/// the id make, lowest first, a trace is sampled where the number is below the rate's part of
/// 2^64, and not sampled where it is not. Only at less than 1025 from that border, where the
/// number is rounded, nothing is said; where the number has at most 53 bits the border is exact.
/// The rate is its 53-bit fraction times two to the power of its exponent less 1075.
pub proof fn lemma_sampled_share_is_rate(trace_id: Seq<u8>, rate: u64)
    requires
        trace_id.len() == 16,
        0 < rate < 0x3ff0_0000_0000_0000,
    ensures
        ({
            let n = wire::le_value(trace_id.take(8)) as int;
            let raised = (rate / 0x10_0000_0000_0000) % 2048;
            let fraction = rate as int % 0x10_0000_0000_0000;
            let m: int = if raised == 0 {
                fraction
            } else {
                0x10_0000_0000_0000 + fraction
            };
            let e: nat = if raised == 0 {
                1
            } else {
                raised as nat
            };
            let unit = power2::pow2(1011) as int;
            let border = m * power2::pow2(e);
            &&& (n + 1024) * unit < border ==> sampled(trace_id, rate)
            &&& (n - 1024) * unit >= border ==> !sampled(trace_id, rate)
            &&& n < 0x20_0000_0000_0000 ==> sampled(trace_id, rate) == (n * unit < border)
        }),
{
    let bytes = trace_id.take(8);
    wire::lemma_le8_value(bytes);
    let n = wire::le_value(bytes);
    lemma_as_double_near(n);
    let d = as_double(n) as int;
    let unit = power2::pow2(1011) as int;
    power2::lemma_pow2_pos(1011);
    assert((n - 1024) * unit <= d * unit <= (n + 1024) * unit) by (nonlinear_arith)
        requires
            n - 1024 <= d <= n + 1024,
            unit > 0,
    ;
    assert(significand(rate) * power2::pow2(exponent(rate)) == significand(rate) as int
        * power2::pow2(exponent(rate)));
}

/// Of two traces, the one whose number is smaller is sampled where the other is.
pub proof fn lemma_smaller_number_is_sampled(a: Seq<u8>, b: Seq<u8>, rate: u64)
    requires
        a.len() == 16,
        b.len() == 16,
        wire::le_value(a.take(8)) + 2048 <= wire::le_value(b.take(8)),
        sampled(b, rate),
    ensures
        sampled(a, rate),
{
    wire::lemma_le8_value(a.take(8));
    wire::lemma_le8_value(b.take(8));
    lemma_as_double_near(wire::le_value(a.take(8)));
    lemma_as_double_near(wire::le_value(b.take(8)));
    let x = as_double(wire::le_value(a.take(8))) as int;
    let y = as_double(wire::le_value(b.take(8))) as int;
    let unit = power2::pow2(1011) as int;
    power2::lemma_pow2_pos(1011);
    assert(x * unit <= y * unit) by (nonlinear_arith)
        requires
            x <= y,
            unit > 0,
    ;
}

/// No trace is sampled at a rate that is no number, at zero or below, and every trace at one or
/// above: by the bits of the rate.
pub proof fn lemma_sampling_at_the_ends(trace_id: Seq<u8>, rate: u64)
    ensures
        rate == 0 || 0x8000_0000_0000_0000 <= rate <= 0xfff0_0000_0000_0000 ==> !sampled(
            trace_id,
            rate,
        ),
        0x3ff0_0000_0000_0000 <= rate <= 0x7ff0_0000_0000_0000 ==> sampled(trace_id, rate),
        0x7ff0_0000_0000_0000 < rate < 0x8000_0000_0000_0000 || 0xfff0_0000_0000_0000 < rate
            ==> !sampled(trace_id, rate),
{
}

} // verus!
