//! Transfer rates in bits per second, as text.

use crate::double::Double;
#[allow(unused_imports)]
use crate::double::{
    Dyadic, below, binade, in_binade, integer, nearest, quotient, rounded_multiple, sum,
    times_eight,
};
use crate::duration::NANOS_PER_SEC;
#[allow(unused_imports)]
use crate::duration::{duration_nanos, duration_secs};
use crate::text::{digit_to_char, push_decimal, push_text};
#[allow(unused_imports)]
use crate::text::{decimal, digit_char};
use std::time::Duration;
use vstd::prelude::*;

verus! {

/// The number of the largest unit; plain bits per second are unit zero.
pub const LARGEST_UNIT: u8 = 4;

/// The name of a unit; each one is a thousand times the one before.
pub open spec fn unit_name_spec(unit: nat) -> Seq<char> {
    if unit == 0 {
        "bps"@
    } else if unit == 1 {
        "Kbps"@
    } else if unit == 2 {
        "Mbps"@
    } else if unit == 3 {
        "Gbps"@
    } else {
        "Tbps"@
    }
}

/// A span of time in seconds. The seconds and the fraction of a second are each
/// rounded before they are added; a part that is zero leaves the other as it is.
pub open spec fn seconds_spec(secs: nat, nanos: nat) -> Dyadic {
    let fraction = quotient(integer(nanos), integer(NANOS_PER_SEC as nat));
    if nanos == 0 {
        integer(secs)
    } else if secs == 0 {
        fraction
    } else {
        sum(integer(secs), fraction)
    }
}

/// Bits per second.
pub open spec fn bits_per_second_spec(bytes: nat, secs: nat, nanos: nat) -> Dyadic {
    quotient(times_eight(integer(bytes)), seconds_spec(secs, nanos))
}

/// A rate of `x` in the given unit, moved to larger units while it is a thousand or more.
pub open spec fn settled(x: Dyadic, unit: nat) -> (Dyadic, nat)
    decreases LARGEST_UNIT - unit,
{
    if unit >= LARGEST_UNIT || below(x, 1000) {
        (x, unit)
    } else {
        settled(quotient(x, integer(1000)), unit + 1)
    }
}

/// The digits shown after the point: none for plain bits per second, and three
/// significant digits in all below a thousand of a larger unit.
pub open spec fn decimals_spec(x: Dyadic, unit: nat) -> nat {
    if unit == 0 {
        0
    } else if below(x, 10) {
        2
    } else if below(x, 100) {
        1
    } else {
        0
    }
}

/// `10^decimals`, for the numbers of digits that are shown.
pub open spec fn power_of_ten(decimals: nat) -> nat {
    if decimals == 0 {
        1
    } else if decimals == 1 {
        10
    } else {
        100
    }
}

/// `n / 10^decimals`, written with that many digits after the point.
pub open spec fn fixed_point(n: nat, decimals: nat) -> Seq<char> {
    if decimals == 0 {
        decimal(n)
    } else if decimals == 1 {
        decimal(n / 10) + seq!['.', digit_char(n % 10)]
    } else {
        decimal(n / 100) + seq!['.', digit_char(n / 10 % 10), digit_char(n % 10)]
    }
}

/// A rate in a given unit as text.
pub open spec fn rate_text(x: Dyadic, unit: nat) -> Seq<char> {
    let decimals = decimals_spec(x, unit);
    fixed_point(rounded_multiple(x, power_of_ten(decimals)), decimals) + unit_name_spec(unit)
}

/// The rate of `bytes` bytes in the given time as text.
pub open spec fn bitrate_text(bytes: nat, secs: nat, nanos: nat) -> Seq<char> {
    if bytes == 0 || (secs == 0 && nanos == 0) {
        "0bps"@
    } else {
        let (x, unit) = settled(bits_per_second_spec(bytes, secs, nanos), 0);
        rate_text(x, unit)
    }
}

/// An integer that takes 53 bits after doubling it `k` times is exact.
proof fn lemma_integer_exponent(n: nat, k: nat)
    requires
        in_binade(n, 1, -(k as int)),
        k > 0,
    ensures
        integer(n).exp == -k,
{
    crate::double::lemma_binade_unique(n, 1, -(k as int));
    assert(crate::double::round_half_even(n * vstd::arithmetic::power2::pow2(k), 1) == n
        * vstd::arithmetic::power2::pow2(k));
}

/// A thousand as a binary64 number.
fn thousand() -> (x: Double)
    ensures
        x.wf(),
        x@ == integer(1000),
        x.exp == -43,
{
    proof {
        vstd::arithmetic::power2::lemma2_to64_rest();
        lemma_integer_exponent(1000, 43);
    }
    Double::from_integer(1000)
}

/// A span of time in seconds.
fn seconds(secs: u64, nanos: u32) -> (x: Double)
    requires
        secs > 0 || nanos > 0,
        nanos < NANOS_PER_SEC,
    ensures
        x.wf(),
        x@ == seconds_spec(secs as nat, nanos as nat),
        -82 <= x.exp <= 1060,
{
    if nanos == 0 {
        Double::from_integer(secs)
    } else {
        proof {
            vstd::arithmetic::power2::lemma2_to64();
            lemma_integer_exponent(1_000_000_000, 23);
        }
        let billion = Double::from_integer(NANOS_PER_SEC as u64);
        let fraction = Double::from_integer(nanos as u64).divide(billion);
        if secs == 0 {
            fraction
        } else {
            Double::from_integer(secs).plus(fraction)
        }
    }
}

/// Returns the name of a unit.
fn unit_name(unit: u8) -> (name: &'static str)
    ensures
        name@ == unit_name_spec(unit as nat),
{
    if unit == 0 {
        "bps"
    } else if unit == 1 {
        "Kbps"
    } else if unit == 2 {
        "Mbps"
    } else if unit == 3 {
        "Gbps"
    } else {
        "Tbps"
    }
}

/// Appends `n / 10^decimals` with that many digits after the point.
fn push_fixed_point(text: &mut String, n: u128, decimals: u8)
    requires
        decimals <= 2,
    ensures
        final(text)@ == old(text)@ + fixed_point(n as nat, decimals as nat),
{
    if decimals == 0 {
        push_decimal(text, n);
    } else if decimals == 1 {
        push_decimal(text, n / 10);
        text.push('.');
        text.push(digit_to_char((n % 10) as u8));
    } else {
        push_decimal(text, n / 100);
        text.push('.');
        text.push(digit_to_char((n / 10 % 10) as u8));
        text.push(digit_to_char((n % 10) as u8));
    }
    assert(text@ =~= old(text)@ + fixed_point(n as nat, decimals as nat));
}

/// Formats the rate at which `bytes` bytes went over in `elapsed`, in bits per
/// second with an SI prefix and three significant digits.
pub fn format_bitrate(bytes: u64, elapsed: Duration) -> (text: String)
    ensures
        text@ == bitrate_text(
            bytes as nat,
            duration_secs(elapsed) as nat,
            duration_nanos(elapsed) as nat,
        ),
{
    let secs: u64 = elapsed.as_secs();
    let nanos: u32 = elapsed.subsec_nanos();
    let mut text = String::new();
    if bytes == 0 || (secs == 0 && nanos == 0) {
        push_text(&mut text, "0bps");
        assert(text@ =~= "0bps"@);
        return text;
    }
    let mut rate = Double::from_integer(bytes).eightfold().divide(seconds(secs, nanos));
    let ghost first = rate@;
    let mut unit: u8 = 0;
    let step = thousand();
    while unit < LARGEST_UNIT && !rate.is_below(1000)
        invariant
            rate.wf(),
            step.wf(),
            step@ == integer(1000),
            step.exp == -43,
            unit <= LARGEST_UNIT,
            -2000 - 10 * unit <= rate.exp <= 46,
            settled(rate@, unit as nat) == settled(first, 0),
        decreases LARGEST_UNIT - unit,
    {
        rate = rate.divide(step);
        unit = unit + 1;
    }
    let decimals: u8 = if unit == 0 {
        0
    } else if rate.is_below(10) {
        2
    } else if rate.is_below(100) {
        1
    } else {
        0
    };
    let factor: u32 = if decimals == 0 {
        1
    } else if decimals == 1 {
        10
    } else {
        100
    };
    push_fixed_point(&mut text, rate.round_multiple(factor), decimals);
    push_text(&mut text, unit_name(unit));
    assert(text@ =~= rate_text(rate@, unit as nat));
    text
}

/// The number shown is less than a thousand unless the unit is the largest one.
pub proof fn law_number_below_thousand(x: Dyadic, unit: nat)
    requires
        unit <= LARGEST_UNIT,
    ensures
        unit <= settled(x, unit).1 <= LARGEST_UNIT,
        settled(x, unit).1 == LARGEST_UNIT || below(settled(x, unit).0, 1000),
    decreases LARGEST_UNIT - unit,
{
    if unit < LARGEST_UNIT && !below(x, 1000) {
        law_number_below_thousand(quotient(x, integer(1000)), unit + 1);
    }
}

/// What goes over in one second is shown bit for bit below a thousand bits.
pub proof fn law_bits_of_one_second(bytes: nat)
    requires
        0 < bytes,
        8 * bytes < 1000,
    ensures
        bitrate_text(bytes, 1, 0) == decimal(8 * bytes) + "bps"@,
{
    crate::double::law_small_integers_are_exact(bytes);
    let x = times_eight(integer(bytes));
    crate::double::law_quotient_by_one(x);
    assert(bits_per_second_spec(bytes, 1, 0) == x);
    let k = (-integer(bytes).exp) as nat;
    let p = vstd::arithmetic::power2::pow2(k);
    lemma_small_integer_scale(bytes, k);
    let q = vstd::arithmetic::power2::pow2((k - 3) as nat);
    vstd::arithmetic::power2::lemma_pow2_adds(3, (k - 3) as nat);
    vstd::arithmetic::power2::lemma2_to64();
    vstd::arithmetic::power2::lemma_pow2_pos((k - 3) as nat);
    assert(x.mant == 8 * bytes * q) by (nonlinear_arith)
        requires
            x.mant == bytes * p,
            p == 8 * q,
    ;
    assert(x.mant < 1000 * q) by (nonlinear_arith)
        requires
            x.mant == 8 * bytes * q,
            8 * bytes < 1000,
            q > 0,
    ;
    assert(below(x, 1000));
    assert(settled(x, 0) == (x, 0nat));
    vstd::arithmetic::div_mod::lemma_fundamental_div_mod_converse(
        x.mant as int,
        q as int,
        8 * bytes as int,
        0,
    );
    assert(rounded_multiple(x, 1) == 8 * bytes) by {
        assert(x.mant * 1 == x.mant) by (nonlinear_arith);
    }
}

/// Only the ratio of bytes to whole seconds matters.
pub proof fn law_ratio_alone_matters(bytes: nat, secs: nat, k: nat)
    requires
        k >= 1,
        secs >= 1,
        k * bytes < crate::double::MANT_END,
        k * secs < crate::double::MANT_END,
    ensures
        bitrate_text(k * bytes, k * secs, 0) == bitrate_text(bytes, secs, 0),
{
    assert(k * bytes >= bytes && k * secs >= secs) by (nonlinear_arith)
        requires
            k >= 1,
    ;
    if bytes == 0 {
        assert(k * bytes == 0) by (nonlinear_arith)
            requires
                bytes == 0,
        ;
    } else {
        crate::double::law_quotient_of_small_integers(bytes, secs);
        crate::double::law_quotient_of_small_integers(k * bytes, k * secs);
        crate::double::law_nearest_depends_on_ratio(bytes, secs, k, 3);
    }
}

/// A number below a thousand needs many doublings to take 53 bits.
proof fn lemma_small_integer_scale(n: nat, k: nat)
    requires
        0 < n < 1000,
        n * vstd::arithmetic::power2::pow2(k) >= crate::double::MANT_MIN,
    ensures
        k > 3,
{
    vstd::arithmetic::power2::lemma2_to64();
    if k <= 3 {
        assert(k == 0 || k == 1 || k == 2 || k == 3);
        assert(n * vstd::arithmetic::power2::pow2(k) <= 8000) by (nonlinear_arith)
            requires
                n < 1000,
                vstd::arithmetic::power2::pow2(k) <= 8,
        ;
    }
}

/// Where no time has passed there is no rate.
pub proof fn law_no_time_is_no_rate(bytes: nat)
    ensures
        bitrate_text(bytes, 0, 0) == "0bps"@,
{
}

} // verus!
