//! How near the computed rates are to the exact ones.
//!
//! A [`Dyadic`] is compared with exact numbers as a multiple of `2^-k`, for a `k` that
//! makes it an integer. Two numbers are [`near`] by `steps` roundings when neither
//! exceeds the other by more than a factor of `(1 + 2^-53)^steps`.

#[allow(unused_imports)]
use crate::bitrate::{bits_per_second_spec, seconds_spec, settled, LARGEST_UNIT};
#[allow(unused_imports)]
use crate::double::{
    binade, carried, in_binade, integer, law_rounding_error, law_small_integers_are_exact,
    lemma_binade_step, lemma_binade_unique, lemma_round_in_range, nearest, quotient,
    round_half_even, scaled_den, scaled_num, sum, times_eight, Dyadic, MANT_END, MANT_MIN,
};
#[allow(unused_imports)]
use crate::duration::NANOS_PER_SEC;
use vstd::arithmetic::power2::pow2;
use vstd::prelude::*;

verus! {

/// `(2^53)^steps`.
pub open spec fn fine(steps: nat) -> nat
    decreases steps,
{
    if steps == 0 {
        1
    } else {
        MANT_END as nat * fine((steps - 1) as nat)
    }
}

/// `(2^53 + 1)^steps`.
pub open spec fn coarse(steps: nat) -> nat
    decreases steps,
{
    if steps == 0 {
        1
    } else {
        (MANT_END as nat + 1) * coarse((steps - 1) as nat)
    }
}

/// Neither number exceeds the other by more than a factor of `(1 + 2^-53)^steps`.
pub open spec fn near(x: nat, y: nat, steps: nat) -> bool {
    &&& x * fine(steps) <= y * coarse(steps)
    &&& y * fine(steps) <= x * coarse(steps)
}

/// A number as a multiple of `2^-k`.
pub open spec fn at(x: Dyadic, k: int) -> nat {
    x.mant * pow2((x.exp + k) as nat)
}

/// The mantissa has exactly 53 bits.
pub open spec fn normal(x: Dyadic) -> bool {
    MANT_MIN <= x.mant < MANT_END
}

proof fn lemma_powers_add(j: nat, k: nat)
    ensures
        fine(j + k) == fine(j) * fine(k),
        coarse(j + k) == coarse(j) * coarse(k),
        fine(j) > 0,
        coarse(j) > 0,
        fine(j) <= coarse(j),
    decreases j,
{
    if j == 0 {
        assert(1 * fine(k) == fine(k) && 1 * coarse(k) == coarse(k)) by (nonlinear_arith);
    } else {
        let i = (j - 1) as nat;
        lemma_powers_add(i, k);
        assert((j + k - 1) as nat == i + k);
        let d = MANT_END as nat;
        let (a, b, c, e) = (fine(i), fine(k), coarse(i), coarse(k));
        assert(d * (a * b) == (d * a) * b) by (nonlinear_arith);
        assert((d + 1) * (c * e) == ((d + 1) * c) * e) by (nonlinear_arith);
        assert(0 < d * a <= (d + 1) * c) by (nonlinear_arith)
            requires
                0 < a <= c,
                d > 0,
        ;
    }
}

/// Products of near numbers are near.
proof fn lemma_near_mul(x: nat, y: nat, j: nat, z: nat, w: nat, k: nat)
    requires
        near(x, y, j),
        near(z, w, k),
    ensures
        near(x * z, y * w, j + k),
{
    lemma_powers_add(j, k);
    lemma_product_le(x, fine(j), y, coarse(j), z, fine(k), w, coarse(k));
    lemma_product_le(y, fine(j), x, coarse(j), w, fine(k), z, coarse(k));
}

proof fn lemma_product_le(x: nat, a: nat, y: nat, b: nat, z: nat, c: nat, w: nat, d: nat)
    requires
        x * a <= y * b,
        z * c <= w * d,
    ensures
        (x * z) * (a * c) <= (y * w) * (b * d),
{
    let (p, q, r, s) = (x * a, y * b, z * c, w * d);
    assert(p * r <= q * s) by (nonlinear_arith)
        requires
            p <= q,
            r <= s,
    ;
    assert((x * z) * (a * c) == (x * a) * (z * c)) by (nonlinear_arith);
    assert((y * w) * (b * d) == (y * b) * (w * d)) by (nonlinear_arith);
}

/// What is near something near is near.
proof fn lemma_near_trans(x: nat, y: nat, z: nat, j: nat, k: nat)
    requires
        near(x, y, j),
        near(y, z, k),
    ensures
        near(x, z, j + k),
{
    lemma_powers_add(j, k);
    lemma_chain_le(x, fine(j), y, coarse(j), fine(k), z, coarse(k));
    lemma_powers_add(k, j);
    assert(j + k == k + j);
    lemma_chain_le(z, fine(k), y, coarse(k), fine(j), x, coarse(j));
}

proof fn lemma_chain_le(x: nat, a: nat, y: nat, b: nat, c: nat, z: nat, d: nat)
    requires
        x * a <= y * b,
        y * c <= z * d,
    ensures
        x * (a * c) <= z * (b * d),
{
    let (p, q, r, s) = (x * a, y * b, y * c, z * d);
    assert(p * c <= q * c) by (nonlinear_arith)
        requires
            p <= q,
    ;
    assert(r * b <= s * b) by (nonlinear_arith)
        requires
            r <= s,
    ;
    assert(x * (a * c) == (x * a) * c) by (nonlinear_arith);
    assert((y * b) * c == (y * c) * b) by (nonlinear_arith);
    assert(z * (b * d) == (z * d) * b) by (nonlinear_arith);
}

/// A common factor does not matter.
proof fn lemma_near_factor(w: nat, x: nat, y: nat, k: nat)
    requires
        w > 0,
    ensures
        near(w * x, w * y, k) <==> near(x, y, k),
{
    lemma_factor_le(w, x, fine(k), y, coarse(k));
    lemma_factor_le(w, y, fine(k), x, coarse(k));
}

proof fn lemma_factor_le(w: nat, x: nat, a: nat, y: nat, b: nat)
    requires
        w > 0,
    ensures
        (w * x) * a <= (w * y) * b <==> x * a <= y * b,
{
    let (p, q) = (x * a, y * b);
    assert((w * x) * a == w * (x * a)) by (nonlinear_arith);
    assert((w * y) * b == w * (y * b)) by (nonlinear_arith);
    assert(w * p <= w * q <==> p <= q) by (nonlinear_arith)
        requires
            w > 0,
    ;
}

/// Sums of near numbers are near.
proof fn lemma_near_add(x: nat, y: nat, z: nat, w: nat, k: nat)
    requires
        near(x, y, k),
        near(z, w, k),
    ensures
        near(x + z, y + w, k),
{
    let (a, b) = (fine(k), coarse(k));
    assert((x + z) * a == x * a + z * a) by (nonlinear_arith);
    assert((y + w) * b == y * b + w * b) by (nonlinear_arith);
    assert((y + w) * a == y * a + w * a) by (nonlinear_arith);
    assert((x + z) * b == x * b + z * b) by (nonlinear_arith);
}

/// Numbers are near themselves.
proof fn lemma_near_self(x: nat, k: nat)
    ensures
        near(x, x, k),
{
    lemma_powers_add(k, 0);
    let (a, b) = (fine(k), coarse(k));
    assert(x * a <= x * b) by (nonlinear_arith)
        requires
            a <= b,
    ;
}

/// Near by some roundings is near by more.
proof fn lemma_near_more(x: nat, y: nat, j: nat, k: nat)
    requires
        near(x, y, j),
        j <= k,
    ensures
        near(x, y, k),
{
    lemma_near_self(y, (k - j) as nat);
    lemma_near_trans(x, y, y, j, (k - j) as nat);
}

/// Every positive fraction takes 53 bits in the units of some power of two.
proof fn lemma_binade_exists(num: nat, den: nat)
    requires
        num > 0,
        den > 0,
    ensures
        in_binade(num, den, binade(num, den)),
{
    let hi = num as int;
    let lo = -(den as int) - 53;
    lemma_pow2_above(num);
    lemma_pow2_above(den);
    let p = pow2(num);
    assert(scaled_num(num, hi) < MANT_END * scaled_den(den, hi)) by {
        assert(num < MANT_END * (den * p)) by (nonlinear_arith)
            requires
                num < p,
                den > 0,
                MANT_END > 1,
        ;
    }
    let q = pow2(den);
    vstd::arithmetic::power2::lemma_pow2_adds(den, 53);
    vstd::arithmetic::power2::lemma2_to64_rest();
    assert(scaled_num(num, lo) >= MANT_END * scaled_den(den, lo)) by {
        let r = pow2(den + 53);
        assert((-lo) as nat == den + 53);
        assert(r == q * pow2(53));
        assert(num * r >= MANT_END * den) by (nonlinear_arith)
            requires
                r == q * MANT_END,
                den < q,
                num >= 1,
        ;
    }
    let e = lemma_binade_between(num, den, lo, hi);
    lemma_binade_unique(num, den, e);
}

proof fn lemma_pow2_above(n: nat)
    ensures
        n < pow2(n),
    decreases n,
{
    vstd::arithmetic::power2::lemma2_to64();
    if n > 0 {
        lemma_pow2_above((n - 1) as nat);
        vstd::arithmetic::power2::lemma_pow2_unfold(n);
    }
}

proof fn lemma_binade_between(num: nat, den: nat, lo: int, hi: int) -> (e: int)
    requires
        lo < hi,
        scaled_num(num, lo) >= MANT_END * scaled_den(den, lo),
        scaled_num(num, hi) < MANT_END * scaled_den(den, hi),
    ensures
        in_binade(num, den, e),
    decreases hi - lo,
{
    lemma_binade_step(num, den, lo);
    if scaled_num(num, lo + 1) < MANT_END * scaled_den(den, lo + 1) {
        lo + 1
    } else {
        lemma_binade_between(num, den, lo + 1, hi)
    }
}

proof fn lemma_one_step()
    ensures
        fine(1) == MANT_END,
        coarse(1) == MANT_END + 1,
{
    assert(fine(0) == 1 && coarse(0) == 1);
    let d = MANT_END as nat;
    assert(d * fine(0) == d && (d + 1) * coarse(0) == d + 1) by (nonlinear_arith)
        requires
            fine(0) == 1,
            coarse(0) == 1,
    ;
}

proof fn lemma_at_positive(x: Dyadic, k: int)
    requires
        normal(x),
    ensures
        at(x, k) > 0,
{
    let p = pow2((x.exp + k) as nat);
    vstd::arithmetic::power2::lemma_pow2_pos((x.exp + k) as nat);
    assert(x.mant * p > 0) by (nonlinear_arith)
        requires
            x.mant > 0,
            p > 0,
    ;
}

/// Rounding to 53 bits is one rounding.
proof fn lemma_nearest_is_near(num: nat, den: nat, scale: int, k: int)
    requires
        num > 0,
        den > 0,
        scale + k >= 0,
        nearest(num, den, scale).exp + k > 0,
    ensures
        normal(nearest(num, den, scale)),
        near(at(nearest(num, den, scale), k) * den, num * pow2((scale + k) as nat), 1),
{
    lemma_binade_exists(num, den);
    let e = binade(num, den);
    let n = scaled_num(num, e);
    let d = scaled_den(den, e);
    let m = round_half_even(n, d);
    let x = nearest(num, den, scale);
    assert(d > 0) by {
        if e >= 0 {
            let p = pow2(e as nat);
            vstd::arithmetic::power2::lemma_pow2_pos(e as nat);
            assert(den * p > 0) by (nonlinear_arith)
                requires
                    den > 0,
                    p > 0,
            ;
        }
    }
    lemma_round_in_range(n, d);
    law_rounding_error(n, d);
    let md = m * d;
    assert(near(md, n, 1)) by {
        assert(MANT_MIN * d <= md) by (nonlinear_arith)
            requires
                md == m * d,
                MANT_MIN <= m,
        ;
        lemma_one_step();
    }
    // The value of `x` is `m * 2^(e + scale)`, carried or not.
    let f = e + scale + k;
    assert(f >= 0);
    assert(at(x, k) == m * pow2(f as nat)) by {
        if m == MANT_END {
            vstd::arithmetic::power2::lemma_pow2_unfold((f + 1) as nat);
            let p = pow2(f as nat);
            assert(MANT_MIN * (2 * p) == MANT_END * p) by (nonlinear_arith)
                requires
                    MANT_END == 2 * MANT_MIN,
            ;
        }
    }
    let u = pow2(f as nat);
    let v = pow2((scale + k) as nat);
    vstd::arithmetic::power2::lemma_pow2_pos(f as nat);
    vstd::arithmetic::power2::lemma_pow2_pos((scale + k) as nat);
    if e >= 0 {
        let p = pow2(e as nat);
        vstd::arithmetic::power2::lemma_pow2_adds(e as nat, (scale + k) as nat);
        assert(u == p * v);
        assert((m * u) * den == v * md) by (nonlinear_arith)
            requires
                u == p * v,
                md == m * d,
                d == den * p,
        ;
        assert(num * v == v * n) by (nonlinear_arith)
            requires
                n == num,
        ;
        lemma_near_factor(v, md, n, 1);
    } else {
        let p = pow2((-e) as nat);
        vstd::arithmetic::power2::lemma_pow2_adds((-e) as nat, f as nat);
        assert(v == p * u);
        assert((m * u) * den == u * md) by (nonlinear_arith)
            requires
                md == m * d,
                d == den,
        ;
        assert(num * v == u * n) by (nonlinear_arith)
            requires
                n == num * p,
                v == p * u,
        ;
        lemma_near_factor(u, md, n, 1);
    }
}

/// A `k` for which a number is an integer multiple of `2^-k`, and any larger one too.
spec fn reach(x: Dyadic) -> int {
    if x.exp > 0 {
        x.exp + 1
    } else {
        1 - x.exp
    }
}

/// A quotient is one rounding from the exact one.
proof fn lemma_quotient_is_near(x: Dyadic, y: Dyadic, k: int)
    requires
        normal(x),
        normal(y),
        k >= reach(x) + reach(y) + reach(quotient(x, y)),
    ensures
        normal(quotient(x, y)),
        near(at(quotient(x, y), k) * at(y, k), at(x, k) * pow2(k as nat), 1),
{
    let q = quotient(x, y);
    let scale = x.exp - y.exp;
    lemma_nearest_is_near(x.mant, y.mant, scale, k);
    let a = pow2((scale + k) as nat);
    let b = pow2((y.exp + k) as nat);
    let c = pow2((x.exp + k) as nat);
    let p = pow2(k as nat);
    vstd::arithmetic::power2::lemma_pow2_pos((y.exp + k) as nat);
    vstd::arithmetic::power2::lemma_pow2_adds((scale + k) as nat, (y.exp + k) as nat);
    vstd::arithmetic::power2::lemma_pow2_adds((x.exp + k) as nat, k as nat);
    assert(a * b == c * p);
    let r = at(q, k);
    lemma_near_factor(b, r * y.mant, x.mant * a, 1);
    assert(b * (r * y.mant) == r * (y.mant * b)) by (nonlinear_arith);
    assert(b * (x.mant * a) == (x.mant * c) * p) by (nonlinear_arith)
        requires
            a * b == c * p,
    ;
}

/// A sum is one rounding from the exact one.
proof fn lemma_sum_is_near(x: Dyadic, y: Dyadic, k: int)
    requires
        normal(x),
        normal(y),
        k >= reach(x) + reach(y) + reach(sum(x, y)),
    ensures
        normal(sum(x, y)),
        near(at(sum(x, y), k), at(x, k) + at(y, k), 1),
{
    if x.exp >= y.exp {
        lemma_sum_of_larger(x, y, k);
    } else {
        lemma_sum_of_larger(y, x, k);
    }
}

proof fn lemma_sum_of_larger(x: Dyadic, y: Dyadic, k: int)
    requires
        normal(x),
        normal(y),
        x.exp >= y.exp,
        y.exp + k >= 0,
        nearest(x.mant * pow2((x.exp - y.exp) as nat) + y.mant, 1, y.exp).exp + k > 0,
    ensures
        ({
            let s = nearest(x.mant * pow2((x.exp - y.exp) as nat) + y.mant, 1, y.exp);
            normal(s) && near(at(s, k), at(x, k) + at(y, k), 1)
        }),
{
    let g = pow2((x.exp - y.exp) as nat);
    let num = x.mant * g + y.mant;
    assert(num > 0) by (nonlinear_arith)
        requires
            num == x.mant * g + y.mant,
            y.mant > 0,
    ;
    lemma_nearest_is_near(num, 1, y.exp, k);
    let s = nearest(num, 1, y.exp);
    let b = pow2((y.exp + k) as nat);
    let c = pow2((x.exp + k) as nat);
    vstd::arithmetic::power2::lemma_pow2_adds((x.exp - y.exp) as nat, (y.exp + k) as nat);
    assert(c == g * b);
    assert(num * b == x.mant * c + y.mant * b) by (nonlinear_arith)
        requires
            num == x.mant * g + y.mant,
            c == g * b,
    ;
    assert(at(s, k) * 1 == at(s, k));
}

/// An integer is one rounding from itself.
proof fn lemma_integer_is_near(n: nat, k: int)
    requires
        n > 0,
        k >= reach(integer(n)),
    ensures
        normal(integer(n)),
        near(at(integer(n), k), n * pow2(k as nat), 1),
{
    lemma_nearest_is_near(n, 1, 0, k);
    assert(at(integer(n), k) * 1 == at(integer(n), k));
}

/// A small integer is itself.
proof fn lemma_integer_is_exact(n: nat, k: int)
    requires
        0 < n < MANT_END,
        k >= reach(integer(n)),
    ensures
        normal(integer(n)),
        at(integer(n), k) == n * pow2(k as nat),
{
    law_small_integers_are_exact(n);
    let x = integer(n);
    let a = pow2((-x.exp) as nat);
    let b = pow2((x.exp + k) as nat);
    vstd::arithmetic::power2::lemma_pow2_adds((-x.exp) as nat, (x.exp + k) as nat);
    assert((n * a) * b == n * (a * b)) by (nonlinear_arith);
}

/// In larger units of precision a number is the same multiple larger.
proof fn lemma_at_more(x: Dyadic, k: int, j: int)
    requires
        x.exp + k >= 0,
        j >= k,
    ensures
        at(x, j) == at(x, k) * pow2((j - k) as nat),
{
    let a = pow2((x.exp + k) as nat);
    let b = pow2((j - k) as nat);
    vstd::arithmetic::power2::lemma_pow2_adds((x.exp + k) as nat, (j - k) as nat);
    assert((x.mant * a) * b == x.mant * (a * b)) by (nonlinear_arith);
}

/// `a * b == c` up to the order and grouping of factors.
proof fn lemma_regroup(a: nat, b: nat, c: nat)
    ensures
        a * b == b * a,
        (a * b) * c == a * (b * c),
        (a * b) * c == (a * c) * b,
        (a * b) * c == c * (a * b),
{
    assert(a * b == b * a) by (nonlinear_arith);
    assert((a * b) * c == a * (b * c)) by (nonlinear_arith);
    assert((a * b) * c == (a * c) * b) by (nonlinear_arith);
    assert((a * b) * c == c * (a * b)) by (nonlinear_arith);
}

/// A quotient by a small integer is one rounding from the exact one.
proof fn lemma_quotient_by_integer(x: Dyadic, n: nat, k: int)
    requires
        normal(x),
        0 < n < MANT_END,
        k >= reach(x) + reach(integer(n)) + reach(quotient(x, integer(n))),
    ensures
        normal(quotient(x, integer(n))),
        near(at(quotient(x, integer(n)), k) * n, at(x, k), 1),
{
    lemma_integer_is_exact(n, k);
    lemma_quotient_is_near(x, integer(n), k);
    let p = pow2(k as nat);
    vstd::arithmetic::power2::lemma_pow2_pos(k as nat);
    let q = at(quotient(x, integer(n)), k);
    lemma_regroup(q, n, p);
    lemma_regroup(at(x, k), p, 1);
    lemma_near_factor(p, q * n, at(x, k), 1);
}

/// The nanoseconds in a span of time.
pub open spec fn total_nanos(secs: nat, nanos: nat) -> nat {
    secs * 1_000_000_000 + nanos
}

/// The larger of what two numbers need and then some.
spec fn seconds_reach(secs: nat, nanos: nat) -> int {
    reach(integer(secs)) + reach(integer(nanos)) + reach(integer(NANOS_PER_SEC as nat)) + reach(
        quotient(integer(nanos), integer(NANOS_PER_SEC as nat)),
    ) + reach(seconds_spec(secs, nanos))
}

/// A span of time in seconds is two roundings from the exact one.
proof fn lemma_seconds_are_near(secs: nat, nanos: nat, k: int)
    requires
        secs > 0 || nanos > 0,
        nanos < NANOS_PER_SEC,
        k >= seconds_reach(secs, nanos),
    ensures
        normal(seconds_spec(secs, nanos)),
        near(
            at(seconds_spec(secs, nanos), k) * 1_000_000_000,
            total_nanos(secs, nanos) * pow2(k as nat),
            2,
        ),
{
    let p = pow2(k as nat);
    let s = at(seconds_spec(secs, nanos), k);
    let g: nat = 1_000_000_000;
    let total = total_nanos(secs, nanos);
    if secs > 0 {
        lemma_integer_is_near(secs, k);
        let i = at(integer(secs), k);
        lemma_near_factor(g, i, secs * p, 1);
        lemma_regroup(g, i, 1);
        lemma_regroup(g, secs, p);
        assert(near(i * g, (secs * g) * p, 1));
    }
    if nanos > 0 {
        lemma_integer_is_exact(nanos, k);
        lemma_quotient_by_integer(integer(nanos), g, k);
    }
    if nanos == 0 {
        lemma_near_more(s * g, (secs * g) * p, 1, 2);
    } else if secs == 0 {
        lemma_near_more(s * g, nanos * p, 1, 2);
    } else {
        let fraction = quotient(integer(nanos), integer(g));
        let i = at(integer(secs), k);
        let f = at(fraction, k);
        lemma_near_add(i * g, (secs * g) * p, f * g, nanos * p, 1);
        assert((i + f) * g == i * g + f * g) by (nonlinear_arith);
        assert(total * p == (secs * g) * p + nanos * p) by (nonlinear_arith)
            requires
                total == secs * g + nanos,
        ;
        lemma_sum_is_near(integer(secs), fraction, k);
        lemma_near_factor(g, s, i + f, 1);
        lemma_regroup(g, s, 1);
        lemma_regroup(g, i + f, 1);
        lemma_near_trans(s * g, (i + f) * g, total * p, 1, 1);
    }
}

/// What a rate is near to, in multiples of `2^-k`, is eight times the bytes over the
/// time: `rate * time == 8 * bytes`, up to roundings.
pub open spec fn rate_near(x: Dyadic, bytes: nat, secs: nat, nanos: nat, factor: nat, k: int, steps: nat) -> bool {
    near(
        at(x, k) * factor * total_nanos(secs, nanos),
        8_000_000_000 * bytes * pow2(k as nat),
        steps,
    )
}

/// Eight times a number.
proof fn lemma_at_eightfold(x: Dyadic, k: int)
    requires
        x.exp + k >= 0,
    ensures
        at(times_eight(x), k) == 8 * at(x, k),
{
    vstd::arithmetic::power2::lemma2_to64();
    vstd::arithmetic::power2::lemma_pow2_adds((x.exp + k) as nat, 3);
    let a = pow2((x.exp + k) as nat);
    assert(x.mant * (a * 8) == 8 * (x.mant * a)) by (nonlinear_arith);
}

/// The rate in bits per second is four roundings from the exact one, for some precision.
proof fn lemma_rate_is_near(bytes: nat, secs: nat, nanos: nat, k: int)
    requires
        bytes > 0,
        secs > 0 || nanos > 0,
        nanos < NANOS_PER_SEC,
        k >= seconds_reach(secs, nanos) + reach(integer(bytes)) + reach(
            bits_per_second_spec(bytes, secs, nanos),
        ) + 3,
    ensures
        normal(bits_per_second_spec(bytes, secs, nanos)),
        rate_near(bits_per_second_spec(bytes, secs, nanos), bytes, secs, nanos, 1, k, 4),
{
    let p = pow2(k as nat);
    vstd::arithmetic::power2::lemma_pow2_pos(k as nat);
    let x = bits_per_second_spec(bytes, secs, nanos);
    let y = seconds_spec(secs, nanos);
    let b = times_eight(integer(bytes));
    let g: nat = 1_000_000_000;
    let total = total_nanos(secs, nanos);
    lemma_integer_is_near(bytes, k);
    lemma_at_eightfold(integer(bytes), k);
    lemma_near_factor(8, at(integer(bytes), k), bytes * p, 1);
    lemma_regroup(8, bytes, p);
    let e = at(b, k);
    let exact = 8 * bytes * p;
    assert(near(e, exact, 1));
    lemma_seconds_are_near(secs, nanos, k);
    let s = at(y, k);
    lemma_quotient_is_near(b, y, k);
    let r = at(x, k);
    assert(near(r * s, e * p, 1));
    // r * s ~ e * p ~ (8 * bytes * p) * p
    lemma_near_factor(p, e, exact, 1);
    lemma_regroup(p, e, 1);
    lemma_regroup(p, exact, 1);
    lemma_near_trans(r * s, e * p, exact * p, 1, 1);
    // (r * s) * (total * p) ~ (exact * p) * (s * g)
    lemma_near_mul(r * s, exact * p, 2, total * p, s * g, 2);
    lemma_at_positive(y, k);
    assert(s * p > 0) by (nonlinear_arith)
        requires
            s > 0,
            p > 0,
    ;
    assert((r * s) * (total * p) == (s * p) * (r * total)) by (nonlinear_arith);
    assert((exact * p) * (s * g) == (s * p) * (exact * g)) by (nonlinear_arith);
    lemma_near_factor(s * p, r * total, exact * g, 4);
    assert(exact * g == 8_000_000_000 * bytes * p) by (nonlinear_arith)
        requires
            exact == 8 * bytes * p,
            g == 1_000_000_000,
    ;
}

/// How near a rate is does not depend on the precision at which that is looked at.
proof fn lemma_rate_near_at(x: Dyadic, bytes: nat, secs: nat, nanos: nat, factor: nat, k: int, j: int, steps: nat)
    requires
        0 <= k <= j,
        x.exp + k >= 0,
    ensures
        rate_near(x, bytes, secs, nanos, factor, k, steps) <==> rate_near(
            x,
            bytes,
            secs,
            nanos,
            factor,
            j,
            steps,
        ),
{
    let w = pow2((j - k) as nat);
    vstd::arithmetic::power2::lemma_pow2_pos((j - k) as nat);
    lemma_at_more(x, k, j);
    vstd::arithmetic::power2::lemma_pow2_adds(k as nat, (j - k) as nat);
    let a = at(x, k);
    let t = total_nanos(secs, nanos);
    let p = pow2(k as nat);
    assert((a * w) * factor * t == w * (a * factor * t)) by (nonlinear_arith);
    let b = 8_000_000_000 * bytes;
    assert(b * (p * w) == w * (b * p)) by (nonlinear_arith);
    lemma_near_factor(w, a * factor * t, b * p, steps);
}

/// `1000^units`.
pub open spec fn thousands(units: nat) -> nat
    decreases units,
{
    if units == 0 {
        1
    } else {
        1000 * thousands((units - 1) as nat)
    }
}

/// A precision at which all numbers are integers that occur while the unit is chosen.
spec fn settled_reach(x: Dyadic, unit: nat) -> int
    decreases LARGEST_UNIT - unit,
{
    if unit >= LARGEST_UNIT {
        reach(x)
    } else {
        reach(x) + reach(integer(1000)) + reach(quotient(x, integer(1000))) + settled_reach(
            quotient(x, integer(1000)),
            unit + 1,
        )
    }
}

/// `x < bound` at any precision.
proof fn lemma_below_at(x: Dyadic, bound: nat, k: int)
    requires
        k >= 0,
        x.exp + k >= 0,
    ensures
        crate::double::below(x, bound) <==> at(x, k) < bound * pow2(k as nat),
{
    let p = pow2(k as nat);
    vstd::arithmetic::power2::lemma_pow2_pos(k as nat);
    if x.exp >= 0 {
        let a = pow2(x.exp as nat);
        vstd::arithmetic::power2::lemma_pow2_adds(x.exp as nat, k as nat);
        let v = x.mant * a;
        assert(x.mant * (a * p) == v * p) by (nonlinear_arith)
            requires
                v == x.mant * a,
        ;
        assert(v < bound <==> v * p < bound * p) by (nonlinear_arith)
            requires
                p > 0,
        ;
    } else {
        let a = pow2((-x.exp) as nat);
        let b = pow2((x.exp + k) as nat);
        vstd::arithmetic::power2::lemma_pow2_pos((x.exp + k) as nat);
        vstd::arithmetic::power2::lemma_pow2_adds((-x.exp) as nat, (x.exp + k) as nat);
        let v = bound * a;
        assert(bound * p == v * b) by (nonlinear_arith)
            requires
                v == bound * a,
                p == a * b,
        ;
        assert(x.mant < v <==> x.mant * b < v * b) by (nonlinear_arith)
            requires
                b > 0,
        ;
    }
}

/// What is at least one is rounded to at least one.
proof fn lemma_nearest_at_least_one(num: nat, den: nat, scale: int, k: int)
    requires
        num > 0,
        den > 0,
        k >= 0,
        scale + k >= 0,
        nearest(num, den, scale).exp + k > 0,
        num * pow2((scale + k) as nat) >= den * pow2(k as nat),
    ensures
        at(nearest(num, den, scale), k) >= pow2(k as nat),
{
    lemma_binade_exists(num, den);
    let e = binade(num, den);
    let n = scaled_num(num, e);
    let d = scaled_den(den, e);
    let m = round_half_even(n, d);
    let x = nearest(num, den, scale);
    let f = e + scale + k;
    let u = pow2(f as nat);
    let v = pow2((scale + k) as nat);
    let p = pow2(k as nat);
    vstd::arithmetic::power2::lemma_pow2_pos(f as nat);
    vstd::arithmetic::power2::lemma_pow2_pos((scale + k) as nat);
    assert(d > 0) by {
        if e >= 0 {
            let a = pow2(e as nat);
            vstd::arithmetic::power2::lemma_pow2_pos(e as nat);
            assert(den * a > 0) by (nonlinear_arith)
                requires
                    den > 0,
                    a > 0,
            ;
        }
    }
    lemma_round_in_range(n, d);
    assert(num * v < MANT_END * (den * u)) by {
        if e >= 0 {
            let a = pow2(e as nat);
            vstd::arithmetic::power2::lemma_pow2_adds(e as nat, (scale + k) as nat);
            assert(num * v < MANT_END * (den * u)) by (nonlinear_arith)
                requires
                    num < MANT_END * (den * a),
                    u == a * v,
                    v > 0,
            ;
        } else {
            let a = pow2((-e) as nat);
            vstd::arithmetic::power2::lemma_pow2_adds((-e) as nat, f as nat);
            assert(num * v < MANT_END * (den * u)) by (nonlinear_arith)
                requires
                    num * a < MANT_END * den,
                    v == a * u,
                    u > 0,
            ;
        }
    }
    assert(p < MANT_END * u) by (nonlinear_arith)
        requires
            den * p < MANT_END * (den * u),
            den > 0,
    ;
    vstd::arithmetic::power2::lemma2_to64_rest();
    vstd::arithmetic::power2::lemma_pow2_adds(53, f as nat);
    vstd::arithmetic::power2::lemma_pow2_adds(52, f as nat);
    if k > 52 + f {
        if k > 53 + f {
            vstd::arithmetic::power2::lemma_pow2_strictly_increases((53 + f) as nat, k as nat);
        }
    }
    if k < 52 + f {
        vstd::arithmetic::power2::lemma_pow2_strictly_increases(k as nat, (52 + f) as nat);
    }
    assert(p <= MANT_MIN * u);
    assert(at(x, k) >= MANT_MIN * u) by {
        if m == MANT_END {
            vstd::arithmetic::power2::lemma_pow2_unfold((f + 1) as nat);
            assert(MANT_MIN * (2 * u) >= MANT_MIN * u) by (nonlinear_arith);
        } else {
            assert(m * u >= MANT_MIN * u) by (nonlinear_arith)
                requires
                    m >= MANT_MIN,
            ;
        }
    }
}

/// Each larger unit adds one rounding, and a rate in a larger unit is at least one.
proof fn lemma_settled_is_near(x: Dyadic, unit: nat, bytes: nat, secs: nat, nanos: nat, k: int)
    requires
        normal(x),
        unit <= LARGEST_UNIT,
        k >= settled_reach(x, unit),
        rate_near(x, bytes, secs, nanos, thousands(unit), k, 4 + unit),
        unit > 0 ==> at(x, k) >= pow2(k as nat),
    ensures
        ({
            let (z, u) = settled(x, unit);
            &&& normal(z)
            &&& z.exp + k >= 0
            &&& unit <= u <= LARGEST_UNIT
            &&& rate_near(z, bytes, secs, nanos, thousands(u), k, 4 + u)
            &&& u > 0 ==> at(z, k) >= pow2(k as nat)
            &&& u < LARGEST_UNIT ==> at(z, k) < 1000 * pow2(k as nat)
        }),
    decreases LARGEST_UNIT - unit,
{
    lemma_settled_reach_is_enough(x, unit);
    lemma_below_at(x, 1000, k);
    if unit < LARGEST_UNIT && !crate::double::below(x, 1000) {
        let y = quotient(x, integer(1000));
        lemma_settled_reach_is_enough(y, unit + 1);
        lemma_quotient_by_integer(x, 1000, k);
        let q = at(y, k);
        let a = at(x, k);
        let f = thousands(unit);
        let t = total_nanos(secs, nanos);
        let c = 8_000_000_000 * bytes * pow2(k as nat);
        if f * t > 0 {
            lemma_near_factor(f * t, q * 1000, a, 1);
        } else {
            lemma_near_self(0, 1);
        }
        assert((f * t) * (q * 1000) == q * (1000 * f) * t) by (nonlinear_arith);
        assert((f * t) * a == a * f * t) by (nonlinear_arith);
        assert(near(q * (1000 * f) * t, a * f * t, 1)) by {
            if f * t == 0 {
                assert(q * (1000 * f) * t == 0 && a * f * t == 0) by (nonlinear_arith)
                    requires
                        f * t == 0,
                ;
            }
        }
        lemma_near_trans(q * (1000 * f) * t, a * f * t, c, 1, 4 + unit);
        assert(thousands(unit + 1) == 1000 * f);
        // at least a thousand over a thousand is at least one
        lemma_integer_is_exact(1000, k);
        let b = integer(1000);
        let p = pow2(k as nat);
        let scale = x.exp - b.exp;
        let g = pow2((b.exp + k) as nat);
        let h = pow2((scale + k) as nat);
        let o = pow2((x.exp + k) as nat);
        vstd::arithmetic::power2::lemma_pow2_pos((b.exp + k) as nat);
        vstd::arithmetic::power2::lemma_pow2_adds((scale + k) as nat, (b.exp + k) as nat);
        vstd::arithmetic::power2::lemma_pow2_adds((x.exp + k) as nat, k as nat);
        assert(h * g == o * p);
        assert(x.mant * h >= b.mant * p) by (nonlinear_arith)
            requires
                x.mant * o >= 1000 * p,
                b.mant * g == 1000 * p,
                h * g == o * p,
                g > 0,
                p >= 0,
        ;
        lemma_nearest_at_least_one(x.mant, b.mant, scale, k);
        lemma_settled_is_near(y, unit + 1, bytes, secs, nanos, k);
    }
}

proof fn lemma_settled_reach_is_enough(x: Dyadic, unit: nat)
    ensures
        settled_reach(x, unit) >= reach(x),
        settled_reach(x, unit) >= 1,
        unit < LARGEST_UNIT ==> settled_reach(x, unit) >= settled_reach(
            quotient(x, integer(1000)),
            unit + 1,
        ),
    decreases LARGEST_UNIT - unit,
{
    if unit < LARGEST_UNIT {
        lemma_settled_reach_is_enough(quotient(x, integer(1000)), unit + 1);
    }
}

/// A few roundings are worth at most twice as many units of `2^-53`.
proof fn lemma_few_steps(steps: nat)
    requires
        steps <= 8,
    ensures
        MANT_END * coarse(steps) <= (MANT_END + 2 * steps) * fine(steps),
        fine(steps) > 0,
    decreases steps,
{
    lemma_powers_add(steps, 0);
    if steps > 0 {
        let i = (steps - 1) as nat;
        lemma_few_steps(i);
        let d = MANT_END as nat;
        let (a, b) = (fine(i), coarse(i));
        assert(d * ((d + 1) * b) <= (d + 2 * i + 2) * (d * a)) by (nonlinear_arith)
            requires
                d * b <= (d + 2 * i) * a,
                2 * i <= d,
        {
            assert(d * ((d + 1) * b) == (d + 1) * (d * b));
            assert((d + 1) * (d * b) <= (d + 1) * ((d + 2 * i) * a));
            assert((d + 1) * (d + 2 * i) <= (d + 2 * i + 2) * d);
            assert((d + 1) * ((d + 2 * i) * a) == ((d + 1) * (d + 2 * i)) * a);
            assert(((d + 1) * (d + 2 * i)) * a <= ((d + 2 * i + 2) * d) * a);
        }
    }
}

/// Near by eight roundings is within `2^-49` of the exact number.
proof fn lemma_near_bound(x: nat, y: nat)
    requires
        near(x, y, 8),
    ensures
        0x2_0000_0000_0000 * x <= 0x2_0000_0000_0000 * y + y,
        0x2_0000_0000_0000 * y <= 0x2_0000_0000_0000 * x + y,
{
    lemma_few_steps(8);
    let a = fine(8);
    let b = coarse(8);
    let h: nat = 0x2_0000_0000_0000;
    let d = MANT_END as nat;
    assert(h * b <= (h + 1) * a) by (nonlinear_arith)
        requires
            d * b <= (d + 16) * a,
            d == 16 * h,
    ;
    assert(h * x <= (h + 1) * y) by (nonlinear_arith)
        requires
            x * a <= y * b,
            h * b <= (h + 1) * a,
            a > 0,
    {
        assert(h * (x * a) <= h * (y * b));
        assert(y * (h * b) <= y * ((h + 1) * a));
        assert((h * x) * a <= ((h + 1) * y) * a);
    }
    assert((h - 1) * y <= h * x) by (nonlinear_arith)
        requires
            y * a <= x * b,
            h * b <= (h + 1) * a,
            a > 0,
            h > 1,
    {
        assert(h * (y * a) <= h * (x * b));
        assert(x * (h * b) <= x * ((h + 1) * a));
        assert((h * y) * a <= ((h + 1) * x) * a);
        assert(h * y <= (h + 1) * x);
        assert((h - 1) * (h * y) <= (h - 1) * ((h + 1) * x));
        assert((h - 1) * (h + 1) <= h * h);
        assert(((h - 1) * (h + 1)) * x <= (h * h) * x);
        assert(h * ((h - 1) * y) <= h * (h * x));
    }
    assert((h + 1) * y == h * y + y) by (nonlinear_arith);
    assert((h - 1) * y == h * y - y) by (nonlinear_arith);
}

/// The rate that is formatted lies within a relative error of `2^-49` of eight times
/// the bytes over the elapsed time, whatever part of that time is a fraction of a second.
/// The rate is looked at as a multiple of `2^-k`.
pub proof fn law_rate_is_accurate(bytes: nat, secs: nat, nanos: nat, k: nat)
    requires
        bytes > 0,
        secs > 0 || nanos > 0,
        nanos < 1_000_000_000,
        bits_per_second_spec(bytes, secs, nanos).exp + k >= 0,
    ensures
        ({
            let x = bits_per_second_spec(bytes, secs, nanos);
            let shown = x.mant * pow2((x.exp + k) as nat) * (secs * 1_000_000_000 + nanos);
            let exact = 8 * bytes * 1_000_000_000 * pow2(k);
            &&& 0x2_0000_0000_0000 * (shown - exact) <= exact
            &&& 0x2_0000_0000_0000 * (exact - shown) <= exact
        }),
{
    let x = bits_per_second_spec(bytes, secs, nanos);
    let j = seconds_reach(secs, nanos) + reach(integer(bytes)) + reach(x) + 3 + k;
    lemma_rate_is_near(bytes, secs, nanos, j);
    lemma_rate_near_at(x, bytes, secs, nanos, 1, k as int, j, 4);
    let a = at(x, k as int) * total_nanos(secs, nanos);
    let b = 8_000_000_000 * bytes * pow2(k);
    assert(at(x, k as int) * 1 == at(x, k as int));
    lemma_near_more(a, b, 4, 8);
    lemma_near_bound(a, b);
}

/// A rounded multiple is within one half of the exact one.
proof fn lemma_rounded_multiple_at(x: Dyadic, t: nat, k: int)
    requires
        k >= 0,
        x.exp + k >= 0,
    ensures
        ({
            let n = crate::double::rounded_multiple(x, t);
            let p = pow2(k as nat);
            &&& 2 * (n * p) <= 2 * (t * at(x, k)) + p
            &&& 2 * (t * at(x, k)) <= 2 * (n * p) + p
        }),
{
    let p = pow2(k as nat);
    let n = crate::double::rounded_multiple(x, t);
    let m = x.mant;
    if x.exp >= 0 {
        let a = pow2(x.exp as nat);
        vstd::arithmetic::power2::lemma_pow2_adds(x.exp as nat, k as nat);
        assert((m * t * a) * p == t * (m * (a * p))) by (nonlinear_arith);
    } else {
        let d = pow2((-x.exp) as nat);
        let b = pow2((x.exp + k) as nat);
        vstd::arithmetic::power2::lemma_pow2_pos((-x.exp) as nat);
        vstd::arithmetic::power2::lemma_pow2_adds((-x.exp) as nat, (x.exp + k) as nat);
        law_rounding_error(m * t, d);
        assert(n * p == (n * d) * b && t * (m * b) == (m * t) * b) by (nonlinear_arith)
            requires
                p == d * b,
        ;
        let (y, z) = (n * d, m * t);
        assert(2 * (y * b) <= 2 * (z * b) + d * b && 2 * (z * b) <= 2 * (y * b) + d * b)
            by (nonlinear_arith)
            requires
                2 * y <= 2 * z + d,
                2 * z <= 2 * y + d,
        ;
    }
}

/// What number, with how many decimals and in which unit, is shown for a rate.
pub proof fn lemma_shown_number(bytes: nat, secs: nat, nanos: nat)
    requires
        bytes > 0,
        secs > 0 || nanos > 0,
        nanos < NANOS_PER_SEC,
    ensures
        ({
            let (z, u) = settled(bits_per_second_spec(bytes, secs, nanos), 0);
            let d = crate::bitrate::decimals_spec(z, u);
            let t = crate::bitrate::power_of_ten(d);
            let n = crate::double::rounded_multiple(z, t);
            &&& u <= 4
            &&& number_tells(n, t, thousands(u), bytes, total_nanos(secs, nanos))
            &&& u == 0 ==> d == 0
            &&& u > 0 ==> n >= 100
            &&& d > 0 || u < 4 ==> n <= 1000
        }),
{
    let x = bits_per_second_spec(bytes, secs, nanos);
    let (z, u) = settled(x, 0);
    lemma_settled_reach_is_enough(x, 0);
    let k = seconds_reach(secs, nanos) + reach(integer(bytes)) + reach(x) + 3 + settled_reach(x, 0);
    lemma_rate_is_near(bytes, secs, nanos, k);
    lemma_settled_is_near(x, 0, bytes, secs, nanos, k);
    let d = crate::bitrate::decimals_spec(z, u);
    let t = crate::bitrate::power_of_ten(d);
    let n = crate::double::rounded_multiple(z, t);
    let f = thousands(u);
    let total = total_nanos(secs, nanos);
    let b = 8_000_000_000 * bytes;
    let p = pow2(k as nat);
    let a = at(z, k);
    vstd::arithmetic::power2::lemma_pow2_pos(k as nat);
    lemma_near_more(a * f * total, b * p, 4 + u, 8);
    lemma_near_bound(a * f * total, b * p);
    lemma_rounded_multiple_at(z, t, k);
    lemma_combine(n, t, f, total, b, p, a);
    lemma_below_at(z, 10, k);
    lemma_below_at(z, 100, k);
    assert(u > 0 ==> n >= 100) by {
        if u > 0 {
            assert(t * a >= 100 * p) by (nonlinear_arith)
                requires
                    (t == 100 && a >= p) || (t == 10 && a >= 10 * p) || (t == 1 && a >= 100 * p),
            ;
            assert(n >= 100) by (nonlinear_arith)
                requires
                    2 * (t * a) <= 2 * (n * p) + p,
                    t * a >= 100 * p,
                    p > 0,
            ;
        }
    }
    assert(d > 0 || u < 4 ==> n <= 1000) by {
        if d > 0 || u < 4 {
            assert(t * a < 1000 * p) by (nonlinear_arith)
                requires
                    (t == 100 && a < 10 * p) || (t == 10 && a < 100 * p) || (t == 1 && a < 1000 * p),
            ;
            assert(n <= 1000) by (nonlinear_arith)
                requires
                    2 * (n * p) <= 2 * (t * a) + p,
                    t * a < 1000 * p,
                    p > 0,
            ;
        }
    }
}

/// The number `n / t` in units of `f` bits per second tells how fast `bytes` bytes went
/// over in `total` nanoseconds: it is off by at most half a unit of its last digit and
/// by `2^-49` of the exact rate.
pub open spec fn number_tells(n: nat, t: nat, f: nat, bytes: nat, total: nat) -> bool {
    let shown = 2 * (n * f * total);
    let exact = 2 * (t * (8 * bytes * 1_000_000_000));
    let half_digit = f * total;
    &&& 0x2_0000_0000_0000 * (shown - exact - half_digit) <= exact
    &&& 0x2_0000_0000_0000 * (exact - shown - half_digit) <= exact
}

proof fn lemma_combine(n: nat, t: nat, f: nat, total: nat, b: nat, p: nat, a: nat)
    requires
        p > 0,
        0x2_0000_0000_0000 * (a * f * total) <= 0x2_0000_0000_0000 * (b * p) + b * p,
        0x2_0000_0000_0000 * (b * p) <= 0x2_0000_0000_0000 * (a * f * total) + b * p,
        2 * (n * p) <= 2 * (t * a) + p,
        2 * (t * a) <= 2 * (n * p) + p,
    ensures
        0x2_0000_0000_0000 * (2 * (n * f * total) - 2 * (t * b) - f * total) <= 2 * (t * b),
        0x2_0000_0000_0000 * (2 * (t * b) - 2 * (n * f * total) - f * total) <= 2 * (t * b),
{
    let h: int = 0x2_0000_0000_0000;
    let g: int = (f * total) as int;
    let x: int = (a * f * total) as int;
    let y: int = (b * p) as int;
    let w: int = (n * f * total) as int;
    let tb: int = (t * b) as int;
    assert(x == a * g && w == n * g) by (nonlinear_arith)
        requires
            x == a * f * total,
            w == n * f * total,
            g == f * total,
    ;
    // the rounding of the number, in the same terms
    assert(2 * (w * p) <= 2 * (t * x) + p * g && 2 * (t * x) <= 2 * (w * p) + p * g)
        by (nonlinear_arith)
        requires
            2 * (n * p) <= 2 * (t * a) + p,
            2 * (t * a) <= 2 * (n * p) + p,
            x == a * g,
            w == n * g,
            g >= 0,
    {
        assert((2 * (n * p)) * g <= (2 * (t * a) + p) * g);
        assert((2 * (t * a)) * g <= (2 * (n * p) + p) * g);
        assert((n * p) * g == (n * g) * p);
        assert((t * a) * g == t * (a * g));
    }
    assert(t * y == tb * p) by (nonlinear_arith)
        requires
            y == b * p,
            tb == t * b,
    ;
    assert(h * (t * x) <= h * (t * y) + t * y && h * (t * y) <= h * (t * x) + t * y)
        by (nonlinear_arith)
        requires
            h * x <= h * y + y,
            h * y <= h * x + y,
            t >= 0,
    ;
    let (tx, ty, wp, pg) = (t * x, t * y, w * p, p * g);
    assert(h * (2 * wp - 2 * ty - pg) <= 2 * ty);
    assert(h * (2 * ty - 2 * wp - pg) <= 2 * ty);
    assert((2 * w - 2 * tb - g) * p == 2 * wp - 2 * ty - pg) by (nonlinear_arith)
        requires
            wp == w * p,
            ty == tb * p,
            pg == p * g,
    ;
    assert((2 * tb - 2 * w - g) * p == 2 * ty - 2 * wp - pg) by (nonlinear_arith)
        requires
            wp == w * p,
            ty == tb * p,
            pg == p * g,
    ;
    let q1 = 2 * w - 2 * tb - g;
    let q2 = 2 * tb - 2 * w - g;
    assert(h * q1 <= 2 * tb) by (nonlinear_arith)
        requires
            h * (q1 * p) <= 2 * (tb * p),
            p > 0,
    ;
    assert(h * q2 <= 2 * tb) by (nonlinear_arith)
        requires
            h * (q2 * p) <= 2 * (tb * p),
            p > 0,
    ;
}

/// Rounding goes to a number of 53 bits that is off by at most half a unit of its last
/// bit, and to one whose last bit is zero where it is off by that much.
pub proof fn law_rounding_is_to_the_nearest(num: nat, den: nat, scale: int, k: int)
    requires
        num > 0,
        den > 0,
        scale + k >= 0,
        nearest(num, den, scale).exp + k > 0,
    ensures
        ({
            let x = nearest(num, den, scale);
            let shown = 2 * (x.mant * pow2((x.exp + k) as nat) * den);
            let exact = 2 * (num * pow2((scale + k) as nat));
            let unit = den * pow2((x.exp + k) as nat);
            &&& MANT_MIN <= x.mant < MANT_END
            &&& shown - exact <= unit
            &&& exact - shown <= unit
            &&& shown - exact == unit || exact - shown == unit ==> x.mant % 2 == 0
        }),
{
    lemma_binade_exists(num, den);
    let e = binade(num, den);
    let n = scaled_num(num, e);
    let d = scaled_den(den, e);
    let m = round_half_even(n, d);
    let x = nearest(num, den, scale);
    assert(d > 0) by {
        if e >= 0 {
            let p = pow2(e as nat);
            vstd::arithmetic::power2::lemma_pow2_pos(e as nat);
            assert(den * p > 0) by (nonlinear_arith)
                requires
                    den > 0,
                    p > 0,
            ;
        }
    }
    lemma_round_in_range(n, d);
    law_rounding_error(n, d);
    let md = m * d;
    let f = e + scale + k;
    let u = pow2(f as nat);
    let v = pow2((scale + k) as nat);
    vstd::arithmetic::power2::lemma_pow2_pos(f as nat);
    vstd::arithmetic::power2::lemma_pow2_pos((scale + k) as nat);
    vstd::arithmetic::power2::lemma_pow2_unfold((f + 1) as nat);
    assert(at(x, k) == m * u) by {
        if m == MANT_END {
            assert(MANT_MIN * (2 * u) == MANT_END * u) by (nonlinear_arith)
                requires
                    MANT_END == 2 * MANT_MIN,
            ;
        }
    }
    let w = if e >= 0 {
        v
    } else {
        u
    };
    if e >= 0 {
        let p = pow2(e as nat);
        vstd::arithmetic::power2::lemma_pow2_adds(e as nat, (scale + k) as nat);
        assert((m * u) * den == md * w && num * v == n * w && den * u == d * w)
            by (nonlinear_arith)
            requires
                u == p * v,
                md == m * d,
                d == den * p,
                n == num,
                w == v,
        ;
    } else {
        let p = pow2((-e) as nat);
        vstd::arithmetic::power2::lemma_pow2_adds((-e) as nat, f as nat);
        assert((m * u) * den == md * w && num * v == n * w && den * u == d * w)
            by (nonlinear_arith)
            requires
                v == p * u,
                md == m * d,
                d == den,
                n == num * p,
                w == u,
        ;
    }
    let (a, b, c) = (md * w, n * w, d * w);
    assert(2 * a - 2 * b <= c && 2 * b - 2 * a <= c) by (nonlinear_arith)
        requires
            2 * n <= 2 * md + d,
            2 * md <= 2 * n + d,
            a == md * w,
            b == n * w,
            c == d * w,
    ;
    let unit = den * pow2((x.exp + k) as nat);
    if m == MANT_END {
        assert(unit == 2 * c) by (nonlinear_arith)
            requires
                unit == den * (2 * u),
                den * u == c,
        ;
        assert(c > 0) by (nonlinear_arith)
            requires
                c == den * u,
                den > 0,
                u > 0,
        ;
    } else if 2 * a - 2 * b == c || 2 * b - 2 * a == c {
        assert(2 * md - 2 * n == d || 2 * n - 2 * md == d) by (nonlinear_arith)
            requires
                2 * a - 2 * b == c || 2 * b - 2 * a == c,
                a == md * w,
                b == n * w,
                c == d * w,
                w > 0,
        ;
        crate::double::law_ties_go_to_even(n, d);
    }
}

/// A quotient is the exact one, rounded to the nearest.
pub proof fn law_quotient_is_rounded(x: Dyadic, y: Dyadic, k: int)
    requires
        normal(x),
        normal(y),
        x.exp - y.exp + k >= 0,
        y.exp + k >= 0,
        x.exp + k >= 0,
        k >= 0,
        quotient(x, y).exp + k > 0,
    ensures
        ({
            let q = quotient(x, y);
            let shown = 2 * (at(q, k) * at(y, k));
            let exact = 2 * (at(x, k) * pow2(k as nat));
            let unit = pow2((q.exp + k) as nat) * at(y, k);
            &&& normal(q)
            &&& shown - exact <= unit
            &&& exact - shown <= unit
            &&& shown - exact == unit || exact - shown == unit ==> q.mant % 2 == 0
        }),
{
    let q = quotient(x, y);
    let scale = x.exp - y.exp;
    law_rounding_is_to_the_nearest(x.mant, y.mant, scale, k);
    let a = pow2((scale + k) as nat);
    let b = pow2((y.exp + k) as nat);
    let c = pow2((x.exp + k) as nat);
    let p = pow2(k as nat);
    vstd::arithmetic::power2::lemma_pow2_pos((y.exp + k) as nat);
    vstd::arithmetic::power2::lemma_pow2_adds((scale + k) as nat, (y.exp + k) as nat);
    vstd::arithmetic::power2::lemma_pow2_adds((x.exp + k) as nat, k as nat);
    let r = at(q, k);
    let g = pow2((q.exp + k) as nat);
    assert(r * (y.mant * b) == (r * y.mant) * b && (x.mant * c) * p == (x.mant * a) * b && g * (
    y.mant * b) == (y.mant * g) * b) by (nonlinear_arith)
        requires
            a * b == c * p,
    ;
    let (s, t, w) = (r * y.mant, x.mant * a, y.mant * g);
    assert(2 * (s * b) - 2 * (t * b) <= w * b && 2 * (t * b) - 2 * (s * b) <= w * b && (2 * (s * b)
        - 2 * (t * b) == w * b ==> 2 * s - 2 * t == w) && (2 * (t * b) - 2 * (s * b) == w * b ==> 2
        * t - 2 * s == w)) by (nonlinear_arith)
        requires
            2 * s - 2 * t <= w,
            2 * t - 2 * s <= w,
            b > 0,
    ;
}

/// A sum is the exact one, rounded to the nearest.
pub proof fn law_sum_is_rounded(x: Dyadic, y: Dyadic, k: int)
    requires
        normal(x),
        normal(y),
        x.exp + k >= 0,
        y.exp + k >= 0,
        sum(x, y).exp + k > 0,
    ensures
        ({
            let s = sum(x, y);
            let shown = 2 * at(s, k);
            let exact = 2 * (at(x, k) + at(y, k));
            let unit = pow2((s.exp + k) as nat);
            &&& normal(s)
            &&& shown - exact <= unit
            &&& exact - shown <= unit
            &&& shown - exact == unit || exact - shown == unit ==> s.mant % 2 == 0
        }),
{
    let (big, small) = if x.exp >= y.exp {
        (x, y)
    } else {
        (y, x)
    };
    let g = pow2((big.exp - small.exp) as nat);
    let num = big.mant * g + small.mant;
    assert(num > 0) by (nonlinear_arith)
        requires
            num == big.mant * g + small.mant,
            small.mant > 0,
    ;
    law_rounding_is_to_the_nearest(num, 1, small.exp, k);
    let b = pow2((small.exp + k) as nat);
    let c = pow2((big.exp + k) as nat);
    vstd::arithmetic::power2::lemma_pow2_adds(
        (big.exp - small.exp) as nat,
        (small.exp + k) as nat,
    );
    assert(num * b == big.mant * c + small.mant * b) by (nonlinear_arith)
        requires
            num == big.mant * g + small.mant,
            c == g * b,
    ;
    let s = sum(x, y);
    assert(at(s, k) * 1 == at(s, k));
}

/// An integer as a number of 53 bits is itself, rounded to the nearest.
pub proof fn law_integer_is_rounded(n: nat, k: int)
    requires
        n > 0,
        k >= 0,
        integer(n).exp + k > 0,
    ensures
        ({
            let x = integer(n);
            let shown = 2 * at(x, k);
            let exact = 2 * (n * pow2(k as nat));
            let unit = pow2((x.exp + k) as nat);
            &&& normal(x)
            &&& shown - exact <= unit
            &&& exact - shown <= unit
            &&& shown - exact == unit || exact - shown == unit ==> x.mant % 2 == 0
        }),
{
    law_rounding_is_to_the_nearest(n, 1, 0, k);
    assert(at(integer(n), k) * 1 == at(integer(n), k));
}

/// A number is below a bound exactly if its multiple of `2^-k` is.
pub proof fn law_below(x: Dyadic, bound: nat, k: int)
    requires
        k >= 0,
        x.exp + k >= 0,
    ensures
        crate::double::below(x, bound) <==> x.mant * pow2((x.exp + k) as nat) < bound * pow2(
            k as nat,
        ),
{
    lemma_below_at(x, bound, k);
}

/// The number that is shown is the exact multiple, rounded to the nearest.
pub proof fn law_multiple_is_rounded(x: Dyadic, t: nat, k: int)
    requires
        k >= 0,
        x.exp + k >= 0,
    ensures
        ({
            let n = crate::double::rounded_multiple(x, t);
            let shown = 2 * (n * pow2(k as nat));
            let exact = 2 * (t * (x.mant * pow2((x.exp + k) as nat)));
            let unit = pow2(k as nat);
            &&& shown - exact <= unit
            &&& exact - shown <= unit
            &&& shown - exact == unit || exact - shown == unit ==> n % 2 == 0
        }),
{
    lemma_rounded_multiple_at(x, t, k);
    let p = pow2(k as nat);
    let n = crate::double::rounded_multiple(x, t);
    let m = x.mant;
    vstd::arithmetic::power2::lemma_pow2_pos(k as nat);
    if x.exp >= 0 {
        let a = pow2(x.exp as nat);
        vstd::arithmetic::power2::lemma_pow2_adds(x.exp as nat, k as nat);
        assert((m * t * a) * p == t * (m * (a * p))) by (nonlinear_arith);
    } else {
        let d = pow2((-x.exp) as nat);
        let b = pow2((x.exp + k) as nat);
        vstd::arithmetic::power2::lemma_pow2_pos((-x.exp) as nat);
        vstd::arithmetic::power2::lemma_pow2_pos((x.exp + k) as nat);
        vstd::arithmetic::power2::lemma_pow2_adds((-x.exp) as nat, (x.exp + k) as nat);
        assert(n * p == (n * d) * b && t * (m * b) == (m * t) * b) by (nonlinear_arith)
            requires
                p == d * b,
        ;
        let (y, z) = (n * d, m * t);
        if 2 * (y * b) - 2 * (z * b) == p || 2 * (z * b) - 2 * (y * b) == p {
            assert(2 * y - 2 * z == d || 2 * z - 2 * y == d) by (nonlinear_arith)
                requires
                    2 * (y * b) - 2 * (z * b) == p || 2 * (z * b) - 2 * (y * b) == p,
                    p == d * b,
                    b > 0,
            ;
            crate::double::law_ties_go_to_even(m * t, d);
        }
    }
}

/// The unit fits the rate: the number in it is at least one, unless the unit is the
/// smallest, and less than a thousand, unless it is the largest. The number of decimals
/// then gives three significant digits.
pub proof fn law_unit_fits_the_rate(bytes: nat, secs: nat, nanos: nat)
    requires
        bytes > 0,
        secs > 0 || nanos > 0,
        nanos < 1_000_000_000,
    ensures
        ({
            let (z, u) = settled(bits_per_second_spec(bytes, secs, nanos), 0);
            let d = crate::bitrate::decimals_spec(z, u);
            &&& u <= 4
            &&& u > 0 ==> !crate::double::below(z, 1)
            &&& u < 4 ==> crate::double::below(z, 1000)
            &&& u == 0 ==> d == 0
            &&& u > 0 ==> (d == 2 <==> crate::double::below(z, 10)) && (d == 1
                <==> !crate::double::below(z, 10) && crate::double::below(z, 100)) && d <= 2
        }),
{
    let x = bits_per_second_spec(bytes, secs, nanos);
    lemma_settled_reach_is_enough(x, 0);
    let k = seconds_reach(secs, nanos) + reach(integer(bytes)) + reach(x) + 3 + settled_reach(x, 0);
    lemma_rate_is_near(bytes, secs, nanos, k);
    lemma_settled_is_near(x, 0, bytes, secs, nanos, k);
    let (z, u) = settled(x, 0);
    lemma_below_at(z, 1, k);
    lemma_below_at(z, 10, k);
    lemma_below_at(z, 100, k);
    lemma_below_at(z, 1000, k);
}

} // verus!
