//! Positive binary64 numbers, computed with integers.
//!
//! A [`Double`] is a normal, positive IEEE 754 binary64 number: a mantissa of
//! exactly 53 bits times a power of two. Every operation rounds its exact result
//! to the nearest such number and, when two are equally near, to the one with
//! the even mantissa, as the hardware does in its default rounding mode.

use vstd::arithmetic::power2::pow2;
use vstd::prelude::*;

verus! {

/// `2^52`, the smallest mantissa.
pub const MANT_MIN: u64 = 0x10_0000_0000_0000;

/// `2^53`, the first value above the largest mantissa.
pub const MANT_END: u64 = 0x20_0000_0000_0000;

/// The number `mant * 2^exp`.
#[derive(Clone, Copy)]
pub struct Double {
    pub mant: u64,
    pub exp: i32,
}

/// The mathematical content of a [`Double`]: the number `mant * 2^exp`.
pub struct Dyadic {
    pub mant: nat,
    pub exp: int,
}

impl View for Double {
    type V = Dyadic;

    open spec fn view(&self) -> Dyadic {
        Dyadic { mant: self.mant as nat, exp: self.exp as int }
    }
}

impl Double {
    /// The mantissa has exactly 53 bits.
    pub open spec fn wf(self) -> bool {
        MANT_MIN <= self.mant < MANT_END
    }
}

/// `n / d` rounded to the nearest integer, to the even one of two that are equally near.
pub open spec fn round_half_even(n: nat, d: nat) -> nat {
    let q = n / d;
    let r = n % d;
    if 2 * r < d || (2 * r == d && q % 2 == 0) {
        q
    } else {
        q + 1
    }
}

/// The numerator of `(num / den) / 2^e`.
pub open spec fn scaled_num(num: nat, e: int) -> nat {
    if e >= 0 {
        num
    } else {
        num * pow2((-e) as nat)
    }
}

/// The denominator of `(num / den) / 2^e`.
pub open spec fn scaled_den(den: nat, e: int) -> nat {
    if e >= 0 {
        den * pow2(e as nat)
    } else {
        den
    }
}

/// `2^52 <= (num / den) / 2^e < 2^53`: in units of `2^e` the fraction takes 53 bits.
pub open spec fn in_binade(num: nat, den: nat, e: int) -> bool {
    &&& MANT_MIN * scaled_den(den, e) <= scaled_num(num, e)
    &&& scaled_num(num, e) < MANT_END * scaled_den(den, e)
}

/// The one exponent `e` in whose units the fraction takes 53 bits.
pub open spec fn binade(num: nat, den: nat) -> int {
    choose|e: int| in_binade(num, den, e)
}

/// `mant * 2^exp`, where rounding may have carried the mantissa up to `2^53`.
pub open spec fn carried(mant: nat, exp: int) -> Dyadic {
    if mant == MANT_END {
        Dyadic { mant: MANT_MIN as nat, exp: exp + 1 }
    } else {
        Dyadic { mant, exp }
    }
}

/// The binary64 number nearest to `(num / den) * 2^scale`.
pub open spec fn nearest(num: nat, den: nat, scale: int) -> Dyadic {
    let e = binade(num, den);
    carried(round_half_even(scaled_num(num, e), scaled_den(den, e)), e + scale)
}

/// The rounded quotient of two numbers.
pub open spec fn quotient(x: Dyadic, y: Dyadic) -> Dyadic {
    nearest(x.mant, y.mant, x.exp - y.exp)
}

/// The rounded sum of two numbers.
pub open spec fn sum(x: Dyadic, y: Dyadic) -> Dyadic {
    if x.exp >= y.exp {
        nearest(x.mant * pow2((x.exp - y.exp) as nat) + y.mant, 1, y.exp)
    } else {
        nearest(y.mant * pow2((y.exp - x.exp) as nat) + x.mant, 1, x.exp)
    }
}

/// Eight times a number, which is exact.
pub open spec fn times_eight(x: Dyadic) -> Dyadic {
    Dyadic { mant: x.mant, exp: x.exp + 3 }
}

/// The integer `n` as a binary64 number.
pub open spec fn integer(n: nat) -> Dyadic {
    nearest(n, 1, 0)
}

/// `x < bound`.
pub open spec fn below(x: Dyadic, bound: nat) -> bool {
    if x.exp >= 0 {
        x.mant * pow2(x.exp as nat) < bound
    } else {
        x.mant < bound * pow2((-x.exp) as nat)
    }
}

/// `factor * x`, rounded to the nearest integer, ties to even.
pub open spec fn rounded_multiple(x: Dyadic, factor: nat) -> nat {
    if x.exp >= 0 {
        x.mant * factor * pow2(x.exp as nat)
    } else {
        round_half_even(x.mant * factor, pow2((-x.exp) as nat))
    }
}

/// Going from units of `2^e` to units of `2^(e + 1)` halves the fraction.
pub proof fn lemma_binade_step(num: nat, den: nat, e: int)
    ensures
        scaled_num(num, e) < MANT_END * scaled_den(den, e) <==> scaled_num(num, e + 1) < MANT_MIN
            * scaled_den(den, e + 1),
        scaled_num(num, e) < MANT_MIN * scaled_den(den, e) ==> scaled_num(num, e + 1) < MANT_MIN
            * scaled_den(den, e + 1),
{
    broadcast use vstd::arithmetic::power2::lemma_pow2_unfold;
    broadcast use vstd::arithmetic::power2::lemma_pow2_pos;

    if e >= 0 {
        let p = pow2(e as nat);
        assert(pow2((e + 1) as nat) == 2 * p);
        assert(den * (2 * p) == 2 * (den * p)) by (nonlinear_arith);
    } else {
        let p = pow2((-e - 1) as nat);
        assert(pow2((-e) as nat) == 2 * p);
        assert(num * (2 * p) == 2 * (num * p)) by (nonlinear_arith);
        if e == -1 {
            vstd::arithmetic::power2::lemma2_to64();
            assert(num * p == num) by (nonlinear_arith)
                requires
                    p == 1,
            ;
            assert(den * pow2(0) == den) by (nonlinear_arith)
                requires
                    pow2(0) == 1,
            ;
        }
    }
}

/// Once the fraction is below `2^52` it stays so in larger units.
proof fn lemma_below_binade(num: nat, den: nat, e: int, f: int)
    requires
        e < f,
        scaled_num(num, e) < MANT_END * scaled_den(den, e),
    ensures
        scaled_num(num, f) < MANT_MIN * scaled_den(den, f),
    decreases f - e,
{
    lemma_binade_step(num, den, f - 1);
    if e + 1 < f {
        lemma_below_binade(num, den, e, f - 1);
    }
}

/// A fraction takes 53 bits in the units of at most one power of two.
pub proof fn lemma_binade_unique(num: nat, den: nat, e: int)
    requires
        in_binade(num, den, e),
    ensures
        binade(num, den) == e,
{
    let f = binade(num, den);
    assert(in_binade(num, den, f));
    if e < f {
        lemma_below_binade(num, den, e, f);
    }
    if f < e {
        lemma_below_binade(num, den, f, e);
    }
}

/// `2^52` and `2^53` are the ends of the mantissa range.
proof fn lemma_mantissa_ends()
    ensures
        pow2(52) == MANT_MIN,
        pow2(53) == MANT_END,
{
    vstd::arithmetic::power2::lemma2_to64_rest();
}

/// A power of two below another has the smaller exponent.
proof fn lemma_pow2_less(a: nat, b: nat)
    requires
        pow2(a) < pow2(b),
    ensures
        a < b,
{
    if b < a {
        vstd::arithmetic::power2::lemma_pow2_strictly_increases(b, a);
    }
}

/// Divides and rounds to the nearest integer, ties to even.
fn round_div(n: u128, d: u128) -> (q: u128)
    requires
        d > 0,
    ensures
        q == round_half_even(n as nat, d as nat),
{
    let quot: u128 = n / d;
    let rem: u128 = n % d;
    if rem < d - rem || (rem == d - rem && quot % 2 == 0) {
        quot
    } else {
        assert(quot < u128::MAX) by (nonlinear_arith)
            requires
                quot == n / d,
                rem == n % d,
                d > 0,
                rem >= d - rem,
                n <= u128::MAX,
        {
            assert(n == quot * d + rem);
            assert(d >= 2);
        }
        quot + 1
    }
}

/// Turns a rounded mantissa, which may have been carried up to `2^53`, into a number.
fn carry(mant: u128, exp: i32) -> (x: Double)
    requires
        MANT_MIN <= mant <= MANT_END,
        exp < i32::MAX,
    ensures
        x.wf(),
        x@ == carried(mant as nat, exp as int),
{
    if mant == MANT_END as u128 {
        Double { mant: MANT_MIN, exp: exp + 1 }
    } else {
        Double { mant: mant as u64, exp }
    }
}

/// A fraction in `[2^52, 2^53)` rounds to an integer in `[2^52, 2^53]`.
pub proof fn lemma_round_in_range(n: nat, d: nat)
    requires
        d > 0,
        MANT_MIN * d <= n < MANT_END * d,
    ensures
        MANT_MIN <= round_half_even(n, d) <= MANT_END,
{
    assert(MANT_MIN <= n / d < MANT_END) by (nonlinear_arith)
        requires
            d > 0,
            MANT_MIN * d <= n < MANT_END * d,
    ;
}

/// The number nearest to `n * 2^scale`.
fn nearest_integer(n: u128, scale: i32) -> (x: Double)
    requires
        0 < n < 0x1_0000_0000_0000_0000_0000_0000_0000,
        -10000 <= scale <= 10000,
    ensures
        x.wf(),
        x@ == nearest(n as nat, 1, scale as int),
        scale - 52 <= x.exp <= scale + 60,
        n >= MANT_MIN ==> x.exp >= scale,
        n <= u64::MAX ==> x.exp <= scale + 12,
{
    proof {
        lemma_mantissa_ends();
        vstd::arithmetic::power2::lemma2_to64();
    }
    let mut e: i32 = 0;
    if n < MANT_MIN as u128 {
        let mut num: u128 = n;
        assert(n * pow2(0) == n) by (nonlinear_arith)
            requires
                pow2(0) == 1,
        ;
        while num < MANT_MIN as u128
            invariant
                0 < n,
                -52 <= e <= 0,
                num == n * pow2((-e) as nat),
                num < MANT_END,
                pow2(52) == MANT_MIN,
            decreases MANT_END - num,
        {
            proof {
                let k = (-e) as nat;
                vstd::arithmetic::power2::lemma_pow2_unfold(k + 1);
                assert(n * pow2(k + 1) == 2 * num) by (nonlinear_arith)
                    requires
                        num == n * pow2(k),
                        pow2(k + 1) == 2 * pow2(k),
                ;
                assert(pow2(k) <= num) by (nonlinear_arith)
                    requires
                        num == n * pow2(k),
                        n >= 1,
                ;
                lemma_pow2_less(k, 52);
                vstd::arithmetic::power2::lemma_pow2_pos(k);
                assert(num > 0) by (nonlinear_arith)
                    requires
                        num == n * pow2(k),
                        n >= 1,
                        pow2(k) > 0,
                ;
            }
            num = num * 2;
            e = e - 1;
        }
        proof {
            assert(e < 0);
            assert(in_binade(n as nat, 1, e as int));
            lemma_binade_unique(n as nat, 1, e as int);
            assert(round_half_even(num as nat, 1) == num);
        }
        carry(num, e + scale)
    } else {
        let mut den: u128 = 1;
        while den <= n / MANT_END as u128
            invariant
                MANT_MIN <= n < 0x1_0000_0000_0000_0000_0000_0000_0000,
                0 <= e <= 59,
                den == pow2(e as nat),
                MANT_MIN * den <= n,
                pow2(52) == MANT_MIN,
                pow2(53) == MANT_END,
            decreases n - den,
        {
            assert(MANT_END * den <= n) by (nonlinear_arith)
                requires
                    den <= n / (MANT_END as u128),
            ;
            proof {
                let k = e as nat;
                vstd::arithmetic::power2::lemma_pow2_unfold(k + 1);
                vstd::arithmetic::power2::lemma_pow2_pos(k);
                vstd::arithmetic::power2::lemma_pow2_adds(53, k);
                vstd::arithmetic::power2::lemma_pow2_adds(56, 56);
                vstd::arithmetic::power2::lemma2_to64_rest();
                lemma_pow2_less(53 + k, 112);
            }
            den = den * 2;
            e = e + 1;
        }
        proof {
            assert(n < MANT_END * den) by (nonlinear_arith)
                requires
                    den > n / (MANT_END as u128),
            ;
            assert(1 * pow2(e as nat) == pow2(e as nat)) by (nonlinear_arith);
            assert(in_binade(n as nat, 1, e as int));
            lemma_binade_unique(n as nat, 1, e as int);
            vstd::arithmetic::power2::lemma_pow2_pos(e as nat);
            lemma_round_in_range(n as nat, den as nat);
            if n <= u64::MAX {
                vstd::arithmetic::power2::lemma_pow2_adds(52, e as nat);
                lemma_pow2_less(52 + e as nat, 64);
            }
        }
        carry(round_div(n, den), e + scale)
    }
}

/// Powers of two that are no larger than `2^100` in a `u128`.
fn power_of_two(e: u32) -> (p: u128)
    requires
        e <= 100,
    ensures
        p == pow2(e as nat),
{
    let mut p: u128 = 1;
    let mut i: u32 = 0;
    proof {
        vstd::arithmetic::power2::lemma2_to64();
        vstd::arithmetic::power2::lemma2_to64_rest();
        vstd::arithmetic::power2::lemma_pow2_adds(50, 50);
    }
    while i < e
        invariant
            i <= e <= 100,
            p == pow2(i as nat),
            pow2(100) == 0x4_0000_0000_0000 * 0x4_0000_0000_0000,
        decreases e - i,
    {
        proof {
            vstd::arithmetic::power2::lemma_pow2_unfold((i + 1) as nat);
            vstd::arithmetic::power2::lemma_pow2_strictly_increases(i as nat, 100);
        }
        p = p * 2;
        i = i + 1;
    }
    p
}

impl Double {
    /// The integer `n` as a binary64 number.
    pub(crate) fn from_integer(n: u64) -> (x: Double)
        requires
            n > 0,
        ensures
            x.wf(),
            x@ == integer(n as nat),
            -52 <= x.exp <= 12,
    {
        nearest_integer(n as u128, 0)
    }

    /// The rounded quotient.
    pub(crate) fn divide(self, other: Double) -> (x: Double)
        requires
            self.wf(),
            other.wf(),
            -4000 <= self.exp <= 4000,
            -4000 <= other.exp <= 4000,
        ensures
            x.wf(),
            x@ == quotient(self@, other@),
            self.exp - other.exp - 53 <= x.exp <= self.exp - other.exp - 51,
    {
        proof {
            vstd::arithmetic::power2::lemma2_to64();
            lemma_mantissa_ends();
            assert(self.mant * MANT_END < 0x20_0000_0000_0000 * 0x20_0000_0000_0000) by (nonlinear_arith)
                requires
                    self.mant < MANT_END,
                    MANT_END == 0x20_0000_0000_0000,
            ;
            assert(2 * (self.mant * MANT_MIN) == self.mant * MANT_END) by (nonlinear_arith)
                requires
                    MANT_END == 2 * MANT_MIN,
            ;
        }
        let d: u128 = other.mant as u128;
        let n: u128;
        let e: i32;
        if self.mant >= other.mant {
            n = self.mant as u128 * MANT_MIN as u128;
            e = -52;
        } else {
            n = self.mant as u128 * MANT_END as u128;
            e = -53;
        }
        proof {
            assert(scaled_num(self.mant as nat, e as int) == n);
            assert(in_binade(self.mant as nat, d as nat, e as int));
            lemma_binade_unique(self.mant as nat, d as nat, e as int);
            lemma_round_in_range(n as nat, d as nat);
        }
        carry(round_div(n, d), e + (self.exp - other.exp))
    }

    /// The rounded sum, where `self` has the larger unit.
    fn plus_smaller(self, other: Double) -> (x: Double)
        requires
            self.wf(),
            other.wf(),
            other.exp <= self.exp,
            -1000 <= other.exp,
            self.exp <= 1000,
        ensures
            x.wf(),
            x@ == nearest(
                self.mant as nat * pow2((self.exp - other.exp) as nat) + other.mant as nat,
                1,
                other.exp as int,
            ),
            other.exp <= x.exp <= self.exp + 60,
    {
        let gap: u32 = (self.exp - other.exp) as u32;
        let ghost num = self.mant as nat * pow2(gap as nat) + other.mant as nat;
        proof {
            lemma_mantissa_ends();
            vstd::arithmetic::power2::lemma2_to64_rest();
        }
        if gap >= 54 {
            proof {
                lemma_absorbed(self.mant as nat, other.mant as nat, gap as nat);
            }
            self
        } else {
            let p: u128 = power_of_two(gap);
            proof {
                if gap < 53 {
                    vstd::arithmetic::power2::lemma_pow2_strictly_increases(gap as nat, 53);
                }
                vstd::arithmetic::power2::lemma_pow2_pos(gap as nat);
                assert(MANT_MIN <= self.mant * p < 0x20_0000_0000_0000 * 0x20_0000_0000_0000) by (nonlinear_arith)
                    requires
                        1 <= p <= 0x20_0000_0000_0000,
                        MANT_MIN <= self.mant < 0x20_0000_0000_0000,
                ;
            }
            nearest_integer(self.mant as u128 * p + other.mant as u128, other.exp)
        }
    }

    /// The rounded sum.
    pub(crate) fn plus(self, other: Double) -> (x: Double)
        requires
            self.wf(),
            other.wf(),
            -1000 <= self.exp <= 1000,
            -1000 <= other.exp <= 1000,
        ensures
            x.wf(),
            x@ == sum(self@, other@),
            x.exp >= self.exp || x.exp >= other.exp,
            x.exp <= 1060,
    {
        if self.exp >= other.exp {
            self.plus_smaller(other)
        } else {
            other.plus_smaller(self)
        }
    }

    /// Eight times the number.
    pub(crate) fn eightfold(self) -> (x: Double)
        requires
            self.wf(),
            self.exp <= 4000,
        ensures
            x.wf(),
            x@ == times_eight(self@),
    {
        Double { mant: self.mant, exp: self.exp + 3 }
    }

    /// Whether the number is less than `bound`.
    pub(crate) fn is_below(self, bound: u32) -> (r: bool)
        requires
            self.wf(),
        ensures
            r == below(self@, bound as nat),
    {
        proof {
            lemma_mantissa_ends();
            vstd::arithmetic::power2::lemma2_to64_rest();
        }
        if self.exp >= 0 {
            proof {
                let p = pow2(self.exp as nat);
                vstd::arithmetic::power2::lemma_pow2_pos(self.exp as nat);
                assert(self.mant * p >= self.mant) by (nonlinear_arith)
                    requires
                        p >= 1,
                ;
            }
            false
        } else if self.exp < -64 {
            proof {
                let k = (-self.exp) as nat;
                vstd::arithmetic::power2::lemma_pow2_strictly_increases(64, k);
                assert(bound >= 1 ==> bound * pow2(k) >= pow2(k)) by (nonlinear_arith);
                assert(bound == 0 ==> bound * pow2(k) == 0) by (nonlinear_arith);
            }
            bound > 0
        } else {
            let p: u128 = power_of_two((-self.exp) as u32);
            proof {
                let k = (-self.exp) as nat;
                if k < 64 {
                    vstd::arithmetic::power2::lemma_pow2_strictly_increases(k, 64);
                }
                assert(bound * p <= 0xffff_ffff * 0x1_0000_0000_0000_0000) by (nonlinear_arith)
                    requires
                        p <= 0x1_0000_0000_0000_0000,
                        bound <= 0xffff_ffff,
                ;
            }
            (self.mant as u128) < bound as u128 * p
        }
    }

    /// `factor` times the number, rounded to an integer.
    pub(crate) fn round_multiple(self, factor: u32) -> (r: u128)
        requires
            self.wf(),
            factor <= 100,
            self.exp <= 60,
        ensures
            r == rounded_multiple(self@, factor as nat),
    {
        assert(self.mant * factor <= 0x20_0000_0000_0000 * 100) by (nonlinear_arith)
            requires
                self.mant <= 0x20_0000_0000_0000,
                factor <= 100,
        ;
        let n: u128 = self.mant as u128 * factor as u128;
        proof {
            lemma_mantissa_ends();
            vstd::arithmetic::power2::lemma2_to64_rest();
        }
        if self.exp >= 0 {
            let p: u128 = power_of_two(self.exp as u32);
            proof {
                if self.exp < 60 {
                    vstd::arithmetic::power2::lemma_pow2_strictly_increases(self.exp as nat, 60);
                }
                assert(n * p <= 0x1000_0000_0000_0000 * 0x1000_0000_0000_0000) by (nonlinear_arith)
                    requires
                        n <= 0x1000_0000_0000_0000,
                        p <= 0x1000_0000_0000_0000,
                ;
            }
            n * p
        } else if self.exp < -64 {
            proof {
                let k = (-self.exp) as nat;
                vstd::arithmetic::power2::lemma_pow2_strictly_increases(64, k);
                assert(n as nat / pow2(k) == 0 && n as nat % pow2(k) == n) by {
                    vstd::arithmetic::div_mod::lemma_basic_div(n as int, pow2(k) as int);
                    vstd::arithmetic::div_mod::lemma_small_mod(n as nat, pow2(k));
                }
            }
            0
        } else {
            let p: u128 = power_of_two((-self.exp) as u32);
            proof {
                vstd::arithmetic::power2::lemma_pow2_pos((-self.exp) as nat);
            }
            round_div(n, p)
        }
    }
}

/// Adding less than half a unit of the mantissa changes nothing.
proof fn lemma_absorbed(mant: nat, small: nat, gap: nat)
    requires
        MANT_MIN <= mant < MANT_END,
        small < MANT_END,
        gap >= 54,
    ensures
        forall|scale: int|
            #[trigger] nearest(mant * pow2(gap) + small, 1, scale) == (Dyadic {
                mant,
                exp: scale + gap,
            }),
{
    let p = pow2(gap);
    let num = mant * p + small;
    lemma_mantissa_ends();
    vstd::arithmetic::power2::lemma2_to64_rest();
    if gap > 54 {
        vstd::arithmetic::power2::lemma_pow2_strictly_increases(54, gap);
    }
    assert(2 * small < p);
    assert(1 * p == p) by (nonlinear_arith);
    assert(MANT_MIN * p <= num < MANT_END * p) by (nonlinear_arith)
        requires
            num == mant * p + small,
            small < p,
            MANT_MIN <= mant,
            mant + 1 <= MANT_END,
    ;
    assert(in_binade(num, 1, gap as int));
    lemma_binade_unique(num, 1, gap as int);
    assert(num / p == mant && num % p == small) by {
        vstd::arithmetic::div_mod::lemma_fundamental_div_mod_converse(
            num as int,
            p as int,
            mant as int,
            small as int,
        );
    }
}

/// Rounding moves a fraction by at most one half.
pub proof fn law_rounding_error(n: nat, d: nat)
    requires
        d > 0,
    ensures
        2 * n <= 2 * (round_half_even(n, d) * d) + d,
        2 * (round_half_even(n, d) * d) <= 2 * n + d,
{
    let q = n / d;
    let r = n % d;
    vstd::arithmetic::div_mod::lemma_fundamental_div_mod(n as int, d as int);
    assert(q * d == d * q) by (nonlinear_arith);
    assert((q + 1) * d == q * d + d) by (nonlinear_arith);
}

/// An integer of fewer than 54 bits takes exactly 53 bits in the units of some power
/// of two that is no larger than one.
proof fn lemma_small_integer_binade(n: nat) -> (k: nat)
    requires
        0 < n < MANT_END,
    ensures
        k <= 52,
        MANT_MIN <= n * pow2(k) < MANT_END,
        in_binade(n, 1, -(k as int)),
    decreases MANT_END - n,
{
    vstd::arithmetic::power2::lemma2_to64();
    if n >= MANT_MIN {
        assert(n * pow2(0) == n) by (nonlinear_arith)
            requires
                pow2(0) == 1,
        ;
        0
    } else {
        let k = lemma_small_integer_binade(2 * n);
        vstd::arithmetic::power2::lemma_pow2_unfold(k + 1);
        assert(n * pow2(k + 1) == 2 * n * pow2(k)) by (nonlinear_arith)
            requires
                pow2(k + 1) == 2 * pow2(k),
        ;
        lemma_mantissa_ends();
        assert(pow2(k + 1) <= n * pow2(k + 1)) by (nonlinear_arith)
            requires
                n >= 1,
        ;
        lemma_pow2_less(k + 1, 53);
        k + 1
    }
}

/// Integers of fewer than 54 bits are exact.
pub proof fn law_small_integers_are_exact(n: nat)
    requires
        0 < n < MANT_END,
    ensures
        -52 <= integer(n).exp <= 0,
        MANT_MIN <= integer(n).mant < MANT_END,
        integer(n).mant == n * pow2((-integer(n).exp) as nat),
{
    let k = lemma_small_integer_binade(n);
    lemma_binade_unique(n, 1, -(k as int));
    vstd::arithmetic::power2::lemma2_to64();
    assert(n * pow2(0) == n) by (nonlinear_arith)
        requires
            pow2(0) == 1,
    ;
    assert(round_half_even(n * pow2(k), 1) == n * pow2(k));
}

/// Equal fractions round to equal integers.
proof fn lemma_round_same(n: nat, d: nat, n2: nat, d2: nat)
    requires
        d > 0,
        d2 > 0,
        n * d2 == n2 * d,
    ensures
        round_half_even(n, d) == round_half_even(n2, d2),
{
    let q = n / d;
    let r = n % d;
    let r2 = n2 - q * d2;
    vstd::arithmetic::div_mod::lemma_fundamental_div_mod(n as int, d as int);
    assert(r2 * d == r * d2) by (nonlinear_arith)
        requires
            n == d * q + r,
            n * d2 == n2 * d,
            r2 == n2 - q * d2,
    ;
    assert(0 <= r2 < d2) by (nonlinear_arith)
        requires
            r2 * d == r * d2,
            0 <= r < d,
            d2 > 0,
    ;
    vstd::arithmetic::div_mod::lemma_fundamental_div_mod_converse(
        n2 as int,
        d2 as int,
        q as int,
        r2,
    );
    assert(2 * r < d <==> 2 * r2 < d2) by (nonlinear_arith)
        requires
            r2 * d == r * d2,
            d > 0,
            d2 > 0,
    ;
    assert(2 * r == d <==> 2 * r2 == d2) by (nonlinear_arith)
        requires
            r2 * d == r * d2,
            d > 0,
            d2 > 0,
    ;
}

/// Fractions that are equal in units of a power of two each are rounded alike.
proof fn lemma_nearest_same(num: nat, den: nat, e: int, num2: nat, den2: nat, e2: int)
    requires
        den > 0,
        den2 > 0,
        in_binade(num, den, e),
        scaled_num(num, e) * scaled_den(den2, e2) == scaled_num(num2, e2) * scaled_den(den, e),
    ensures
        in_binade(num2, den2, e2),
        forall|scale: int| #[trigger]
            nearest(num, den, scale) == nearest(num2, den2, scale + e - e2),
{
    broadcast use vstd::arithmetic::power2::lemma_pow2_pos;

    let n = scaled_num(num, e);
    let d = scaled_den(den, e);
    let n2 = scaled_num(num2, e2);
    let d2 = scaled_den(den2, e2);
    assert(d > 0) by {
        if e >= 0 {
            let p = pow2(e as nat);
            assert(den * p > 0) by (nonlinear_arith)
                requires
                    den > 0,
                    p > 0,
            ;
        }
    }
    assert(d2 > 0) by {
        if e2 >= 0 {
            let p = pow2(e2 as nat);
            assert(den2 * p > 0) by (nonlinear_arith)
                requires
                    den2 > 0,
                    p > 0,
            ;
        }
    }
    assert(MANT_MIN * d2 <= n2 < MANT_END * d2) by (nonlinear_arith)
        requires
            MANT_MIN * d <= n < MANT_END * d,
            n * d2 == n2 * d,
            d > 0,
            d2 > 0,
    ;
    lemma_round_same(n, d, n2, d2);
    lemma_binade_unique(num, den, e);
    lemma_binade_unique(num2, den2, e2);
}

/// Only the value of a fraction matters for what it is rounded to.
proof fn lemma_nearest_ratio(num: nat, den: nat, num2: nat, den2: nat, e: int)
    requires
        den > 0,
        den2 > 0,
        num * den2 == num2 * den,
        in_binade(num, den, e),
    ensures
        in_binade(num2, den2, e),
        forall|scale: int| #[trigger] nearest(num, den, scale) == nearest(num2, den2, scale),
{
    if e >= 0 {
        let p = pow2(e as nat);
        assert(num * (den2 * p) == num2 * (den * p)) by (nonlinear_arith)
            requires
                num * den2 == num2 * den,
        ;
    } else {
        let p = pow2((-e) as nat);
        assert((num * p) * den2 == (num2 * p) * den) by (nonlinear_arith)
            requires
                num * den2 == num2 * den,
        ;
    }
    lemma_nearest_same(num, den, e, num2, den2, e);
}

/// Twice a fraction is rounded to twice the number.
proof fn lemma_nearest_double(num: nat, den: nat, e: int)
    requires
        den > 0,
    ensures
        in_binade(num, den, e) <==> in_binade(2 * num, den, e + 1),
        in_binade(num, den, e) ==> forall|scale: int| #[trigger]
            nearest(2 * num, den, scale) == nearest(num, den, scale + 1),
{
    vstd::arithmetic::power2::lemma2_to64();
    if e >= 0 {
        let p = pow2(e as nat);
        vstd::arithmetic::power2::lemma_pow2_unfold((e + 1) as nat);
        assert(pow2((e + 1) as nat) == 2 * p);
        assert(num * (den * (2 * p)) == (2 * num) * (den * p)) by (nonlinear_arith);
    } else {
        let p = pow2((-e - 1) as nat);
        vstd::arithmetic::power2::lemma_pow2_unfold((-e) as nat);
        assert(pow2((-e) as nat) == 2 * p);
        assert(num * (2 * p) == 2 * num * p) by (nonlinear_arith);
        if e == -1 {
            assert(den * pow2(0) == den) by (nonlinear_arith)
                requires
                    pow2(0) == 1,
            ;
            assert(2 * num * p == 2 * num) by (nonlinear_arith)
                requires
                    p == 1,
            ;
        }
    }
    if in_binade(num, den, e) {
        lemma_nearest_same(num, den, e, 2 * num, den, e + 1);
        assert forall|scale: int| #[trigger]
            nearest(2 * num, den, scale) == nearest(num, den, scale + 1) by {
            assert(nearest(num, den, scale + 1) == nearest(
                2 * num,
                den,
                scale + 1 + e - (e + 1),
            ));
        }
    }
    if in_binade(2 * num, den, e + 1) {
        lemma_nearest_same(2 * num, den, e + 1, num, den, e);
    }
}

/// A fraction times a power of two is rounded to the number times that power.
proof fn lemma_nearest_shift(num: nat, den: nat, j: nat, e: int)
    requires
        den > 0,
    ensures
        in_binade(num, den, e) <==> in_binade(num * pow2(j), den, e + j),
        in_binade(num, den, e) ==> forall|scale: int| #[trigger]
            nearest(num * pow2(j), den, scale) == nearest(num, den, scale + j),
    decreases j,
{
    vstd::arithmetic::power2::lemma2_to64();
    if j == 0 {
        assert(num * pow2(0) == num) by (nonlinear_arith)
            requires
                pow2(0) == 1,
        ;
    } else {
        let i = (j - 1) as nat;
        let half = num * pow2(i);
        lemma_nearest_shift(num, den, i, e);
        lemma_nearest_double(half, den, e + i);
        vstd::arithmetic::power2::lemma_pow2_unfold(j);
        assert(num * pow2(j) == 2 * half) by (nonlinear_arith)
            requires
                half == num * pow2(i),
                pow2(j) == 2 * pow2(i),
        ;
        if in_binade(num, den, e) {
            assert forall|scale: int| #[trigger]
                nearest(num * pow2(j), den, scale) == nearest(num, den, scale + j) by {
                assert(nearest(2 * half, den, scale) == nearest(half, den, scale + 1));
                assert(nearest(half, den, scale + 1) == nearest(num, den, scale + 1 + i));
            }
        }
    }
}

/// The units in which a quotient of two mantissas takes 53 bits.
proof fn lemma_mantissa_binade(x: nat, y: nat) -> (e: int)
    requires
        MANT_MIN <= x < MANT_END,
        MANT_MIN <= y < MANT_END,
    ensures
        in_binade(x, y, e),
{
    lemma_mantissa_ends();
    if x >= y {
        assert(MANT_MIN * y <= x * pow2(52) && x * pow2(52) < MANT_END * y) by (nonlinear_arith)
            requires
                pow2(52) == MANT_MIN,
                MANT_END == 2 * MANT_MIN,
                y <= x < MANT_END,
                MANT_MIN <= y,
        ;
        -52
    } else {
        assert(MANT_MIN * y <= x * pow2(53) && x * pow2(53) < MANT_END * y) by (nonlinear_arith)
            requires
                pow2(53) == MANT_END,
                MANT_END == 2 * MANT_MIN,
                MANT_MIN <= x < y,
                y < MANT_END,
        ;
        -53
    }
}

/// The quotient of two integers of fewer than 54 bits is the number nearest to it.
pub proof fn law_quotient_of_small_integers(a: nat, b: nat)
    requires
        0 < a < MANT_END,
        0 < b < MANT_END,
    ensures
        in_binade(a, b, binade(a, b)),
        quotient(integer(a), integer(b)) == nearest(a, b, 0),
        quotient(times_eight(integer(a)), integer(b)) == nearest(a, b, 3),
{
    law_small_integers_are_exact(a);
    law_small_integers_are_exact(b);
    let x = integer(a);
    let y = integer(b);
    let i = (-x.exp) as nat;
    let j = (-y.exp) as nat;
    let e = lemma_mantissa_binade(x.mant, y.mant);
    lemma_nearest_shift(a, y.mant, i, e - i);
    assert(in_binade(a, y.mant, e - i));
    lemma_nearest_shift(a, y.mant, j, e - i);
    let num = a * pow2(j);
    assert(num * b == a * y.mant) by (nonlinear_arith)
        requires
            num == a * pow2(j),
            y.mant == b * pow2(j),
    ;
    lemma_nearest_ratio(num, y.mant, a, b, e - i + j);
    assert forall|scale: int| #[trigger]
        nearest(x.mant, y.mant, scale) == nearest(a, b, scale + i - j) by {
        assert(nearest(x.mant, y.mant, scale) == nearest(a, y.mant, scale + i));
        assert(nearest(num, y.mant, scale + i - j) == nearest(a, y.mant, scale + i - j + j));
        assert(nearest(num, y.mant, scale + i - j) == nearest(a, b, scale + i - j));
    }
    assert(nearest(x.mant, y.mant, x.exp - y.exp) == nearest(a, b, 0));
    assert(nearest(x.mant, y.mant, x.exp + 3 - y.exp) == nearest(a, b, 3));
}

/// What a quotient of integers is rounded to depends on their ratio alone.
pub proof fn law_nearest_depends_on_ratio(a: nat, b: nat, k: nat, scale: int)
    requires
        0 < a < MANT_END,
        0 < b < MANT_END,
        0 < k,
    ensures
        nearest(k * a, k * b, scale) == nearest(a, b, scale),
{
    law_quotient_of_small_integers(a, b);
    assert(k * b > 0) by (nonlinear_arith)
        requires
            k > 0,
            b > 0,
    ;
    assert(a * (k * b) == (k * a) * b) by (nonlinear_arith);
    lemma_nearest_ratio(a, b, k * a, k * b, binade(a, b));
}

/// Dividing by one changes nothing.
pub proof fn law_quotient_by_one(x: Dyadic)
    requires
        MANT_MIN <= x.mant < MANT_END,
    ensures
        quotient(x, integer(1)) == x,
{
    lemma_mantissa_ends();
    vstd::arithmetic::power2::lemma2_to64();
    assert(in_binade(1, 1, -52));
    lemma_binade_unique(1, 1, -52);
    assert(round_half_even(MANT_MIN as nat, 1) == MANT_MIN);
    let one = integer(1);
    assert(one == (Dyadic { mant: MANT_MIN as nat, exp: -52 }));
    let n = x.mant * pow2(52);
    assert(in_binade(x.mant, one.mant, -52)) by (nonlinear_arith)
        requires
            one.mant == MANT_MIN,
            pow2(52) == MANT_MIN,
            MANT_MIN <= x.mant < MANT_END,
            MANT_MIN > 0,
            in_binade(x.mant, one.mant, -52) <==> MANT_MIN * MANT_MIN <= x.mant * pow2(52) && x.mant
                * pow2(52) < MANT_END * MANT_MIN,
    ;
    lemma_binade_unique(x.mant, one.mant, -52);
    vstd::arithmetic::div_mod::lemma_fundamental_div_mod_converse(
        n as int,
        MANT_MIN as int,
        x.mant as int,
        0,
    );
}

/// Halfway between two integers, the even one is taken.
pub proof fn law_ties_go_to_even(n: nat, d: nat)
    requires
        d > 0,
        2 * n == 2 * (round_half_even(n, d) * d) + d || 2 * (round_half_even(n, d) * d) == 2 * n
            + d,
    ensures
        round_half_even(n, d) % 2 == 0,
{
    let q = n / d;
    let r = n % d;
    vstd::arithmetic::div_mod::lemma_fundamental_div_mod(n as int, d as int);
    assert(q * d == d * q) by (nonlinear_arith);
    assert((q + 1) * d == q * d + d) by (nonlinear_arith);
}

} // verus!
