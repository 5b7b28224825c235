//! Binary numbers in the format that IEEE 754 calls binary64, on integers.
//!
//! Every finite number of the format is a whole multiple of 2^-1074. Models
//! count these units; rounding is to the nearest number of the format, and to
//! the one with an even last digit where two are equally near.

use crate::number::{
    all_digits, dec_point, decimal, decimal_fixed, decimal_shifted, digits_value,
    law_point_parts_the_digits, ten,
};
use crate::writer;
use vstd::arithmetic::div_mod::{
    lemma_div_pos_is_pos, lemma_fundamental_div_mod, lemma_fundamental_div_mod_converse_div,
    lemma_fundamental_div_mod_converse_mod,
};
use vstd::arithmetic::power2::{
    lemma2_to64, lemma2_to64_rest, lemma_pow2_adds, lemma_pow2_pos, lemma_pow2_strictly_increases,
    lemma_pow2_unfold, pow2,
};
use vstd::prelude::*;

verus! {

/// The number of significands with the same exponent, 2^52.
pub const SPAN: u64 = 0x10_0000_0000_0000;

/// The bits of minus zero: the sign alone.
pub const SIGN: u64 = 0x8000_0000_0000_0000;

/// The bits of infinity.
pub const INFINITE: u64 = 0x7ff0_0000_0000_0000;

/// The bits of what is no number.
pub const UNDEFINED: u64 = 0x7ff8_0000_0000_0000;

/// The bits of one half.
pub const HALF: u64 = 0x3fe0_0000_0000_0000;

/// The bits of one.
pub const ONE: u64 = 0x3ff0_0000_0000_0000;

/// The bits of two.
pub const TWO: u64 = 0x4000_0000_0000_0000;

/// The bits of three.
pub const THREE: u64 = 0x4008_0000_0000_0000;

/// The bits of four.
pub const FOUR: u64 = 0x4010_0000_0000_0000;

/// The bits of thirty.
pub const THIRTY: u64 = 0x403e_0000_0000_0000;

/// The bits of sixty.
pub const SIXTY: u64 = 0x404e_0000_0000_0000;

/// The exponent of the unit: 2^1074 units are one.
pub const UNIT: u32 = 1074;

/// `n` divided by `d`, rounded to the nearest whole number, and to the even one
/// where two are equally near.
pub open spec fn half_even(n: nat, d: nat) -> nat {
    let q = n / d;
    let r = n % d;
    if 2 * r > d || (2 * r == d && q % 2 == 1) {
        q + 1
    } else {
        q
    }
}

/// The least `s` for which `n / d` is below 2^(53 + s).
pub open spec fn shift_for(n: nat, d: nat) -> nat
    decreases
            (if n >= d {
                n - d
            } else {
                0
            }),
{
    if d == 0 || n < d * 0x20_0000_0000_0000 {
        0
    } else {
        1 + shift_for(n, 2 * d)
    }
}

/// The bits of the number of the format that is nearest to `n / d` units.
pub open spec fn nearest(n: nat, d: nat) -> u64 {
    let s = shift_for(n, d);
    let raw = s * SPAN + half_even(n, d * pow2(s));
    if raw < INFINITE {
        raw as u64
    } else {
        INFINITE
    }
}

/// A binary floating-point number, by its bits.
#[derive(Clone, Copy, Debug, PartialEq, Eq, Structural)]
pub struct Double {
    pub bits: u64,
}

/// The significand of the number with the bits `m`, which has no sign.
pub open spec fn significand(m: u64) -> nat {
    if m < SPAN {
        m as nat
    } else {
        (SPAN + m % SPAN) as nat
    }
}

/// The exponent of the number with the bits `m`, which has no sign, counted
/// from that of the unit.
pub open spec fn exponent(m: u64) -> nat {
    if m < SPAN {
        0
    } else {
        (m / SPAN - 1) as nat
    }
}

impl Double {
    /// The sign is minus.
    pub open spec fn negative(self) -> bool {
        self.bits >= SIGN
    }

    /// The bits without the sign.
    pub open spec fn magnitude(self) -> u64 {
        if self.negative() {
            (self.bits - SIGN) as u64
        } else {
            self.bits
        }
    }

    /// It is no number.
    pub open spec fn is_nan(self) -> bool {
        self.magnitude() > INFINITE
    }

    /// It is infinite.
    pub open spec fn is_infinite(self) -> bool {
        self.magnitude() == INFINITE
    }

    /// It is a finite number.
    pub open spec fn is_finite(self) -> bool {
        self.magnitude() < INFINITE
    }

    /// How many units it is away from zero.
    pub open spec fn units(self) -> nat {
        significand(self.magnitude()) * pow2(exponent(self.magnitude()))
    }

    /// How many units it is.
    pub open spec fn signed_units(self) -> int {
        if self.negative() {
            -(self.units() as int)
        } else {
            self.units() as int
        }
    }

    /// The number of this sign and these bits.
    pub open spec fn of(negative: bool, magnitude: u64) -> Double {
        Double {
            bits: if negative {
                (SIGN + magnitude) as u64
            } else {
                magnitude
            },
        }
    }

    /// What is no number, in the one form that results have: which of its bits
    /// are set means nothing.
    pub open spec fn undefined() -> Double {
        Double { bits: UNDEFINED }
    }

    /// The number nearest to `t` units; zero has the sign that is given.
    pub open spec fn nearest_to(t: int, negative_zero: bool) -> Double {
        if t < 0 {
            Double::of(true, nearest((-t) as nat, 1))
        } else if t > 0 {
            Double::of(false, nearest(t as nat, 1))
        } else {
            Double::of(negative_zero, 0)
        }
    }
}

/// Scaling both numbers leaves what their quotient rounds to.
pub proof fn lemma_half_even_scale(n: nat, d: nat, c: nat)
    requires
        d > 0,
        c > 0,
    ensures
        half_even(n * c, d * c) == half_even(n, d),
        d * c > 0,
{
    let q = n / d;
    let r = n % d;
    lemma_fundamental_div_mod(n as int, d as int);
    assert(n * c == q * (d * c) + r * c) by (nonlinear_arith)
        requires
            n == d * q + r,
    ;
    assert(0 <= r * c < d * c) by (nonlinear_arith)
        requires
            0 <= r < d,
            c > 0,
    ;
    lemma_fundamental_div_mod_converse_div((n * c) as int, (d * c) as int, q as int, (r * c) as int);
    lemma_fundamental_div_mod_converse_mod((n * c) as int, (d * c) as int, q as int, (r * c) as int);
    assert((2 * r > d) == (2 * (r * c) > d * c)) by (nonlinear_arith)
        requires
            c > 0,
    ;
    assert((2 * r == d) == (2 * (r * c) == d * c)) by (nonlinear_arith)
        requires
            c > 0,
    ;
}

/// What the least shift is.
proof fn lemma_shift_is(n: nat, d: nat, s: nat)
    requires
        d > 0,
        n < d * pow2(53 + s),
        s > 0 ==> n >= d * pow2((52 + s) as nat),
    ensures
        shift_for(n, d) == s,
    decreases s,
{
    lemma2_to64_rest();
    if s > 0 {
        let e = (53 + s - 1) as nat;
        lemma_pow2_unfold((53 + s) as nat);
        assert(d * pow2((53 + s) as nat) == (2 * d) * pow2(e)) by (nonlinear_arith)
            requires
                pow2((53 + s) as nat) == 2 * pow2(e),
        ;
        if s > 1 {
            lemma_pow2_unfold(e);
            let f = (e - 1) as nat;
            assert(d * pow2(e) == (2 * d) * pow2(f)) by (nonlinear_arith)
                requires
                    pow2(e) == 2 * pow2(f),
            ;
        }
        lemma_shift_is(n, 2 * d, (s - 1) as nat);
        assert(n >= d * 0x20_0000_0000_0000) by {
            if s > 1 {
                lemma_pow2_strictly_increases(53, e);
            }
            assert(d * pow2(53) <= d * pow2(e)) by (nonlinear_arith)
                requires
                    pow2(53) <= pow2(e),
            ;
        }
    }
}

/// What a number is made of.
proof fn lemma_parts(m: u64)
    ensures
        significand(m) < 2 * SPAN,
        exponent(m) > 0 ==> significand(m) >= SPAN,
        m == exponent(m) * SPAN + significand(m),
        m < INFINITE ==> exponent(m) <= 2045,
{
}

/// Powers of two grow.
proof fn lemma_pow2_grows(a: nat, b: nat)
    requires
        a <= b,
    ensures
        0 < pow2(a) <= pow2(b),
{
    lemma_pow2_pos(a);
    if a < b {
        lemma_pow2_strictly_increases(a, b);
    }
}

/// 2^127, beyond which no number that is packed lies.
proof fn lemma_pow2_127()
    ensures
        pow2(127) == 0x8000_0000_0000_0000_0000_0000_0000_0000,
{
    lemma2_to64_rest();
    lemma_pow2_adds(64, 63);
}

/// What a quotient is nearest to, where it is a significand after a shift by
/// `j`.
proof fn lemma_nearest_is(n: nat, d: nat, s: nat, j: nat)
    requires
        d > 0,
        d * pow2(52 + j) <= n < d * pow2(53 + j),
    ensures
        nearest(n * pow2(s), d) == (if (s + j) * SPAN + half_even(n, d * pow2(j)) < INFINITE {
            ((s + j) * SPAN + half_even(n, d * pow2(j))) as u64
        } else {
            INFINITE
        }),
{
    let p = pow2(s);
    let k = s + j;
    lemma_pow2_pos(s);
    lemma_pow2_pos(j);
    lemma_pow2_adds(s, j);
    lemma_pow2_adds(s, 52 + j);
    lemma_pow2_adds(s, 53 + j);
    assert(s + (52 + j) == 52 + k);
    assert(s + (53 + j) == 53 + k);
    let low = pow2(52 + j);
    let high = pow2(53 + j);
    assert(n * p < d * (p * high)) by (nonlinear_arith)
        requires
            n < d * high,
            p > 0,
    ;
    assert(n * p >= d * (p * low)) by (nonlinear_arith)
        requires
            n >= d * low,
            p > 0,
    ;
    lemma_shift_is(n * p, d, k);
    let dj = d * pow2(j);
    assert(dj > 0) by (nonlinear_arith)
        requires
            d > 0,
            pow2(j) > 0,
            dj == d * pow2(j),
    ;
    assert(d * pow2(k) == dj * p) by (nonlinear_arith)
        requires
            pow2(k) == p * pow2(j),
            dj == d * pow2(j),
    ;
    lemma_half_even_scale(n, dj, p);
}

/// The bits nearest to `n / d` times 2^s units, where the quotient is no
/// smaller than a significand.
fn pack_ratio(n: u128, d: u64, s: u32) -> (r: u64)
    requires
        0 < d,
        d * SPAN <= n < 0x8000_0000_0000_0000_0000_0000_0000_0000,
        s <= 3100,
    ensures
        r == nearest(n as nat * pow2(s as nat), d as nat),
{
    let mut dj: u128 = d as u128;
    let mut j: u32 = 0;
    proof {
        lemma2_to64();
        lemma2_to64_rest();
    }
    while n / dj >= 0x20_0000_0000_0000
        invariant
            0 < d,
            0 < dj <= n,
            n < 0x8000_0000_0000_0000_0000_0000_0000_0000,
            dj == d * pow2(j as nat),
            n >= d * pow2((52 + j) as nat),
            j <= 75,
        decreases n - dj,
    {
        proof {
            let q = n / dj;
            lemma_fundamental_div_mod(n as int, dj as int);
            assert(n >= dj * 0x20_0000_0000_0000) by (nonlinear_arith)
                requires
                    n == dj * q + n % dj,
                    q >= 0x20_0000_0000_0000,
                    dj > 0,
            ;
            lemma2_to64_rest();
            lemma_pow2_unfold((j + 1) as nat);
            lemma_pow2_adds(j as nat, 53);
            assert(n >= d * pow2((53 + j) as nat)) by (nonlinear_arith)
                requires
                    n >= dj * 0x20_0000_0000_0000,
                    dj == d * pow2(j as nat),
                    pow2((53 + j) as nat) == pow2(j as nat) * 0x20_0000_0000_0000,
            ;
            assert(dj * 2 == d * pow2((j + 1) as nat)) by (nonlinear_arith)
                requires
                    dj == d * pow2(j as nat),
                    pow2((j + 1) as nat) == 2 * pow2(j as nat),
            ;
            lemma_pow2_127();
            if j >= 75 {
                lemma_pow2_grows(127, (53 + j) as nat);
                assert(pow2((53 + j) as nat) <= d * pow2((53 + j) as nat)) by (nonlinear_arith)
                    requires
                        d >= 1,
                ;
            }
        }
        dj = dj * 2;
        j = j + 1;
    }
    let q: u128 = n / dj;
    let rest: u128 = n % dj;
    proof {
        lemma_fundamental_div_mod(n as int, dj as int);
        assert(n < dj * 0x20_0000_0000_0000) by (nonlinear_arith)
            requires
                n == dj * q + rest,
                q < 0x20_0000_0000_0000,
                rest < dj,
        ;
        lemma2_to64_rest();
        lemma_pow2_adds(j as nat, 53);
        assert(dj * 0x20_0000_0000_0000 == d * pow2((53 + j) as nat)) by (nonlinear_arith)
            requires
                dj == d * pow2(j as nat),
                pow2((53 + j) as nat) == pow2(j as nat) * 0x20_0000_0000_0000,
        ;
        lemma_nearest_is(n as nat, d as nat, s as nat, j as nat);
    }
    let up = rest > dj - rest || (rest == dj - rest && q % 2 == 1);
    let m: u64 = if up {
        q as u64 + 1
    } else {
        q as u64
    };
    let raw: u64 = (s + j) as u64 * SPAN + m;
    if raw < INFINITE {
        raw
    } else {
        INFINITE
    }
}

/// The bits nearest to `x` times 2^s units.
fn pack(x: u128, s: u32) -> (r: u64)
    requires
        x < 0x8000_0000_0000_0000_0000_0000_0000_0000,
        s <= 3100,
    ensures
        r == nearest(x as nat * pow2(s as nat), 1),
{
    let ghost total = x as nat * pow2(s as nat);
    let mut m: u128 = x;
    let mut e: u32 = s;
    while e > 0 && m < SPAN as u128
        invariant
            m < 0x8000_0000_0000_0000_0000_0000_0000_0000,
            e <= s <= 3100,
            total == m as nat * pow2(e as nat),
        decreases e,
    {
        proof {
            lemma_pow2_unfold(e as nat);
            let p = pow2((e - 1) as nat);
            assert(m * (2 * p) == (2 * m) * p) by (nonlinear_arith);
        }
        m = m * 2;
        e = e - 1;
    }
    if m < SPAN as u128 {
        proof {
            lemma2_to64();
            lemma2_to64_rest();
            assert(total == m);
            lemma_shift_is(total, 1, 0);
            assert(half_even(total, 1) == total);
        }
        m as u64
    } else {
        pack_ratio(m, 1, e)
    }
}

/// A number of the format is the one nearest to itself.
pub proof fn law_nearest_keeps(m: u64)
    requires
        m < INFINITE,
    ensures
        nearest(significand(m) * pow2(exponent(m)), 1) == m,
{
    let x = significand(m);
    let e = exponent(m);
    lemma_parts(m);
    lemma2_to64();
    lemma2_to64_rest();
    lemma_quotient(x, 1, x, 0);
    if x >= SPAN {
        lemma_nearest_is(x, 1, e, 0);
    } else {
        assert(x * pow2(e) == x) by (nonlinear_arith)
            requires
                pow2(e) == 1,
        ;
        lemma_shift_is(x, 1, 0);
    }
}

/// What a division gives.
proof fn lemma_quotient(n: nat, p: nat, q: nat, r: nat)
    requires
        n == q * p + r,
        r < p,
    ensures
        half_even(n, p) == (if 2 * r > p || (2 * r == p && q % 2 == 1) {
            q + 1
        } else {
            q
        }),
{
    lemma_fundamental_div_mod_converse_div(n as int, p as int, q as int, r as int);
    lemma_fundamental_div_mod_converse_mod(n as int, p as int, q as int, r as int);
}

/// A number that is far smaller does not change what a sum is nearest to.
proof fn lemma_far_sum(a: u64, x: nat)
    requires
        SPAN < a < INFINITE,
        exponent(a) > 0,
        4 * x < pow2(exponent(a)),
    ensures
        nearest(significand(a) * pow2(exponent(a)) + x, 1) == a,
        x <= significand(a) * pow2(exponent(a)),
        nearest((significand(a) * pow2(exponent(a)) - x) as nat, 1) == a,
{
    let m = significand(a);
    let e = exponent(a);
    let p = pow2(e);
    let h = pow2((e - 1) as nat);
    lemma_parts(a);
    lemma2_to64_rest();
    lemma_pow2_unfold(e);
    lemma_pow2_adds(52, e);
    lemma_pow2_adds(53, e);
    lemma_pow2_adds(52, (e - 1) as nat);
    let more = m * p + x;
    assert(more < 0x20_0000_0000_0000 * p) by (nonlinear_arith)
        requires
            more == m * p + x,
            m + 1 <= 0x20_0000_0000_0000,
            x < p,
    ;
    assert(more >= 0x10_0000_0000_0000 * p) by (nonlinear_arith)
        requires
            more == m * p + x,
            m >= 0x10_0000_0000_0000,
    ;
    lemma_shift_is(more, 1, e);
    lemma_quotient(more, p, m, x);
    assert(x <= m * p) by (nonlinear_arith)
        requires
            m >= 1,
            x < p,
    ;
    let less = (m * p - x) as nat;
    if x == 0 {
        law_nearest_keeps(a);
    } else if m > SPAN {
        assert(less >= 0x10_0000_0000_0000 * p) by (nonlinear_arith)
            requires
                less == m * p - x,
                m >= 0x10_0000_0000_0001,
                x < p,
        ;
        assert(less < 0x20_0000_0000_0000 * p) by (nonlinear_arith)
            requires
                less == m * p - x,
                m <= 0x20_0000_0000_0000,
                0 < x,
                p > 0,
        ;
        lemma_shift_is(less, 1, e);
        assert(less == (m - 1) * p + (p - x)) by (nonlinear_arith)
            requires
                less == m * p - x,
        ;
        lemma_quotient(less, p, (m - 1) as nat, (p - x) as nat);
    } else {
        assert(less == 0x1f_ffff_ffff_ffff * h + (h - x));
        assert(less < 0x20_0000_0000_0000 * h);
        assert(less >= 0x10_0000_0000_0000 * h);
        lemma_shift_is(less, 1, (e - 1) as nat);
        lemma_quotient(less, h, 0x1f_ffff_ffff_ffff, (h - x) as nat);
    }
}

/// 2^e.
fn power(e: u32) -> (r: u128)
    requires
        e <= 120,
    ensures
        r == pow2(e as nat),
        0 < r < 0x8000_0000_0000_0000_0000_0000_0000_0000,
{
    proof {
        lemma2_to64();
        lemma_pow2_127();
    }
    let mut r: u128 = 1;
    let mut i: u32 = 0;
    while i < e
        invariant
            i <= e <= 120,
            r == pow2(i as nat),
            pow2(127) == 0x8000_0000_0000_0000_0000_0000_0000_0000,
        decreases e - i,
    {
        proof {
            lemma_pow2_unfold((i + 1) as nat);
            lemma_pow2_strictly_increases((i + 1) as nat, 127);
        }
        r = r * 2;
        i = i + 1;
    }
    proof {
        lemma_pow2_pos(e as nat);
        lemma_pow2_strictly_increases(e as nat, 127);
    }
    r
}

/// The significand and the exponent of the number with the bits `m`.
fn split(m: u64) -> (r: (u64, u32))
    requires
        m < INFINITE,
    ensures
        r.0 == significand(m),
        r.1 == exponent(m),
        r.0 < 2 * SPAN,
        r.1 <= 2045,
        r.1 > 0 ==> r.0 >= SPAN,
{
    if m < SPAN {
        (m, 0)
    } else {
        (SPAN + m % SPAN, (m / SPAN - 1) as u32)
    }
}

/// The bits nearest to the sum of the numbers with the bits `a` and `b`, or to
/// their difference where `apart`.
fn combined(a: u64, b: u64, apart: bool) -> (r: u64)
    requires
        b <= a < INFINITE,
    ensures
        significand(b) * pow2(exponent(b)) <= significand(a) * pow2(exponent(a)),
        r == nearest(
            (significand(a) * pow2(exponent(a)) + (if apart {
                -(significand(b) * pow2(exponent(b)) as int)
            } else {
                significand(b) * pow2(exponent(b)) as int
            })) as nat,
            1,
        ),
{
    let (m, e) = split(a);
    let (n, f) = split(b);
    assert(f <= e && (f == e ==> n <= m)) by {
        lemma_parts(a);
        lemma_parts(b);
    }
    let ghost p = pow2(e as nat);
    let ghost g = pow2(f as nat);
    proof {
        lemma_pow2_pos(e as nat);
        lemma_pow2_pos(f as nat);
    }
    let by: u32 = e - f;
    if by <= 64 {
        let scale: u128 = power(by);
        proof {
            lemma2_to64_rest();
            lemma_pow2_adds(by as nat, f as nat);
            lemma_pow2_grows(by as nat, 64);
            assert(m * scale <= 0x20_0000_0000_0000 * 0x1_0000_0000_0000_0000) by (nonlinear_arith)
                requires
                    m <= 0x20_0000_0000_0000,
                    scale <= 0x1_0000_0000_0000_0000,
            ;
            assert(n <= m * scale) by {
                if by == 0 {
                    lemma2_to64();
                    assert(m * scale == m) by (nonlinear_arith)
                        requires
                            scale == 1,
                    ;
                } else {
                    lemma_pow2_grows(1, by as nat);
                    lemma2_to64();
                    assert(2 * m <= m * scale) by (nonlinear_arith)
                        requires
                            scale >= 2,
                    ;
                }
            }
            let x = m * scale;
            assert(m * p == x * g) by (nonlinear_arith)
                requires
                    p == scale * g,
                    x == m * scale,
            ;
            assert((x + n) * g == x * g + n * g) by (nonlinear_arith);
            assert((x - n) * g == x * g - n * g) by (nonlinear_arith);
            assert(n * g <= x * g) by (nonlinear_arith)
                requires
                    n <= x,
                    g > 0,
            ;
        }
        let x: u128 = m as u128 * scale;
        if apart {
            pack(x - n as u128, f)
        } else {
            pack(x + n as u128, f)
        }
    } else {
        proof {
            lemma2_to64_rest();
            lemma_pow2_adds(56, f as nat);
            lemma_pow2_grows((56 + f) as nat, e as nat);
            assert(4 * (n * g) < p) by (nonlinear_arith)
                requires
                    n < 0x20_0000_0000_0000,
                    0x100_0000_0000_0000 * g <= p,
                    g > 0,
            ;
            lemma_parts(a);
            lemma_far_sum(a, (n * g) as nat);
        }
        a
    }
}

impl Double {
    /// The number of these bits.
    pub fn from_bits(bits: u64) -> (r: Double)
        ensures
            r.bits == bits,
    {
        Double { bits }
    }

    /// The sum of two numbers.
    pub open spec fn sum(self, other: Double) -> Double {
        if self.is_nan() || other.is_nan() {
            Double::undefined()
        } else if self.is_infinite() {
            if other.is_infinite() && self.negative() != other.negative() {
                Double::undefined()
            } else {
                self
            }
        } else if other.is_infinite() {
            other
        } else {
            Double::nearest_to(
                self.signed_units() + other.signed_units(),
                self.negative() && other.negative(),
            )
        }
    }

    /// The bits without the sign, and the sign.
    fn parts(&self) -> (r: (u64, bool))
        ensures
            r.0 == self.magnitude(),
            r.1 == self.negative(),
    {
        if self.bits >= SIGN {
            (self.bits - SIGN, true)
        } else {
            (self.bits, false)
        }
    }

    /// The number of this sign and these bits.
    fn join(negative: bool, magnitude: u64) -> (r: Double)
        requires
            magnitude < SIGN,
        ensures
            r == Double::of(negative, magnitude),
    {
        if negative {
            Double { bits: SIGN + magnitude }
        } else {
            Double { bits: magnitude }
        }
    }

    /// The sum of two numbers.
    pub fn plus(&self, other: &Double) -> (r: Double)
        ensures
            r == self.sum(*other),
    {
        let (a, minus_a) = self.parts();
        let (b, minus_b) = other.parts();
        if a > INFINITE || b > INFINITE {
            return Double { bits: UNDEFINED };
        }
        if a == INFINITE {
            return if b == INFINITE && minus_a != minus_b {
                Double { bits: UNDEFINED }
            } else {
                *self
            };
        }
        if b == INFINITE {
            return *other;
        }
        let apart = minus_a != minus_b;
        if a == b && apart {
            return Double { bits: 0 };
        }
        proof {
            lemma_units_order(a, b);
            lemma_zero();
        }
        if b <= a {
            Self::join(minus_a, combined(a, b, apart))
        } else {
            Self::join(minus_b, combined(b, a, apart))
        }
    }
}

/// Nothing is nearest to nothing but zero.
proof fn lemma_zero()
    ensures
        nearest(0, 1) == 0,
{
    lemma2_to64();
    lemma2_to64_rest();
    lemma_shift_is(0, 1, 0);
}

/// Bits without a sign are ordered as the numbers are.
proof fn lemma_units_order(a: u64, b: u64)
    requires
        a < INFINITE,
        b < INFINITE,
    ensures
        a < b ==> significand(a) * pow2(exponent(a)) < significand(b) * pow2(exponent(b)),
        b < a ==> significand(b) * pow2(exponent(b)) < significand(a) * pow2(exponent(a)),
{
    if a < b {
        lemma_units_less(a, b);
    } else if b < a {
        lemma_units_less(b, a);
    }
}

/// Of two numbers without a sign, the one with the smaller bits is smaller.
proof fn lemma_units_less(a: u64, b: u64)
    requires
        a < b < INFINITE,
    ensures
        significand(a) * pow2(exponent(a)) < significand(b) * pow2(exponent(b)),
{
    let m = significand(a);
    let e = exponent(a);
    let n = significand(b);
    let f = exponent(b);
    lemma_parts(a);
    lemma_parts(b);
    lemma_pow2_pos(e);
    lemma_pow2_pos(f);
    let p = pow2(e);
    let g = pow2(f);
    if e == f {
        assert(m * p < n * p) by (nonlinear_arith)
            requires
                m < n,
                p > 0,
        ;
    } else {
        lemma_pow2_unfold(f);
        lemma_pow2_grows(e, (f - 1) as nat);
        assert(m * p < n * g) by (nonlinear_arith)
            requires
                m < 0x20_0000_0000_0000,
                n >= 0x10_0000_0000_0000,
                g >= 2 * p,
                p > 0,
        ;
    }
}

/// The least shift is large enough, and none that is smaller is.
proof fn lemma_shift_bounds(n: nat, d: nat)
    requires
        d > 0,
    ensures
        n < d * pow2(53 + shift_for(n, d)),
        shift_for(n, d) > 0 ==> n >= d * pow2(52 + shift_for(n, d)),
    decreases
            (if n >= d {
                n - d
            } else {
                0
            }),
{
    lemma2_to64_rest();
    let s = shift_for(n, d);
    if s > 0 {
        lemma_shift_bounds(n, 2 * d);
        let e = (52 + s) as nat;
        lemma_pow2_unfold((53 + s) as nat);
        assert((2 * d) * pow2(e) == d * pow2((53 + s) as nat)) by (nonlinear_arith)
            requires
                pow2((53 + s) as nat) == 2 * pow2(e),
        ;
        if s > 1 {
            let f = (51 + s) as nat;
            lemma_pow2_unfold(e);
            assert((2 * d) * pow2(f) == d * pow2(e)) by (nonlinear_arith)
                requires
                    pow2(e) == 2 * pow2(f),
            ;
        }
    }
}

/// The bits of a whole number that is neither small nor beyond 2^127.
proof fn lemma_whole(x: nat)
    requires
        8 <= x < 0x8000_0000_0000_0000_0000_0000_0000_0000,
    ensures
        1025 <= exponent(nearest(x * pow2(UNIT as nat), 1)),
        nearest(x * pow2(UNIT as nat), 1) < INFINITE,
{
    let n = x * pow2(1074);
    let s = shift_for(n, 1);
    let m = half_even(n, pow2(s));
    lemma2_to64();
    lemma2_to64_rest();
    lemma_pow2_pos(1074);
    lemma_pow2_pos(s);
    lemma_shift_bounds(n, 1);
    lemma_pow2_adds(3, 1074);
    assert(n >= 8 * pow2(1074)) by (nonlinear_arith)
        requires
            n == x * pow2(1074),
            x >= 8,
    ;
    if s < 1025 {
        lemma_pow2_grows(53 + s, 1077);
    }
    lemma_pow2_127();
    lemma_pow2_adds(127, 1074);
    assert(n < pow2(127) * pow2(1074)) by (nonlinear_arith)
        requires
            n == x * pow2(1074),
            x < pow2(127),
            pow2(1074) > 0,
    ;
    if s > 1149 {
        lemma_pow2_grows(1201, 52 + s);
    }
    lemma_pow2_adds(52, s);
    lemma_pow2_adds(53, s);
    lemma_fundamental_div_mod(n as int, pow2(s) as int);
    let q = n / pow2(s);
    lemma_between(
        n as int,
        pow2(s) as int,
        q as int,
        n as int % pow2(s) as int,
        0x10_0000_0000_0000,
        0x20_0000_0000_0000,
    );
}

/// What a quotient lies between.
proof fn lemma_between(n: int, p: int, q: int, r: int, low: int, high: int)
    by (nonlinear_arith)
    requires
        n == p * q + r,
        0 <= r < p,
        low * p <= n < high * p,
    ensures
        low <= q < high,
{
}

impl Double {
    /// The number nearest to `n`.
    pub open spec fn whole(n: nat) -> Double {
        Double { bits: nearest(n * pow2(UNIT as nat), 1) }
    }

    /// It is above zero.
    pub open spec fn is_positive(self) -> bool {
        !self.negative() && 0 < self.magnitude() <= INFINITE
    }

    /// `k` times the number.
    pub open spec fn times(self, k: nat) -> Double {
        if self.is_nan() {
            Double::undefined()
        } else if self.is_infinite() {
            self
        } else {
            Double::of(self.negative(), nearest(k * self.units(), 1))
        }
    }

    /// What the number, which is not negative, gives when it is divided by one
    /// above zero.
    pub open spec fn over(self, other: Double) -> Double {
        if other.is_infinite() {
            Double { bits: 0 }
        } else {
            Double { bits: nearest(self.units() * pow2(UNIT as nat), other.units()) }
        }
    }

    /// The whole part, between zero and the greatest number of 64 bits.
    pub open spec fn truncated(self) -> u64 {
        if self.is_nan() || self.negative() {
            0
        } else if self.is_infinite() || self.units() / pow2(UNIT as nat) > u64::MAX {
            u64::MAX
        } else {
            (self.units() / pow2(UNIT as nat)) as u64
        }
    }

    /// The least whole number that is not below it, between zero and the
    /// greatest number of 32 bits.
    pub open spec fn rounded_up(self) -> u32 {
        let one = pow2(UNIT as nat);
        if self.is_nan() || self.negative() {
            0
        } else if self.is_infinite() || (self.units() + (one - 1)) / one as int > u32::MAX {
            u32::MAX
        } else {
            ((self.units() + (one - 1)) / one as int) as u32
        }
    }

    /// Whether it is above zero.
    pub fn above_zero(&self) -> (r: bool)
        ensures
            r == self.is_positive(),
    {
        0 < self.bits && self.bits <= INFINITE
    }

    /// Three times the number.
    pub fn triple(&self) -> (r: Double)
        ensures
            r == self.times(3),
    {
        let (a, minus) = self.parts();
        if a > INFINITE {
            Double { bits: UNDEFINED }
        } else if a == INFINITE {
            *self
        } else {
            let (m, e) = split(a);
            assert((3 * m) * pow2(e as nat) == 3 * (m * pow2(e as nat))) by (nonlinear_arith);
            Self::join(minus, pack(3 * m as u128, e))
        }
    }

    /// The whole part.
    pub fn whole_part(&self) -> (r: u64)
        ensures
            r == self.truncated(),
    {
        let (a, minus) = self.parts();
        if a > INFINITE || minus {
            return 0;
        }
        if a == INFINITE {
            return u64::MAX;
        }
        let (m, e) = split(a);
        let ghost one = pow2(1074);
        proof {
            lemma2_to64();
            lemma2_to64_rest();
            lemma_pow2_pos(1074);
        }
        if e >= UNIT {
            let by: u32 = e - UNIT;
            proof {
                lemma_pow2_adds(by as nat, 1074);
                let p = pow2(by as nat);
                assert(m * pow2(e as nat) == (m * p) * one + 0) by (nonlinear_arith)
                    requires
                        pow2(e as nat) == p * one,
                ;
                lemma_fundamental_div_mod_converse_div(
                    (m * pow2(e as nat)) as int,
                    one as int,
                    (m * p) as int,
                    0,
                );
                if by > 11 {
                    lemma_pow2_grows(12, by as nat);
                    assert(m * p >= 0x1_0000_0000_0000_0000) by (nonlinear_arith)
                        requires
                            m >= 0x10_0000_0000_0000,
                            p >= 0x1000,
                    ;
                } else {
                    lemma_pow2_grows(by as nat, 11);
                    assert(m * p <= 0x1f_ffff_ffff_ffff * 0x800) by (nonlinear_arith)
                        requires
                            m <= 0x1f_ffff_ffff_ffff,
                            p <= 0x800,
                    ;
                }
            }
            if by > 11 {
                u64::MAX
            } else {
                (m as u128 * power(by)) as u64
            }
        } else {
            let by: u32 = UNIT - e;
            proof {
                lemma_below_one(m as nat, e as nat, by as nat);
            }
            if by >= 53 {
                proof {
                    lemma_pow2_grows(53, by as nat);
                    lemma_fundamental_div_mod_converse_div(m as int, pow2(by as nat) as int, 0, m as int);
                }
                0
            } else {
                let part: u128 = m as u128 / power(by);
                assert(part <= m) by (nonlinear_arith)
                    requires
                        part == m as nat / pow2(by as nat),
                        pow2(by as nat) > 0,
                ;
                part as u64
            }
        }
    }

    /// The least whole number that is not below it.
    pub fn ceiling(&self) -> (r: u32)
        ensures
            r == self.rounded_up(),
    {
        let (a, minus) = self.parts();
        if a > INFINITE || minus {
            return 0;
        }
        if a == INFINITE {
            return u32::MAX;
        }
        let (m, e) = split(a);
        let ghost one = pow2(1074) as int;
        let ghost u = self.units() as int;
        proof {
            lemma2_to64();
            lemma2_to64_rest();
            lemma_pow2_pos(1074);
        }
        if e >= UNIT {
            proof {
                lemma_pow2_grows(1074, e as nat);
                let up = (u + (one - 1)) / one;
                assert(u >= 0x10_0000_0000_0000 * one) by (nonlinear_arith)
                    requires
                        u == m * pow2(e as nat),
                        m >= 0x10_0000_0000_0000,
                        pow2(e as nat) >= one,
                ;
                lemma_fundamental_div_mod(u + (one - 1), one);
                assert(up > 0xffff_ffff) by (nonlinear_arith)
                    requires
                        u + (one - 1) == one * up + (u + (one - 1)) % one,
                        (u + (one - 1)) % one < one,
                        u >= 0x10_0000_0000_0000 * one,
                        one > 0,
                ;
            }
            u32::MAX
        } else {
            let by: u32 = UNIT - e;
            proof {
                lemma_below_one(m as nat, e as nat, by as nat);
            }
            if by >= 54 {
                proof {
                    lemma_pow2_grows(54, by as nat);
                    let p = pow2(by as nat) as int;
                    if m == 0 {
                        lemma_fundamental_div_mod_converse_div(p - 1, p, 0, p - 1);
                    } else {
                        lemma_fundamental_div_mod_converse_div(m + (p - 1), p, 1, m - 1);
                    }
                }
                if m == 0 {
                    0
                } else {
                    1
                }
            } else {
                let p: u128 = power(by);
                let up: u128 = (m as u128 + (p - 1)) / p;
                if up > 0xffff_ffff {
                    u32::MAX
                } else {
                    up as u32
                }
            }
        }
    }
}

/// Dividing a number below 2^53 by one, which is 2^1074 units, divides its
/// significand by 2^by.
proof fn lemma_below_one(m: nat, e: nat, by: nat)
    requires
        e + by == 1074,
    ensures
        pow2(by) > 0,
        (m * pow2(e)) / pow2(1074) == m / pow2(by),
        (m * pow2(e) + (pow2(1074) - 1)) / pow2(1074) as int == (m + (pow2(by) - 1)) / pow2(
            by,
        ) as int,
{
    let p = pow2(by) as int;
    let g = pow2(e) as int;
    let one = pow2(1074) as int;
    lemma_pow2_pos(by);
    lemma_pow2_pos(e);
    lemma_pow2_adds(by, e);
    let q = m as int / p;
    let r = m as int % p;
    lemma_fundamental_div_mod(m as int, p);
    assert(m * g == q * one + r * g && 0 <= r * g < one) by (nonlinear_arith)
        requires
            m == p * q + r,
            0 <= r < p,
            g > 0,
            one == p * g,
    ;
    lemma_fundamental_div_mod_converse_div((m * g) as int, one, q, r * g);
    let v = (m + (p - 1)) / p;
    let w = (m + (p - 1)) % p;
    lemma_fundamental_div_mod(m + (p - 1), p);
    let rest = w * g + (g - 1);
    assert(m * g + (one - 1) == v * one + rest && 0 <= rest < one) by (nonlinear_arith)
        requires
            m + (p - 1) == p * v + w,
            0 <= w <= p - 1,
            g > 0,
            one == p * g,
            rest == w * g + (g - 1),
    ;
    lemma_fundamental_div_mod_converse_div(m * g + (one - 1), one, v, rest);
}

/// The whole part of `n`, taken as a number, over `d`.
pub open spec fn whole_ratio(n: nat, d: Double) -> u64 {
    Double::whole(n).over(d).truncated()
}

/// The whole part of `n`, which is nothing or at least eight, taken as a number,
/// over `d`.
pub fn divide_whole(n: u128, d: &Double) -> (r: u64)
    requires
        n == 0 || 8 <= n < 0x8000_0000_0000_0000_0000_0000_0000_0000,
        d.is_positive(),
    ensures
        r == whole_ratio(n as nat, *d),
{
    proof {
        lemma2_to64();
        lemma2_to64_rest();
        lemma_zero();
    }
    if d.bits == INFINITE {
        let r = Double { bits: 0 };
        return r.whole_part();
    }
    let a: u64 = pack(n, UNIT);
    let (k, f) = split(d.bits);
    proof {
        lemma_parts(d.bits);
        lemma_pow2_pos(f as nat);
        assert(d.units() > 0) by (nonlinear_arith)
            requires
                d.units() == k * pow2(f as nat),
                k > 0,
                pow2(f as nat) > 0,
        ;
    }
    if n == 0 {
        proof {
            let u = d.units();
            assert(Double::whole(0).units() == 0) by {
                assert(0 * pow2(1074) == 0);
                assert(0 * pow2(0) == 0);
            }
            assert(0 * pow2(1074) == 0);
            assert(0 < u * pow2(53)) by (nonlinear_arith)
                requires
                    u > 0,
                    pow2(53) > 0,
            ;
            lemma_shift_is(0, u, 0);
            assert(u * pow2(0) == u) by (nonlinear_arith)
                requires
                    pow2(0) == 1,
            ;
            lemma_quotient(0, u, 0, 0);
        }
        let r = Double { bits: 0 };
        return r.whole_part();
    }
    proof {
        lemma_whole(n as nat);
    }
    let (m, e) = split(a);
    let x: u128 = m as u128 * 0x40_0000_0000_0000;
    let by: u32 = e + 1020 - f;
    proof {
        // a quotient of significands, and a power of two
        let g = pow2(f as nat);
        let p = pow2(by as nat);
        let total = Double::whole(n as nat).units() * pow2(1074);
        assert(x >= k * SPAN);
        lemma_pow2_adds(e as nat, 1074);
        lemma_pow2_adds(by as nat, f as nat);
        lemma_pow2_adds((by + f) as nat, 54);
        assert(e + 1074 == by + f + 54);
        assert(total == (x * p) * g) by (nonlinear_arith)
            requires
                total == (m * pow2(e as nat)) * pow2(1074),
                pow2((e + 1074) as nat) == pow2(e as nat) * pow2(1074),
                pow2((e + 1074) as nat) == (p * g) * 0x40_0000_0000_0000,
                x == m * 0x40_0000_0000_0000,
        ;
        lemma_nearest_scale((x * p) as nat, k as nat, g);
    }
    let r = Double { bits: pack_ratio(x, k, by) };
    r.whole_part()
}

/// Scaling both numbers leaves what their quotient is nearest to.
proof fn lemma_nearest_scale(n: nat, d: nat, c: nat)
    requires
        d > 0,
        c > 0,
    ensures
        nearest(n * c, d * c) == nearest(n, d),
{
    let s = shift_for(n, d);
    lemma_shift_bounds(n, d);
    assert(d * c > 0) by (nonlinear_arith)
        requires
            d > 0,
            c > 0,
    ;
    let high = pow2(53 + s);
    let low = pow2(52 + s);
    assert(n * c < (d * c) * high) by (nonlinear_arith)
        requires
            n < d * high,
            c > 0,
    ;
    if s > 0 {
        assert(n * c >= (d * c) * low) by (nonlinear_arith)
            requires
                n >= d * low,
                c > 0,
        ;
    }
    lemma_shift_is(n * c, d * c, s);
    let p = pow2(s);
    lemma_pow2_pos(s);
    assert((d * c) * p == (d * p) * c) by (nonlinear_arith);
    assert(d * p > 0) by (nonlinear_arith)
        requires
            d > 0,
            p > 0,
    ;
    lemma_half_even_scale(n, d * p, c);
}

impl Double {
    /// The number in units of `10^-width`, rounded; `scale` is `10^width`.
    pub open spec fn scaled(self, scale: nat) -> nat {
        half_even(self.units() * scale, pow2(UNIT as nat))
    }

    /// The number with `width` decimals; `scale` is `10^width`.
    pub open spec fn printed(self, scale: nat, width: nat) -> Seq<char> {
        let sign = if self.negative() {
            "-"@
        } else {
            Seq::empty()
        };
        if self.is_nan() {
            "NaN"@
        } else if self.is_infinite() {
            sign + "inf"@
        } else {
            sign + dec_point(self.scaled(scale), scale, width)
        }
    }

    /// The number with two decimals, such as `60.00`.
    pub open spec fn two_decimals(self) -> Seq<char> {
        self.printed(100, 2)
    }

    /// The number with three decimals, such as `4.167`.
    pub open spec fn three_decimals(self) -> Seq<char> {
        self.printed(1000, 3)
    }

    /// The number with six decimals, such as `4.167000`.
    pub open spec fn six_decimals(self) -> Seq<char> {
        self.printed(1_000_000, 6)
    }

    /// The digits of a finite number.
    fn digits(m: u64, e: u32, scale: u64, width: u8) -> (r: String)
        requires
            m < 2 * SPAN,
            e > 0 ==> m >= SPAN,
            0 < scale <= 1_000_000,
        ensures
            r@ == dec_point(
                half_even((m as nat * pow2(e as nat)) * scale as nat, pow2(UNIT as nat)),
                scale as nat,
                width as nat,
            ),
    {
        let ghost one = pow2(1074);
        let ghost all = (m as nat * pow2(e as nat)) * scale as nat;
        let mut out: String;
        let rest: u64;
        proof {
            lemma2_to64_rest();
            lemma_pow2_pos(1074);
            lemma_pow2_pos(e as nat);
        }
        if e >= UNIT {
            let by: u32 = e - UNIT;
            out = decimal_shifted(m, by);
            rest = 0;
            proof {
                let v = m as nat * pow2(by as nat);
                lemma_pow2_adds(by as nat, 1074);
                assert(all == (v * scale) * one + 0) by (nonlinear_arith)
                    requires
                        all == (m * pow2(e as nat)) * scale,
                        pow2(e as nat) == pow2(by as nat) * one,
                        v == m * pow2(by as nat),
                ;
                lemma_quotient(all, one, (v * scale) as nat, 0);
                lemma_fundamental_div_mod_converse_div((v * scale) as int, scale as int, v as int, 0);
                lemma_fundamental_div_mod_converse_mod((v * scale) as int, scale as int, v as int, 0);
            }
        } else {
            let by: u32 = UNIT - e;
            assert(m * scale <= 0x20_0000_0000_0000 * 1_000_000) by (nonlinear_arith)
                requires
                    m <= 0x20_0000_0000_0000,
                    scale <= 1_000_000,
            ;
            let x: u128 = m as u128 * scale as u128;
            proof {
                lemma_pow2_adds(by as nat, e as nat);
                lemma_pow2_pos(by as nat);
                assert(all == x as nat * pow2(e as nat)) by (nonlinear_arith)
                    requires
                        all == (m * pow2(e as nat)) * scale,
                        x == m * scale,
                ;
                lemma_half_even_scale(x as nat, pow2(by as nat), pow2(e as nat));
            }
            let n: u128;
            if by > 100 {
                n = 0;
                proof {
                    lemma_pow2_adds(50, 50);
                    lemma_pow2_grows(100, by as nat);
                    lemma_quotient(x as nat, pow2(by as nat), 0, x as nat);
                }
            } else {
                let p: u128 = power(by);
                let q: u128 = x / p;
                let r: u128 = x % p;
                assert(q <= x) by (nonlinear_arith)
                    requires
                        q == x / p,
                        p > 0,
                ;
                n = if r > p - r || (r == p - r && q % 2 == 1) {
                    q + 1
                } else {
                    q
                };
            }
            assert(n <= x + 1);
            let whole: u128 = n / scale as u128;
            assert(whole <= m + 1) by (nonlinear_arith)
                requires
                    whole == n / scale as u128,
                    n <= m * scale + 1,
                    scale > 0,
            ;
            out = decimal(whole as u64);
            rest = (n % scale as u128) as u64;
        }
        out.append(".");
        out.append(decimal_fixed(rest, width).as_str());
        proof {
            reveal_strlit(".");
            assert("."@ =~= seq!['.']);
        }
        out
    }

    /// The number with `width` decimals; `scale` is `10^width`.
    fn text(&self, scale: u64, width: u8) -> (r: String)
        requires
            0 < scale <= 1_000_000,
        ensures
            r@ == self.printed(scale as nat, width as nat),
    {
        let (a, minus) = self.parts();
        if a > INFINITE {
            return "NaN".to_owned();
        }
        let body = if a == INFINITE {
            "inf".to_owned()
        } else {
            let (m, e) = split(a);
            Self::digits(m, e, scale, width)
        };
        if minus {
            writer::join2("-", body.as_str())
        } else {
            assert(Seq::<char>::empty() + body@ =~= body@);
            body
        }
    }

    /// The number with two decimals.
    pub fn text_two(&self) -> (r: String)
        ensures
            r@ == self.two_decimals(),
    {
        self.text(100, 2)
    }

    /// The number with three decimals.
    pub fn text_three(&self) -> (r: String)
        ensures
            r@ == self.three_decimals(),
    {
        self.text(1000, 3)
    }

    /// The number with six decimals.
    pub fn text_six(&self) -> (r: String)
        ensures
            r@ == self.six_decimals(),
    {
        self.text(1_000_000, 6)
    }
}

impl Double {
    /// The number of single precision that is nearest: one with a significand
    /// below 2^24, in units of 2^-149, and infinite from 2^128 on.
    pub open spec fn single(self) -> Double {
        let unit = pow2(925);
        let grid = unit * pow2(shift_for(self.units() * 0x2000_0000, unit));
        let near = half_even(self.units(), grid) * grid;
        if self.is_nan() {
            Double::undefined()
        } else if self.is_infinite() {
            self
        } else if near >= pow2(1202) {
            Double::of(self.negative(), INFINITE)
        } else {
            Double::of(self.negative(), nearest(near, 1))
        }
    }

    /// The number of single precision that is nearest.
    pub fn to_single(&self) -> (r: Double)
        ensures
            r == self.single(),
    {
        let (a, minus) = self.parts();
        if a > INFINITE {
            return Double { bits: UNDEFINED };
        }
        if a == INFINITE {
            return *self;
        }
        let (m, e) = split(a);
        let drop: u32 = if e >= 896 {
            29
        } else {
            925 - e
        };
        let g: u32 = drop + e;
        let q: u64;
        proof {
            lemma_pow2_pos(drop as nat);
            lemma2_to64_rest();
        }
        if drop >= 54 {
            q = 0;
            proof {
                lemma_pow2_grows(54, drop as nat);
                lemma_quotient(m as nat, pow2(drop as nat), 0, m as nat);
            }
        } else {
            let p: u128 = power(drop);
            let whole: u128 = m as u128 / p;
            let rest: u128 = m as u128 % p;
            assert(whole <= m) by (nonlinear_arith)
                requires
                    whole == m as u128 / p,
                    p > 0,
            ;
            q = if rest > p - rest || (rest == p - rest && whole % 2 == 1) {
                whole as u64 + 1
            } else {
                whole as u64
            };
        }
        proof {
            lemma_single(m as nat, e as nat, drop as nat, g as nat);
            lemma_single_size(m as nat, q as nat, drop as nat, g as nat);
        }
        if g >= 1179 || (g == 1178 && q >= 0x100_0000) {
            Self::join(minus, INFINITE)
        } else {
            Self::join(minus, pack(q as u128, g))
        }
    }
}

/// The numbers of single precision around one with the significand `m` and the
/// exponent `e` are the multiples of 2^g units.
proof fn lemma_single(m: nat, e: nat, drop: nat, g: nat)
    requires
        m < 2 * SPAN,
        e > 0 ==> m >= SPAN,
        drop == (if e >= 896 {
            29
        } else {
            925 - e
        }),
        g == drop + e,
    ensures
        pow2(925) * pow2(shift_for((m * pow2(e)) * 0x2000_0000, pow2(925))) == pow2(g),
        half_even(m * pow2(e), pow2(g)) == half_even(m, pow2(drop)),
{
    let u = m * pow2(e);
    let s: nat = (g - 925) as nat;
    let unit = pow2(925);
    lemma2_to64();
    lemma2_to64_rest();
    lemma_pow2_pos(925);
    lemma_pow2_pos(e);
    lemma_pow2_pos(drop);
    lemma_pow2_adds(925, s);
    lemma_pow2_adds(925, 53 + s);
    lemma_pow2_adds(925, 52 + s);
    lemma_pow2_adds(29, e);
    lemma_pow2_adds(53, 29 + e);
    lemma_pow2_adds(52, 29 + e);
    lemma_pow2_grows((82 + e) as nat, (978 + s) as nat);
    let all = u * 0x2000_0000;
    let p = pow2(e);
    assert(all < 0x20_0000_0000_0000 * (0x2000_0000 * p)) by (nonlinear_arith)
        requires
            all == (m * p) * 0x2000_0000,
            m < 0x20_0000_0000_0000,
            p > 0,
    ;
    if s > 0 {
        assert(all >= 0x10_0000_0000_0000 * (0x2000_0000 * p)) by (nonlinear_arith)
            requires
                all == (m * p) * 0x2000_0000,
                m >= 0x10_0000_0000_0000,
        ;
    }
    lemma_shift_is(all, unit, s);
    lemma_pow2_adds(drop, e);
    lemma_half_even_scale(m, pow2(drop), pow2(e));
}

/// Where a rounded significand reaches 2^128.
proof fn lemma_single_size(m: nat, q: nat, drop: nat, g: nat)
    requires
        m < 2 * SPAN,
        q == half_even(m, pow2(drop)),
        drop >= 29,
        g > 925 ==> drop == 29 && m >= SPAN,
    ensures
        (q * pow2(g) >= pow2(1202)) == (g >= 1179 || (g == 1178 && q >= 0x100_0000)),
{
    let d = pow2(drop);
    lemma2_to64();
    lemma2_to64_rest();
    lemma_pow2_grows(29, drop);
    lemma_pow2_pos(g);
    lemma_fundamental_div_mod(m as int, d as int);
    let w = m as int / d as int;
    let r = m as int % d as int;
    assert(w < 0x100_0000) by (nonlinear_arith)
        requires
            m == d * w + r,
            r >= 0,
            m < 0x20_0000_0000_0000,
            d >= 0x2000_0000,
    ;
    let p = pow2(g);
    if g >= 1179 {
        lemma_pow2_grows(1179, g);
        lemma_pow2_adds(23, 1179);
        assert(w >= 0x80_0000);
        assert(q * p >= 0x80_0000 * pow2(1179)) by (nonlinear_arith)
            requires
                q >= 0x80_0000,
                p >= pow2(1179),
        ;
    } else if g == 1178 {
        lemma_pow2_adds(24, 1178);
        assert((q * p >= 0x100_0000 * p) == (q >= 0x100_0000)) by (nonlinear_arith)
            requires
                p > 0,
        ;
    } else {
        lemma_pow2_grows(g, 1177);
        lemma_pow2_adds(24, 1177);
        lemma_pow2_unfold(1202);
        lemma_pow2_pos(1201);
        assert(q * p <= 0x100_0000 * pow2(1177)) by (nonlinear_arith)
            requires
                q <= 0x100_0000,
                p <= pow2(1177),
        ;
    }
}

/// Bits whose significand is `n` times what it takes to reach one stand for
/// `n`.
proof fn lemma_stands_for(m: u64, n: nat)
    requires
        SPAN <= m < INFINITE,
        exponent(m) <= UNIT,
        significand(m) == n * pow2((UNIT - exponent(m)) as nat),
    ensures
        significand(m) * pow2(exponent(m)) == n * pow2(UNIT as nat),
        nearest(n * pow2(UNIT as nat), 1) == m,
{
    let e = exponent(m);
    let by = (UNIT - e) as nat;
    lemma_pow2_adds(by, e);
    let x = significand(m);
    let one = pow2(UNIT as nat);
    assert(x * pow2(e) == n * one) by (nonlinear_arith)
        requires
            x == n * pow2(by),
            one == pow2(by) * pow2(e),
    ;
    law_nearest_keeps(m);
}

/// The named bits stand for the numbers that their names say: two halves are
/// one, and each of the others is the whole number.
pub proof fn law_named_numbers()
    ensures
        (Double { bits: HALF }).times(2) == (Double { bits: ONE }),
        Double::whole(1) == (Double { bits: ONE }),
        Double::whole(2) == (Double { bits: TWO }),
        Double::whole(3) == (Double { bits: THREE }),
        Double::whole(4) == (Double { bits: FOUR }),
        Double::whole(30) == (Double { bits: THIRTY }),
        Double::whole(60) == (Double { bits: SIXTY }),
{
    lemma2_to64();
    lemma2_to64_rest();
    lemma_pow2_adds(53, 1021);
    let half = Double { bits: HALF };
    assert(significand(HALF) == SPAN);
    assert(exponent(HALF) == 1021);
    assert(half.units() == SPAN * pow2(1021));
    assert(2 * half.units() == pow2(1074));
    lemma_stands_for(ONE, 1);
    assert(1 * pow2(1074) == pow2(1074));
    lemma_stands_for(TWO, 2);
    lemma_stands_for(THREE, 3);
    lemma_stands_for(FOUR, 4);
    lemma_stands_for(THIRTY, 30);
    lemma_stands_for(SIXTY, 60);
}

/// Three times one is three.
pub proof fn law_three_times_one()
    ensures
        (Double { bits: ONE }).times(3) == (Double { bits: THREE }),
{
    lemma2_to64();
    lemma2_to64_rest();
    lemma_stands_for(ONE, 1);
    lemma_stands_for(THREE, 3);
    assert((Double { bits: ONE }).units() == pow2(1074));
}

/// Rounding goes to a whole number that is no more than a half away, and to an
/// even one where it is a half away.
pub proof fn law_rounding_is_near(n: nat, d: nat)
    requires
        d > 0,
    ensures
        ({
            let off = 2 * (n - d * half_even(n, d));
            &&& -d <= off <= d
            &&& off == d || off == -d ==> half_even(n, d) % 2 == 0
        }),
{
    let q = n / d;
    let r = n % d;
    lemma_fundamental_div_mod(n as int, d as int);
    assert(d * (q + 1) == d * q + d) by (nonlinear_arith);
}

/// A finite number is the one that is nearest to it.
proof fn lemma_keeps(c: Double)
    requires
        c.is_finite(),
    ensures
        nearest(c.units(), 1) == c.magnitude(),
        Double::of(c.negative(), c.magnitude()) == c,
{
    law_nearest_keeps(c.magnitude());
}

/// Where the sum of two numbers can be written, it is the sum; so are three
/// times a number and a quotient.
pub proof fn law_exact_results(a: Double, b: Double, c: Double, k: nat)
    requires
        a.is_finite(),
        b.is_finite(),
        c.is_finite(),
    ensures
        a.signed_units() + b.signed_units() == c.signed_units() && c.signed_units() != 0 ==> a.sum(b)
            == c,
        k * a.units() == c.units() && a.negative() == c.negative() ==> a.times(k) == c,
        !c.negative() && 0 < b.units() && c.units() * b.units() == a.units() * pow2(1074) ==> a.over(
            b,
        ) == c,
{
    lemma_keeps(c);
    if !c.negative() && 0 < b.units() && c.units() * b.units() == a.units() * pow2(1074) {
        lemma_nearest_scale(c.units(), 1, b.units());
        assert(1 * b.units() == b.units());
    }
}

/// What is infinite stays so in a sum with a finite number, and what is no
/// number makes the sum none; so do two infinities of which one is negative.
pub proof fn law_sums_beyond_numbers(a: Double, b: Double)
    ensures
        a.is_infinite() && b.is_finite() ==> a.sum(b) == a && b.sum(a) == a,
        a.is_nan() ==> a.sum(b).is_nan() && b.sum(a).is_nan() && a.times(3).is_nan(),
        a.is_infinite() && b.is_infinite() && a.negative() != b.negative() ==> a.sum(b).is_nan(),
        a.is_infinite() && b.is_infinite() && a.negative() == b.negative() ==> a.sum(b) == a,
        a.is_infinite() ==> a.times(3) == a,
{
}

/// A number is above zero where it is more than no units of the plus sign.
pub proof fn law_above_zero(a: Double)
    ensures
        a.is_finite() ==> (a.is_positive() <==> a.signed_units() > 0),
        a.is_infinite() ==> (a.is_positive() <==> !a.negative()),
        a.is_nan() ==> !a.is_positive(),
{
    let m = a.magnitude();
    let s = significand(m);
    let p = pow2(exponent(m));
    lemma_parts(m);
    lemma_pow2_pos(exponent(m));
    assert(s > 0 ==> s * p > 0) by (nonlinear_arith)
        requires
            p > 0,
    ;
    assert(s == 0 ==> s * p == 0) by (nonlinear_arith);
}

/// The whole part of a number that is not negative is not above it and less than
/// one below, and the least whole number that is not below it is less than one
/// above, as far as they fit; a negative number, and what is no number, give
/// zero.
pub proof fn law_whole_parts(a: Double)
    ensures
        a.is_nan() || a.negative() ==> a.truncated() == 0 && a.rounded_up() == 0,
        a.is_infinite() && !a.negative() ==> a.truncated() == u64::MAX && a.rounded_up()
            == u32::MAX,
        a.is_finite() && !a.negative() ==> {
            let one = pow2(1074) as int;
            let t = a.truncated();
            let u = a.rounded_up();
            &&& t * one <= a.units()
            &&& t < u64::MAX ==> a.units() < (t + 1) * one
            &&& u < u32::MAX ==> a.units() <= u * one
            &&& u > 0 ==> (u - 1) * one < a.units()
        },
{
    if a.is_finite() && !a.negative() {
        let one = pow2(1074) as int;
        lemma_pow2_pos(1074);
        let x = a.units() as int;
        let q = x / one;
        let r = x % one;
        lemma_fundamental_div_mod(x, one);
        let y = x + (one - 1);
        let v = y / one;
        let w = y % one;
        lemma_fundamental_div_mod(y, one);
        assert(q >= 0 && v >= 0) by {
            lemma_div_pos_is_pos(x, one);
            lemma_div_pos_is_pos(y, one);
        }
        let t = a.truncated() as int;
        let u = a.rounded_up() as int;
        assert(t <= q && t * one <= x) by (nonlinear_arith)
            requires
                t <= q,
                x == one * q + r,
                0 <= r,
                one > 0,
        ;
        if t == q {
            assert(x < (t + 1) * one) by (nonlinear_arith)
                requires
                    t == q,
                    x == one * q + r,
                    r < one,
            ;
        }
        if u == v {
            assert(x <= u * one) by (nonlinear_arith)
                requires
                    u == v,
                    x + (one - 1) == one * v + w,
                    w < one,
            ;
        }
        if u > 0 {
            assert((u - 1) * one < x) by (nonlinear_arith)
                requires
                    u <= v,
                    x + (one - 1) == one * v + w,
                    0 <= w,
                    one > 0,
            ;
        }
    }
}

/// The text is the number with so many decimals: behind a minus sign, where the
/// number has that, digits with a point before the last of them, which stand for
/// a number no more than half a unit of the last place away.
pub open spec fn says_decimals(text: Seq<char>, a: Double, width: nat) -> bool {
    let body = if a.negative() {
        text.skip(1)
    } else {
        text
    };
    let at = body.len() - width - 1;
    let digits = body.take(at) + body.skip(at + 1);
    let off = 2 * (a.units() * ten(width) - digits_value(digits) * pow2(1074));
    &&& a.negative() ==> text[0] == '-'
    &&& 0 < at
    &&& body[at] == '.'
    &&& all_digits(digits)
    &&& -pow2(1074) <= off <= pow2(1074)
    &&& off == pow2(1074) || off == -pow2(1074) ==> digits_value(digits) % 2 == 0
}

proof fn lemma_says_decimals(a: Double, width: nat)
    requires
        a.is_finite(),
    ensures
        says_decimals(a.printed(ten(width), width), a, width),
{
    let one = pow2(1074);
    lemma_pow2_pos(1074);
    let scale = ten(width);
    let k = a.scaled(scale);
    law_rounding_is_near(a.units() * scale, one);
    law_point_parts_the_digits(k, width);
    let body = dec_point(k, scale, width);
    let text = a.printed(scale, width);
    reveal_strlit("-");
    if a.negative() {
        assert(text.skip(1) =~= body);
    } else {
        assert(text =~= body);
    }
    assert(k * one == one * k) by (nonlinear_arith);
}

/// A finite number is printed with two, three or six decimals as the nearest
/// number that has no more; what is not finite is printed by name.
pub proof fn law_printed_numbers(a: Double)
    ensures
        a.is_finite() ==> {
            &&& says_decimals(a.two_decimals(), a, 2)
            &&& says_decimals(a.three_decimals(), a, 3)
            &&& says_decimals(a.six_decimals(), a, 6)
        },
        a.is_nan() ==> a.two_decimals() == "NaN"@ && a.three_decimals() == "NaN"@
            && a.six_decimals() == "NaN"@,
        a.is_infinite() && !a.negative() ==> a.two_decimals() == "inf"@ && a.three_decimals()
            == "inf"@ && a.six_decimals() == "inf"@,
        a.is_infinite() && a.negative() ==> a.two_decimals() == "-inf"@ && a.three_decimals()
            == "-inf"@ && a.six_decimals() == "-inf"@,
{
    reveal_with_fuel(ten, 7);
    assert(ten(2) == 100 && ten(3) == 1000 && ten(6) == 1_000_000);
    if a.is_finite() {
        lemma_says_decimals(a, 2);
        lemma_says_decimals(a, 3);
        lemma_says_decimals(a, 6);
    }
    reveal_strlit("-");
    reveal_strlit("inf");
    reveal_strlit("-inf");
    assert("-"@ + "inf"@ =~= "-inf"@);
    assert(Seq::<char>::empty() + "inf"@ =~= "inf"@);
}

/// The bits without a sign are in the order of the numbers that they stand for,
/// and the number of units stands for the bits: no two numbers are the same.
pub proof fn law_bits_follow_units(a: Double, b: Double)
    requires
        a.is_finite(),
        b.is_finite(),
    ensures
        a.magnitude() < b.magnitude() <==> a.units() < b.units(),
        a.magnitude() == b.magnitude() <==> a.units() == b.units(),
{
    lemma_units_order(a.magnitude(), b.magnitude());
}

/// How far two numbers are apart.
pub open spec fn apart(a: int, b: int) -> int {
    if a < b {
        b - a
    } else {
        a - b
    }
}

/// No multiple is nearer than one that is no more than a half away.
proof fn lemma_no_multiple_is_nearer(n: int, d: int, h: int, k: int)
    by (nonlinear_arith)
    requires
        d > 0,
        -d <= 2 * (n - d * h) <= d,
    ensures
        apart(n, d * h) <= apart(n, d * k),
{
    if k > h {
        assert(d * k >= d * h + d);
    } else if k < h {
        assert(d * k <= d * h - d);
    }
}

/// What a quotient is rounded to is a multiple of a power of two.
proof fn lemma_rounded_units(n: nat, d: nat)
    requires
        d > 0,
        nearest(n, d) < INFINITE,
    ensures
        ({
            let m = nearest(n, d);
            let s = shift_for(n, d);
            significand(m) * pow2(exponent(m)) == half_even(n, d * pow2(s)) * pow2(s)
        }),
{
    let s = shift_for(n, d);
    let g = pow2(s);
    let dg = d * g;
    let h = half_even(n, dg);
    let m = nearest(n, d);
    lemma2_to64();
    lemma2_to64_rest();
    lemma_pow2_pos(s);
    lemma_shift_bounds(n, d);
    lemma_pow2_adds(53, s);
    assert(dg > 0) by (nonlinear_arith)
        requires
            d > 0,
            g > 0,
            dg == d * g,
    ;
    let q = n / dg;
    lemma_fundamental_div_mod(n as int, dg as int);
    assert(d * (2 * SPAN * g) == (2 * SPAN) * dg) by (nonlinear_arith)
        requires
            dg == d * g,
    ;
    lemma_between(n as int, dg as int, q as int, (n % dg) as int, 0, 2 * SPAN);
    if s > 0 {
        lemma_pow2_adds(52, s);
        assert(d * (SPAN * g) == SPAN * dg) by (nonlinear_arith)
            requires
                dg == d * g,
        ;
        lemma_between(n as int, dg as int, q as int, (n % dg) as int, SPAN as int, 2 * SPAN);
    }
    assert(m == s * SPAN + h);
    if h < SPAN {
        assert(s == 0);
        assert(h * g == h) by (nonlinear_arith)
            requires
                g == 1,
        ;
    } else if h < 2 * SPAN {
        assert(m as int / SPAN as int == s + 1 && m as int % SPAN as int == h - SPAN) by {
            lemma_fundamental_div_mod_converse_div(m as int, SPAN as int, s + 1int, h - SPAN);
            lemma_fundamental_div_mod_converse_mod(m as int, SPAN as int, s + 1int, h - SPAN);
        }
    } else {
        assert(h == 2 * SPAN);
        assert(m as int / SPAN as int == s + 2 && m as int % SPAN as int == 0) by {
            lemma_fundamental_div_mod_converse_div(m as int, SPAN as int, s + 2int, 0);
            lemma_fundamental_div_mod_converse_mod(m as int, SPAN as int, s + 2int, 0);
        }
        lemma_pow2_unfold(s + 1);
        assert(SPAN * (2 * g) == (2 * SPAN) * g) by (nonlinear_arith);
    }
}

/// The number that a quotient is rounded to is the nearest: no other finite
/// number is nearer to it.
pub proof fn law_nothing_is_nearer(n: nat, d: nat, other: Double)
    requires
        d > 0,
        nearest(n, d) < INFINITE,
        other.is_finite(),
    ensures
        apart(n as int, (d * Double::of(false, nearest(n, d)).units()) as int) <= apart(
            n as int,
            (d * other.units()) as int,
        ),
{
    let m = nearest(n, d);
    let s = shift_for(n, d);
    let g = pow2(s);
    let dg = d * g;
    let h = half_even(n, dg);
    lemma_rounded_units(n, d);
    lemma_pow2_pos(s);
    assert(dg > 0) by (nonlinear_arith)
        requires
            d > 0,
            g > 0,
            dg == d * g,
    ;
    law_rounding_is_near(n, dg);
    assert(d * (h * g) == dg * h) by (nonlinear_arith)
        requires
            dg == d * g,
    ;
    let x = significand(other.magnitude());
    let e = exponent(other.magnitude());
    lemma_parts(other.magnitude());
    if e >= s {
        let by = (e - s) as nat;
        let k = x * pow2(by);
        lemma_pow2_adds(by, s);
        assert(d * (x * (pow2(by) * g)) == dg * k) by (nonlinear_arith)
            requires
                dg == d * g,
                k == x * pow2(by),
        ;
        lemma_no_multiple_is_nearer(n as int, dg as int, h as int, k as int);
    } else {
        let p = pow2(e);
        lemma2_to64();
        lemma2_to64_rest();
        lemma_shift_bounds(n, d);
        lemma_pow2_adds(52, s);
        lemma_pow2_grows(e, (s - 1) as nat);
        lemma_pow2_unfold(s);
        assert(d * (SPAN * g) == dg * SPAN) by (nonlinear_arith)
            requires
                dg == d * g,
        ;
        assert(d * (x * p) <= d * (SPAN * g)) by (nonlinear_arith)
            requires
                x <= 2 * SPAN,
                2 * p <= g,
                d > 0,
                x >= 0,
                p >= 0,
        ;
        lemma_no_multiple_is_nearer(n as int, dg as int, h as int, SPAN as int);
    }
}

/// A number of few digits can be written.
proof fn lemma_few_digits(h: nat, k: nat)
    requires
        h <= 0x100_0000,
        k >= 925,
        nearest(h * pow2(k), 1) < INFINITE,
    ensures
        Double::of(false, nearest(h * pow2(k), 1)).units() == h * pow2(k),
{
    let n = h * pow2(k);
    let t = shift_for(n, 1);
    lemma2_to64();
    lemma2_to64_rest();
    lemma_shift_bounds(n, 1);
    lemma_rounded_units(n, 1);
    lemma_pow2_pos(t);
    if t > k {
        lemma_pow2_adds(24, k);
        lemma_pow2_grows(24 + k, 52 + t);
        lemma_pow2_pos(k);
        assert(n <= pow2(24) * pow2(k)) by (nonlinear_arith)
            requires
                n == h * pow2(k),
                h <= pow2(24),
        ;
        lemma_pow2_strictly_increases(24 + k, 52 + t);
        assert(false);
    }
    let by = (k - t) as nat;
    let j = h * pow2(by);
    lemma_pow2_adds(by, t);
    assert(n == j * pow2(t)) by (nonlinear_arith)
        requires
            n == h * (pow2(by) * pow2(t)),
            j == h * pow2(by),
    ;
    assert(1 * pow2(t) == pow2(t));
    lemma_quotient(n, pow2(t), j, 0);
}

/// The number of single precision that a number becomes is the nearest: no
/// number with a significand below 2^24, in units of 2^-149 or of any greater
/// power of two, is nearer.
pub proof fn law_single_is_nearest(a: Double, x: nat, j: nat)
    requires
        a.is_finite(),
        a.single().is_finite(),
        x < 0x100_0000,
    ensures
        a.single().negative() == a.negative(),
        apart(a.units() as int, a.single().units() as int) <= apart(
            a.units() as int,
            (x * pow2(925 + j)) as int,
        ),
{
    let u = a.units();
    let unit = pow2(925);
    let s = shift_for(u * 0x2000_0000, unit);
    let grid = unit * pow2(s);
    let h = half_even(u, grid);
    let near = h * grid;
    lemma2_to64();
    lemma2_to64_rest();
    lemma_pow2_pos(925);
    lemma_pow2_pos(s);
    lemma_pow2_adds(925, s);
    lemma_pow2_pos(925 + s);
    lemma_shift_bounds(u * 0x2000_0000, unit);
    lemma_pow2_adds(53, s);
    lemma_pow2_adds(52, s);
    assert(u < 0x100_0000 * grid) by (nonlinear_arith)
        requires
            u * 0x2000_0000 < unit * (pow2(53) * pow2(s)),
            pow2(53) == 0x20_0000_0000_0000,
            grid == unit * pow2(s),
    ;
    let q = u / grid;
    lemma_fundamental_div_mod(u as int, grid as int);
    lemma_between(u as int, grid as int, q as int, (u % grid) as int, 0, 0x100_0000);
    law_rounding_is_near(u, grid);
    assert(h <= 0x100_0000);
    assert(a.single() == Double::of(a.negative(), nearest(near, 1)) || a.single() == Double::of(
        a.negative(),
        INFINITE,
    ));
    assert(a.single() == Double::of(a.negative(), nearest(near, 1)));
    assert(nearest(near, 1) <= INFINITE);
    assert(a.single().magnitude() == nearest(near, 1));
    lemma_few_digits(h, 925 + s);
    assert(a.single().units() == near);
    assert(h * grid == grid * h) by (nonlinear_arith);
    if j >= s {
        let by = (j - s) as nat;
        let k = x * pow2(by);
        lemma_pow2_adds(by, 925 + s);
        assert(x * (pow2(by) * grid) == grid * k) by (nonlinear_arith)
            requires
                k == x * pow2(by),
        ;
        lemma_no_multiple_is_nearer(u as int, grid as int, h as int, k as int);
    } else {
        let p = pow2(925 + j);
        lemma_pow2_grows(925 + j, (925 + s - 1) as nat);
        lemma_pow2_unfold(925 + s);
        assert(u >= 0x80_0000 * grid) by (nonlinear_arith)
            requires
                u * 0x2000_0000 >= unit * (pow2(52) * pow2(s)),
                pow2(52) == 0x10_0000_0000_0000,
                grid == unit * pow2(s),
        ;
        assert(x * p <= 0x80_0000 * grid) by (nonlinear_arith)
            requires
                x <= 0x100_0000,
                2 * p <= grid,
                p >= 0,
        ;
        lemma_no_multiple_is_nearer(u as int, grid as int, h as int, 0x80_0000);
    }
}

/// A sum of nothing is zero, with the minus sign where both numbers have it.
pub proof fn law_sums_of_nothing(a: Double, b: Double)
    requires
        a.is_finite(),
        b.is_finite(),
        a.signed_units() + b.signed_units() == 0,
    ensures
        a.sum(b).magnitude() == 0,
        a.sum(b).negative() <==> a.negative() && b.negative(),
{
}

} // verus!
