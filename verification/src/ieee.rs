//! IEEE 754 double-precision bit patterns: of quotients of integers, and the
//! numbers that they stand for.

use vstd::prelude::*;
use vstd::arithmetic::power2::{lemma2_to64, lemma2_to64_rest, lemma_pow2_adds, lemma_pow2_pos};
use vstd::arithmetic::power2::{lemma_pow2_strictly_increases, lemma_pow2_unfold, pow2};
use crate::text::{dec, dec_padded, owned, push_dec, push_dec_doubled, push_dec_padded};

verus! {

/// 2^52, the weight of the implicit leading bit of a mantissa.
pub const MANTISSA_TOP: u128 = 0x10_0000_0000_0000;

/// Doubles `num` until `num / den` has a 53-bit integer part; also counts the
/// doublings.
pub open spec fn normalised(num: nat, den: nat, doublings: nat) -> (nat, nat)
    decreases 2 * (MANTISSA_TOP * den) - num,
{
    if num == 0 || den == 0 || num >= MANTISSA_TOP * den {
        (num, doublings)
    } else {
        normalised(2 * num, den, doublings + 1)
    }
}

/// `num / den`, rounded to the nearest integer, ties to even.
pub open spec fn rounded(num: nat, den: nat) -> nat {
    let q = num / den;
    let r = num % den;
    if 2 * r > den || (2 * r == den && q % 2 == 1) {
        q + 1
    } else {
        q
    }
}

/// The double nearest to `num / den`, as an integer of 53 bits over a power
/// of two.
pub open spec fn nearest(num: nat, den: nat) -> (nat, nat) {
    if num == 0 {
        (0, 0)
    } else {
        let (n, doublings) = normalised(num, den, 0);
        (rounded(n, den), doublings)
    }
}

/// The bit pattern of the double nearest to `num / den`.
pub open spec fn ratio_bits(num: nat, den: nat) -> int {
    let (m, k) = nearest(num, den);
    if num == 0 {
        0
    } else {
        (1075 - k) * MANTISSA_TOP + m - MANTISSA_TOP
    }
}

/// A double that is not negative: `mantissa` over 2 to the `halvings`.
#[derive(Clone, Copy, Debug, PartialEq, Eq, Structural)]
pub struct Double {
    mantissa: u64,
    halvings: u64,
}

impl View for Double {
    type V = (nat, nat);

    closed spec fn view(&self) -> (nat, nat) {
        (self.mantissa as nat, self.halvings as nat)
    }
}

impl Double {
    /// The mantissa is zero or has 53 bits; one more where it was rounded up.
    pub closed spec fn wf(&self) -> bool {
        &&& self.halvings <= 84
        &&& self.mantissa <= 0x20_0000_0000_0000
        &&& self.mantissa == 0 ==> self.halvings == 0
        &&& self.mantissa != 0 ==> self.mantissa >= MANTISSA_TOP
    }

    /// The double nearest to `num / den`.
    pub fn nearest(num: u64, den: u32) -> (d: Double)
        requires
            den > 0,
            num < 0x20_0000_0000_0000 * den,
        ensures
            d.wf(),
            d@ == nearest(num as nat, den as nat),
    {
        proof {
            lemma2_to64();
        }
        if num == 0 {
            return Double { mantissa: 0, halvings: 0 };
        }
        let d: u128 = den as u128;
        let mut n: u128 = num as u128;
        let mut k: u64 = 0;
        assert(MANTISSA_TOP * d <= 0x10_0000_0000_0000 * 0xffff_ffff);
        while n < MANTISSA_TOP * d
            invariant
                d == den,
                0 < d <= 0xffff_ffff,
                0 < num,
                0 < n < 2 * (MANTISSA_TOP * d),
                MANTISSA_TOP * d <= 0x10_0000_0000_0000 * 0xffff_ffff,
                k <= 84,
                n >= pow2(k as nat),
                normalised(num as nat, den as nat, 0) == normalised(
                    n as nat,
                    den as nat,
                    k as nat,
                ),
            decreases 2 * (MANTISSA_TOP * d) - n,
        {
            proof {
                lemma_doublings(k as nat, n as nat);
            }
            n = 2 * n;
            k = k + 1;
        }
        let q: u128 = n / d;
        let r: u128 = n % d;
        proof {
            assert(q < 0x20_0000_0000_0000) by (nonlinear_arith)
                requires
                    q == n / d,
                    n < 2 * (0x10_0000_0000_0000u128 * d),
                    d > 0,
            ;
            assert(q >= 0x10_0000_0000_0000) by (nonlinear_arith)
                requires
                    q == n / d,
                    n >= 0x10_0000_0000_0000u128 * d,
                    d > 0,
            ;
        }
        let m: u128 = if 2 * r > d || (2 * r == d && q % 2 == 1) { q + 1 } else { q };
        Double { mantissa: m as u64, halvings: k }
    }

    /// The bit pattern.
    pub fn bits(&self) -> (b: u64)
        requires
            self.wf(),
        ensures
            b == (if self@.0 == 0 {
                0
            } else {
                (1075 - self@.1) * MANTISSA_TOP + self@.0 - MANTISSA_TOP
            }),
    {
        if self.mantissa == 0 {
            return 0;
        }
        ((1075 - self.halvings) * 0x10_0000_0000_0000) + (self.mantissa - 0x10_0000_0000_0000)
    }
}

/// The bit pattern of the double nearest to `num / den`.
pub fn f64_bits_of_ratio(num: u32, den: u32) -> (bits: u64)
    requires
        den > 0,
    ensures
        bits == ratio_bits(num as nat, den as nat),
{
    let d = Double::nearest(num as u64, den);
    proof {
        lemma_nearest_zero(num as nat, den as nat);
    }
    d.bits()
}

/// Only zero is rounded to zero.
pub proof fn lemma_nearest_zero(num: nat, den: nat)
    requires
        0 < den,
    ensures
        nearest(num, den).0 == 0 <==> num == 0,
{
    if num > 0 {
        lemma_normalised(num, den, 0);
        let n = normalised(num, den, 0).0;
        assert(n / den >= 1) by (nonlinear_arith)
            requires
                n >= 0x10_0000_0000_0000 * den,
                den > 0,
        ;
    }
}

proof fn lemma_normalised(num: nat, den: nat, k: nat)
    requires
        num > 0,
        den > 0,
    ensures
        normalised(num, den, k).0 >= MANTISSA_TOP * den,
        num < 2 * (MANTISSA_TOP * den) ==> normalised(num, den, k).0 < 2 * (MANTISSA_TOP * den),
        normalised(num, den, k).1 >= k,
        normalised(num, den, k).0 == num * pow2((normalised(num, den, k).1 - k) as nat),
    decreases 2 * (MANTISSA_TOP * den) - num,
{
    lemma2_to64();
    if num < MANTISSA_TOP * den {
        lemma_normalised(2 * num, den, k + 1);
        let j = (normalised(num, den, k).1 - k) as nat;
        lemma_pow2_unfold(j);
        let p = pow2((j - 1) as nat);
        assert(2 * num * p == num * (2 * p)) by (nonlinear_arith);
    } else {
        assert(num * 1 == num);
    }
}

/// A number below 2^84 was doubled fewer than 84 times from 1.
proof fn lemma_doublings(k: nat, n: nat)
    requires
        pow2(k) <= n < 0x10_0000_0000_0000 * 0xffff_ffff,
    ensures
        k < 84,
        pow2(k + 1) == 2 * pow2(k),
        2 * pow2(k) <= 0x10_0000_0000_0000 * 0x1_0000_0000,
{
    lemma2_to64();
    lemma2_to64_rest();
    lemma_pow2_adds(32, 52);
    lemma_pow2_adds(k, 1);
    assert(pow2(52) == 0x10_0000_0000_0000);
    assert(pow2(84) == 0x1_0000_0000 * 0x10_0000_0000_0000);
    if k > 84 {
        lemma_pow2_strictly_increases(84, k);
    }
    if k + 1 < 84 {
        lemma_pow2_strictly_increases(k + 1, 84);
    }
}

// ---------------------------------------------------------------------------
// The number of a bit pattern
// ---------------------------------------------------------------------------

/// The exponent field of a bit pattern.
pub open spec fn exponent_field(bits: u64) -> nat {
    (bits as nat / MANTISSA_TOP as nat) % 2048
}

/// The fraction field of a bit pattern.
pub open spec fn fraction_field(bits: u64) -> nat {
    bits as nat % MANTISSA_TOP as nat
}

/// The sign bit is set.
pub open spec fn has_sign(bits: u64) -> bool {
    bits >= 0x8000_0000_0000_0000
}

/// The pattern stands for no finite number.
pub open spec fn not_finite(bits: u64) -> bool {
    exponent_field(bits) == 2047
}

/// The pattern stands for no number at all.
pub open spec fn not_a_number(bits: u64) -> bool {
    not_finite(bits) && fraction_field(bits) != 0
}

/// The mantissa, with its leading bit, and how often it is doubled from
/// 2^-1074 on. The smallest numbers have no leading bit.
pub open spec fn scaled(bits: u64) -> (nat, nat) {
    if exponent_field(bits) == 0 {
        (fraction_field(bits), 0)
    } else {
        (fraction_field(bits) + MANTISSA_TOP as nat, (exponent_field(bits) - 1) as nat)
    }
}

/// The size of a finite number, as a quotient of integers.
pub open spec fn magnitude(bits: u64) -> (nat, nat) {
    let (m, e) = scaled(bits);
    if e >= 1074 {
        (m * pow2((e - 1074) as nat), 1)
    } else {
        (m, pow2((1074 - e) as nat))
    }
}

/// The least integer that is not smaller than `num / den`.
pub open spec fn ceiling(num: nat, den: nat) -> nat {
    ((num + den - 1) / den as int) as nat
}

/// The least 64-bit integer that is not smaller than the number: zero for one
/// that is negative or none at all, and the largest there is for one that is
/// larger.
pub open spec fn whole_above(bits: u64) -> u64 {
    if not_a_number(bits) || has_sign(bits) {
        0
    } else {
        let (num, den) = magnitude(bits);
        if not_finite(bits) || ceiling(num, den) > u64::MAX {
            u64::MAX
        } else {
            ceiling(num, den) as u64
        }
    }
}

/// A number of thousandths as text with three decimals.
pub open spec fn decimal_text(thousandths: nat) -> Seq<char> {
    dec(thousandths / 1000) + "."@ + dec_padded(thousandths % 1000, 3)
}

/// The number with three decimals: the nearest number of thousandths, ties to
/// even, behind a minus sign where the sign bit is set.
pub open spec fn fixed_text(bits: u64) -> Seq<char> {
    if not_a_number(bits) {
        "NaN"@
    } else {
        (if has_sign(bits) {
            "-"@
        } else {
            ""@
        }) + (if not_finite(bits) {
            "inf"@
        } else {
            decimal_text(rounded(magnitude(bits).0 * 1000, magnitude(bits).1))
        })
    }
}

/// The fields of a bit pattern: the sign, the exponent and the fraction.
fn fields(bits: u64) -> (r: (bool, u64, u64))
    ensures
        r.0 == has_sign(bits),
        r.1 == exponent_field(bits),
        r.2 == fraction_field(bits),
{
    let top: u64 = 0x10_0000_0000_0000;
    (bits >= 0x8000_0000_0000_0000, (bits / top) % 2048, bits % top)
}

/// The mantissa of a bit pattern with these fields, and how often it is
/// doubled.
fn unpacked(exponent: u64, fraction: u64) -> (r: (u64, u64))
    requires
        exponent < 2048,
        fraction < MANTISSA_TOP,
    ensures
        forall|bits: u64|
            exponent_field(bits) == exponent && fraction_field(bits) == fraction ==> #[trigger] scaled(
                bits,
            ) == (r.0 as nat, r.1 as nat),
        r.0 < 0x20_0000_0000_0000,
        r.1 < 2047,
        r.1 > 0 ==> r.0 >= MANTISSA_TOP,
{
    if exponent == 0 {
        (fraction, 0)
    } else {
        (fraction + 0x10_0000_0000_0000, exponent - 1)
    }
}

/// 2 to the `k`.
fn power(k: u64) -> (p: u128)
    requires
        k <= 64,
    ensures
        p == pow2(k as nat),
        0 < p <= 0x1_0000_0000_0000_0000,
{
    proof {
        lemma2_to64();
    }
    let mut p: u128 = 1;
    let mut i: u64 = 0;
    while i < k
        invariant
            i <= k <= 64,
            p == pow2(i as nat),
            0 < p,
            p <= 0x1_0000_0000_0000_0000,
        decreases k - i,
    {
        proof {
            lemma_pow2_unfold((i + 1) as nat);
            lemma_pow2_at_most(i as nat, 63);
        }
        p = 2 * p;
        i = i + 1;
    }
    p
}

proof fn lemma_pow2_at_most(k: nat, top: nat)
    requires
        k <= top,
    ensures
        pow2(k) <= pow2(top),
        top == 63 ==> pow2(top) == 0x8000_0000_0000_0000,
        top == 64 ==> pow2(top) == 0x1_0000_0000_0000_0000,
{
    lemma2_to64();
    lemma2_to64_rest();
    if k < top {
        lemma_pow2_strictly_increases(k, top);
    }
}

/// The least 64-bit integer that is not smaller than the number.
pub fn ceil_of_bits(bits: u64) -> (n: u64)
    ensures
        n == whole_above(bits),
{
    let (sign, exponent, fraction) = fields(bits);
    if sign || (exponent == 2047 && fraction != 0) {
        return 0;
    }
    if exponent == 2047 {
        return u64::MAX;
    }
    let (m, e) = unpacked(exponent, fraction);
    assert(scaled(bits) == (m as nat, e as nat));
    if e >= 1074 {
        let k: u64 = e - 1074;
        let ghost whole = m * pow2(k as nat);
        assert(ceiling(whole as nat, 1) == whole);
        if k >= 12 {
            proof {
                lemma2_to64();
                lemma_pow2_at_most(12, k as nat);
                assert(whole >= 0x10_0000_0000_0000 * 4096) by (nonlinear_arith)
                    requires
                        whole == m * pow2(k as nat),
                        m >= 0x10_0000_0000_0000,
                        pow2(k as nat) >= 4096,
                ;
            }
            return u64::MAX;
        }
        let p: u128 = power(k);
        proof {
            lemma2_to64();
            lemma_pow2_at_most(k as nat, 11);
            assert(m * p <= 0x1f_ffff_ffff_ffff * 2048) by (nonlinear_arith)
                requires
                    m <= 0x1f_ffff_ffff_ffff,
                    0 <= p <= 2048,
            ;
        }
        (m as u128 * p) as u64
    } else {
        let k: u64 = 1074 - e;
        proof {
            lemma_pow2_pos(k as nat);
        }
        if k > 64 {
            proof {
                lemma_small_quotients(m as nat, k as nat);
            }
            if m == 0 {
                0
            } else {
                1
            }
        } else {
            let s: u128 = power(k);
            let sum: u128 = m as u128 + (s - 1);
            let r: u128 = sum / s;
            proof {
                assert(r <= m) by (nonlinear_arith)
                    requires
                        r == sum / s,
                        sum == m + s - 1,
                        s > 0,
                ;
            }
            r as u64
        }
    }
}

/// A mantissa over 2^65 or more is below a two-thousandth.
proof fn lemma_small_quotients(m: nat, k: nat)
    requires
        m < 0x20_0000_0000_0000,
        k > 64,
    ensures
        ceiling(m, pow2(k)) == if m == 0 {
            0nat
        } else {
            1
        },
        rounded(m * 1000, pow2(k)) == 0,
{
    let d = pow2(k);
    lemma_pow2_at_most(64, k);
    lemma_pow2_at_most(64, 64);
    assert(d >= 0x1_0000_0000_0000_0000);
    if m == 0 {
        vstd::arithmetic::div_mod::lemma_basic_div(d - 1, d as int);
    } else {
        vstd::arithmetic::div_mod::lemma_fundamental_div_mod_converse(
            m + d - 1,
            d as int,
            1,
            m - 1,
        );
    }
    vstd::arithmetic::div_mod::lemma_basic_div((m * 1000) as int, d as int);
    vstd::arithmetic::div_mod::lemma_small_mod((m * 1000) as nat, d);
}

/// The number with three decimals.
pub fn text_of_bits(bits: u64) -> (s: String)
    ensures
        s@ == fixed_text(bits),
{
    let (sign, exponent, fraction) = fields(bits);
    if exponent == 2047 && fraction != 0 {
        return owned("NaN");
    }
    let mut s = owned(if sign { "-" } else { "" });
    if exponent == 2047 {
        s.append("inf");
        return s;
    }
    let ghost front = s@;
    let (m, e) = unpacked(exponent, fraction);
    assert(scaled(bits) == (m as nat, e as nat));
    if e >= 1074 {
        let k: u64 = e - 1074;
        let ghost whole = (m * pow2(k as nat)) as nat;
        proof {
            assert(m * pow2(k as nat) >= 0) by (nonlinear_arith);
            assert((whole * 1000) / 1 == whole * 1000);
            assert(rounded(whole * 1000, 1) == whole * 1000);
            assert((whole * 1000) / 1000 == whole);
            assert((whole * 1000) % 1000 == 0);
        }
        push_dec_doubled(&mut s, m, k);
        s.append(".");
        push_dec_padded(&mut s, 0, 3);
        assert(s@ =~= front + decimal_text((whole * 1000) as nat));
    } else {
        let k: u64 = 1074 - e;
        let n: u64 = if k > 64 {
            proof {
                lemma_small_quotients(m as nat, k as nat);
            }
            0
        } else {
            let d: u128 = power(k);
            let p: u128 = m as u128 * 1000;
            let q: u128 = p / d;
            let r: u128 = p % d;
            proof {
                assert(q <= p) by (nonlinear_arith)
                    requires
                        q == p / d,
                        d > 0,
                ;
            }
            if 2 * r > d || (2 * r == d && q % 2 == 1) {
                (q + 1) as u64
            } else {
                q as u64
            }
        };
        assert(n == rounded((m * 1000) as nat, pow2(k as nat)));
        push_dec(&mut s, n / 1000);
        s.append(".");
        push_dec_padded(&mut s, n % 1000, 3);
        assert(s@ =~= front + decimal_text(n as nat));
    }
    s
}

/// The double nearest to a quotient, by its bit pattern, is the mantissa over
/// the power of two. Left out are quotients of 2^50 and more.
pub proof fn lemma_nearest_reads_back(num: nat, den: nat)
    requires
        0 < den <= 0xffff_ffff,
        4 * num < MANTISSA_TOP * den,
    ensures
        ({
            let (m, k) = nearest(num, den);
            let bits = ratio_bits(num, den) as u64;
            &&& bits == ratio_bits(num, den)
            &&& whole_above(bits) == ceiling(m, pow2(k))
            &&& fixed_text(bits) == decimal_text(rounded(m * 1000, pow2(k)))
        }),
{
    let (m, k) = nearest(num, den);
    let bits = ratio_bits(num, den) as u64;
    reveal_strlit("");
    lemma2_to64();
    if num == 0 {
        lemma_pow2_pos(1074);
        let d = pow2(1074);
        assert(magnitude(bits) == (0nat, d));
        vstd::arithmetic::div_mod::lemma_basic_div(d - 1, d as int);
        vstd::arithmetic::div_mod::lemma_small_mod(0, d);
        vstd::arithmetic::div_mod::lemma_basic_div(0, d as int);
        assert(rounded(0, d) == 0);
        assert(rounded(0, 1) == 0);
        assert(0nat * 1000 == 0);
        assert(ceiling(0, 1) == 0);
    } else {
        lemma_nearest_bounds(num, den);
        let top = MANTISSA_TOP as nat;
        let b = ratio_bits(num, den);
        lemma_pow2_pos(k);
        if m < 2 * top {
            let f = (1075 - k) as nat;
            let rest = (m - top) as nat;
            assert(b == f * top + rest);
            vstd::arithmetic::div_mod::lemma_fundamental_div_mod_converse(
                b,
                top as int,
                f as int,
                rest as int,
            );
            assert(magnitude(bits) == (m, pow2(k)));
            lemma_ceiling_at_most(m, pow2(k));
            assert(fixed_text(bits) =~= decimal_text(rounded(m * 1000, pow2(k))));
        } else {
            let f = (1076 - k) as nat;
            assert(b == f * top + 0);
            vstd::arithmetic::div_mod::lemma_fundamental_div_mod_converse(
                b,
                top as int,
                f as int,
                0,
            );
            lemma_pow2_unfold(k);
            let d = pow2((k - 1) as nat);
            lemma_pow2_pos((k - 1) as nat);
            assert(magnitude(bits) == (top, d));
            lemma_halved(top, d);
            lemma_halved(top * 1000, d);
            lemma_ceiling_at_most(top, d);
            assert(fixed_text(bits) =~= decimal_text(rounded(top * 1000, d)));
            assert(m * 1000 == 2 * (top * 1000));
        }
    }
}

/// A whole number is its own double, ceiling and number of thousandths.
pub proof fn lemma_whole_quotient(n: nat, den: nat)
    requires
        0 < den,
    ensures
        ({
            let (m, k) = nearest(n * den, den);
            &&& ceiling(m, pow2(k)) == n
            &&& rounded(m * 1000, pow2(k)) == n * 1000
        }),
{
    let (m, k) = nearest(n * den, den);
    lemma2_to64();
    lemma_pow2_pos(k);
    let p = pow2(k);
    assert(m == n * p) by {
        if n * den == 0 {
            assert(n == 0) by (nonlinear_arith)
                requires
                    n * den == 0,
                    den > 0,
            ;
        } else {
            lemma_normalised(n * den, den, 0);
            assert(n * den * p == (n * p) * den) by (nonlinear_arith);
            vstd::arithmetic::div_mod::lemma_fundamental_div_mod_converse(
                (n * den * p) as int,
                den as int,
                (n * p) as int,
                0,
            );
        }
    }
    vstd::arithmetic::div_mod::lemma_fundamental_div_mod_converse(
        m + p - 1,
        p as int,
        n as int,
        p - 1,
    );
    assert(m * 1000 == (n * 1000) * p) by (nonlinear_arith)
        requires
            m == n * p,
    ;
    vstd::arithmetic::div_mod::lemma_fundamental_div_mod_converse(
        (m * 1000) as int,
        p as int,
        (n * 1000) as int,
        0,
    );
}

proof fn lemma_ceiling_at_most(m: nat, d: nat)
    requires
        d > 0,
    ensures
        ceiling(m, d) <= m,
{
    assert((m + d - 1) / d as int <= m) by (nonlinear_arith)
        requires
            d > 0,
            m >= 0,
    ;
    assert((m + d - 1) / d as int >= 0) by (nonlinear_arith)
        requires
            d > 0,
            m >= 0,
    ;
}

/// A quotient stays the same when both of its sides are doubled.
proof fn lemma_halved(a: nat, d: nat)
    requires
        d > 0,
    ensures
        ceiling(2 * a, 2 * d) == ceiling(a, d),
        rounded(2 * a, 2 * d) == rounded(a, d),
{
    let q = a / d;
    let r = a % d;
    vstd::arithmetic::div_mod::lemma_fundamental_div_mod(a as int, d as int);
    assert(2 * a == q * (2 * d) + 2 * r) by (nonlinear_arith)
        requires
            a == d * q + r,
    ;
    vstd::arithmetic::div_mod::lemma_fundamental_div_mod_converse(
        2 * a as int,
        2 * d as int,
        q as int,
        2 * r as int,
    );
    let x = a + d - 1;
    let u = x / d as int;
    let v = x % d as int;
    vstd::arithmetic::div_mod::lemma_fundamental_div_mod(x, d as int);
    assert(2 * a + 2 * d - 1 == u * (2 * d) + (2 * v + 1)) by (nonlinear_arith)
        requires
            a + d - 1 == d * u + v,
    ;
    vstd::arithmetic::div_mod::lemma_fundamental_div_mod_converse(
        2 * a + 2 * d - 1,
        2 * d as int,
        u,
        2 * v + 1,
    );
}

proof fn lemma_nearest_bounds(num: nat, den: nat)
    requires
        0 < num,
        0 < den <= 0xffff_ffff,
        4 * num < MANTISSA_TOP * den,
    ensures
        MANTISSA_TOP <= nearest(num, den).0 <= 2 * MANTISSA_TOP,
        2 <= nearest(num, den).1 <= 85,
{
    lemma2_to64();
    lemma2_to64_rest();
    lemma_normalised(num, den, 0);
    let (n, k) = normalised(num, den, 0);
    let q = n / den;
    assert(0x10_0000_0000_0000 <= q < 0x20_0000_0000_0000) by (nonlinear_arith)
        requires
            q == n / den,
            0x10_0000_0000_0000 * den <= n < 2 * (0x10_0000_0000_0000 * den),
            den > 0,
    ;
    if k < 2 {
        assert(pow2(k) <= 2);
        assert(num * pow2(k) <= 2 * num) by (nonlinear_arith)
            requires
                pow2(k) <= 2,
        ;
    }
    if k > 85 {
        lemma_pow2_strictly_increases(85, k);
        lemma_pow2_adds(32, 53);
        assert(num * pow2(k) >= pow2(k)) by (nonlinear_arith)
            requires
                num >= 1,
                pow2(k) >= 0,
        ;
    }
}

/// The bit pattern of a small quotient is a number of 64 bits.
pub proof fn lemma_ratio_fits(num: nat, den: nat)
    requires
        num <= u32::MAX,
        0 < den <= 0xffff_ffff,
    ensures
        0 <= ratio_bits(num, den) <= u64::MAX,
{
    if num > 0 {
        lemma_nearest_bounds(num, den);
    }
}

} // verus!
