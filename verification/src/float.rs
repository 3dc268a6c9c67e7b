//! Binary floating point carried out on integers.
//!
//! Sizes, positions and percentages of this library come from single- and
//! double-precision arithmetic with rounding to nearest, ties to even. Here
//! that arithmetic is done on whole numbers, so that every integer derived
//! from it can be stated exactly. Only non-negative values occur, and the
//! exponent is unbounded: the callers keep far inside the normal range, or
//! truncate to an integer range in which the difference cannot be seen.
use vstd::arithmetic::power2::*;
use vstd::prelude::*;

verus! {

/// Significant bits of a single-precision number.
pub const SINGLE: u32 = 24;

/// Significant bits of a double-precision number.
pub const DOUBLE: u32 = 53;

/// Largest numerator that [`round_ratio`] takes.
pub const MAX_NUM: u128 = 0x800_0000_0000_0000_0000_0000_0000;

/// Largest denominator that [`round_ratio`] takes.
pub const MAX_DEN: u128 = 0x1_0000_0000_0000_0000;

/// The number `mant * 2^exp`.
pub struct Dyadic {
    pub mant: nat,
    pub exp: int,
}

/// An executable [`Dyadic`].
#[derive(Clone, Copy)]
pub struct Float {
    pub mant: u64,
    pub exp: i32,
}

impl View for Float {
    type V = Dyadic;

    open spec fn view(&self) -> Dyadic {
        Dyadic { mant: self.mant as nat, exp: self.exp as int }
    }
}

/// `2^e` where `e` is not negative, else 1.
pub open spec fn up(e: int) -> nat {
    if e >= 0 {
        pow2(e as nat)
    } else {
        1
    }
}

/// `2^-e` where `e` is negative, else 1; so `2^e` is `up(e) / down(e)`.
pub open spec fn down(e: int) -> nat {
    if e >= 0 {
        1
    } else {
        pow2((-e) as nat)
    }
}

/// `num / den` rounded to the nearest integer, a tie to the even one.
pub open spec fn half_even(num: nat, den: nat) -> nat {
    let q = num / den;
    let r = num % den;
    if 2 * r > den || (2 * r == den && q % 2 == 1) {
        q + 1
    } else {
        q
    }
}

/// `num / den` lies in `[2^(p-1), 2^p) * 2^e`: a float of `p` significant bits
/// next to it counts in units of `2^e`.
pub open spec fn in_binade(p: nat, num: nat, den: nat, e: int) -> bool {
    &&& pow2((p - 1) as nat) * (den * up(e)) <= num * down(e)
    &&& num * down(e) < pow2(p) * (den * up(e))
}

/// The exponent of the binade of `num / den`; there is only one.
pub open spec fn binade(p: nat, num: nat, den: nat) -> int {
    choose|e: int| in_binade(p, num, den, e)
}

/// The float of `p` significant bits nearest to `num / den`, a tie to the one
/// with the even mantissa.
pub open spec fn nearest(p: nat, num: nat, den: nat) -> Dyadic {
    if num == 0 {
        Dyadic { mant: 0, exp: 0 }
    } else {
        let e = binade(p, num, den);
        let m = half_even(num * down(e), den * up(e));
        if m == pow2(p) {
            Dyadic { mant: pow2((p - 1) as nat), exp: e + 1 }
        } else {
            Dyadic { mant: m, exp: e }
        }
    }
}

/// `d * 2^k`.
pub open spec fn scaled(d: Dyadic, k: int) -> Dyadic {
    if d.mant == 0 {
        d
    } else {
        Dyadic { mant: d.mant, exp: d.exp + k }
    }
}

/// The integer `n` as a float of `p` significant bits.
pub open spec fn of_int(p: nat, n: nat) -> Dyadic {
    nearest(p, n, 1)
}

/// `a / b` as a float of `p` significant bits.
pub open spec fn quotient(p: nat, a: Dyadic, b: Dyadic) -> Dyadic {
    scaled(nearest(p, a.mant, b.mant), a.exp - b.exp)
}

/// `a * b` as a float of `p` significant bits.
pub open spec fn product(p: nat, a: Dyadic, b: Dyadic) -> Dyadic {
    scaled(nearest(p, a.mant * b.mant, 1), a.exp + b.exp)
}

/// The largest integer that is not above `d`.
pub open spec fn floor(d: Dyadic) -> nat {
    if d.exp >= 0 {
        d.mant * pow2(d.exp as nat)
    } else {
        d.mant / pow2((-d.exp) as nat)
    }
}

/// The part of `d` behind the binary point, which `d`'s own mantissa can hold.
pub open spec fn fraction(d: Dyadic) -> Dyadic {
    if d.exp >= 0 {
        Dyadic { mant: 0, exp: 0 }
    } else {
        Dyadic { mant: d.mant % pow2((-d.exp) as nat), exp: d.exp }
    }
}

/// The bit pattern of the single-precision number nearest to `d`, where that is
/// a normal number or zero: sign clear, eight bits of exponent biased by 127,
/// and the mantissa without its leading bit.
pub open spec fn single_bits(d: Dyadic) -> int {
    if d.mant == 0 {
        0
    } else {
        let s = scaled(nearest(24, d.mant, 1), d.exp);
        (s.exp + 150) * 0x80_0000 + (s.mant - 0x80_0000)
    }
}

/// `a` is not above `b`.
pub open spec fn at_most(a: Dyadic, b: Dyadic) -> bool {
    let e = if a.exp <= b.exp {
        a.exp
    } else {
        b.exp
    };
    a.mant * pow2((a.exp - e) as nat) <= b.mant * pow2((b.exp - e) as nat)
}

/// `n` held to at most `max`.
pub open spec fn capped(n: nat, max: nat) -> nat {
    if n <= max {
        n
    } else {
        max
    }
}

proof fn lemma_up_down(e: int)
    ensures
        up(e) > 0,
        down(e) > 0,
        e >= 0 ==> up(e + 1) == 2 * up(e) && down(e + 1) == 1 && down(e) == 1,
        e < 0 ==> down(e) == 2 * down(e + 1) && up(e + 1) == 1 && up(e) == 1,
{
    broadcast use lemma_pow2_pos;

    lemma2_to64();
    if e >= 0 {
        lemma_pow2_unfold((e + 1) as nat);
    } else {
        lemma_pow2_unfold((-e) as nat);
    }
}

/// Where `num / den` reaches the binade of `e + 1`, it is beyond that of `e`.
proof fn lemma_step(p: nat, num: nat, den: nat, e: int)
    requires
        p >= 1,
        den > 0,
        pow2((p - 1) as nat) * (den * up(e + 1)) <= num * down(e + 1),
    ensures
        pow2(p) * (den * up(e)) <= num * down(e),
        pow2((p - 1) as nat) * (den * up(e)) <= num * down(e),
{
    lemma_up_down(e);
    lemma_pow2_unfold(p);
    let q = pow2((p - 1) as nat);
    if e >= 0 {
        assert(q * (den * (2 * up(e))) == (2 * q) * (den * up(e))) by (nonlinear_arith);
    } else {
        assert(num * (2 * down(e + 1)) == 2 * (num * down(e + 1))) by (nonlinear_arith);
        assert((2 * q) * (den * 1) == 2 * (q * (den * 1))) by (nonlinear_arith);
    }
    assert(q * (den * up(e)) <= (2 * q) * (den * up(e))) by (nonlinear_arith);
}

proof fn lemma_below(p: nat, num: nat, den: nat, low: int, high: int)
    requires
        p >= 1,
        den > 0,
        low <= high,
        pow2((p - 1) as nat) * (den * up(high)) <= num * down(high),
    ensures
        pow2((p - 1) as nat) * (den * up(low)) <= num * down(low),
    decreases high - low,
{
    if low < high {
        lemma_step(p, num, den, high - 1);
        lemma_below(p, num, den, low, high - 1);
    }
}

/// A ratio has one binade, so whoever finds a binade of it knows how it rounds.
pub proof fn lemma_binade(p: nat, num: nat, den: nat, e: int)
    requires
        p >= 1,
        den > 0,
        in_binade(p, num, den, e),
    ensures
        binade(p, num, den) == e,
{
    let c = binade(p, num, den);
    assert(in_binade(p, num, den, c));
    if e < c {
        lemma_below(p, num, den, e + 1, c);
        lemma_step(p, num, den, e);
    } else if c < e {
        lemma_below(p, num, den, c + 1, e);
        lemma_step(p, num, den, c);
    }
}

/// Rounding a ratio of the binade of `p` bits gives a mantissa of `p` bits, or
/// the next power of two.
proof fn lemma_half_even_range(p: nat, num: nat, den: nat)
    requires
        p >= 1,
        den > 0,
        pow2((p - 1) as nat) * den <= num < pow2(p) * den,
    ensures
        pow2((p - 1) as nat) <= half_even(num, den) <= pow2(p),
{
    let lo = pow2((p - 1) as nat);
    let hi = pow2(p);
    let q = num / den;
    assert(lo <= q < hi) by (nonlinear_arith)
        requires
            den > 0,
            lo * den <= num < hi * den,
            q == num / den,
    ;
}

pub(crate) proof fn lemma_pow2_mono(a: nat, b: nat)
    requires
        a <= b,
    ensures
        pow2(a) <= pow2(b),
{
    if a < b {
        lemma_pow2_strictly_increases(a, b);
    }
}

pub(crate) proof fn lemma_powers()
    ensures
        pow2(0) == 1,
        pow2(1) == 2,
        pow2(23) == 0x80_0000,
        pow2(24) == 0x100_0000,
        pow2(52) == 0x10_0000_0000_0000,
        pow2(53) == 0x20_0000_0000_0000,
        pow2(64) == 0x1_0000_0000_0000_0000,
        pow2(117) == 0x20_0000_0000_0000 * 0x1_0000_0000_0000_0000,
{
    lemma2_to64();
    lemma2_to64_rest();
    lemma_pow2_adds(53, 64);
}

/// Below its binade a ratio can be followed upwards until it is reached.
proof fn lemma_climb(p: nat, num: nat, den: nat, e: int)
    requires
        p >= 1,
        num > 0,
        den > 0,
        pow2((p - 1) as nat) * (den * up(e)) <= num * down(e),
    ensures
        in_binade(p, num, den, binade(p, num, den)),
    decreases (if e < num { num - e } else { 0 }),
{
    lemma_up_down(e);
    lemma_pow2_unfold(p);
    let q = pow2((p - 1) as nat);
    if num * down(e) < pow2(p) * (den * up(e)) {
        lemma_binade(p, num, den, e);
    } else {
        if e >= num {
            lemma_pow2_exceeds(e as nat);
            lemma_pow2_pos((p - 1) as nat);
            assert(num < (2 * q) * (den * up(e))) by (nonlinear_arith)
                requires
                    q > 0,
                    den > 0,
                    num < up(e),
            ;
        }
        if e >= 0 {
            assert(q * (den * (2 * up(e))) == (2 * q) * (den * up(e))) by (nonlinear_arith);
        } else {
            assert(num * (2 * down(e + 1)) == 2 * (num * down(e + 1))) by (nonlinear_arith);
            assert((2 * q) * (den * 1) == 2 * (q * (den * 1))) by (nonlinear_arith);
        }
        lemma_climb(p, num, den, e + 1);
    }
}

proof fn lemma_pow2_exceeds(n: nat)
    ensures
        n < pow2(n),
    decreases n,
{
    lemma_powers();
    if n > 0 {
        lemma_pow2_exceeds((n - 1) as nat);
        lemma_pow2_unfold(n);
    }
}

/// Every positive ratio has a binade.
pub(crate) proof fn lemma_has_binade(p: nat, num: nat, den: nat)
    requires
        p >= 1,
        num > 0,
        den > 0,
    ensures
        in_binade(p, num, den, binade(p, num, den)),
{
    let e = -(p + den);
    lemma_pow2_exceeds(den);
    lemma_pow2_adds(p, den);
    lemma_pow2_unfold(p);
    lemma_pow2_pos((p - 1) as nat);
    let q = pow2((p - 1) as nat);
    assert(q * (den * 1) <= num * ((2 * q) * pow2(den))) by (nonlinear_arith)
        requires
            num > 0,
            q > 0,
            den < pow2(den),
    ;
    lemma_climb(p, num, den, e);
}

/// The mantissa of a rounded ratio has exactly `p` bits.
pub(crate) proof fn lemma_nearest_mant(p: nat, num: nat, den: nat)
    requires
        p >= 1,
        num > 0,
        den > 0,
    ensures
        pow2((p - 1) as nat) <= nearest(p, num, den).mant < pow2(p),
{
    lemma_has_binade(p, num, den);
    let e = binade(p, num, den);
    lemma_up_down(e);
    lemma_pow2_unfold(p);
    lemma_pow2_pos((p - 1) as nat);
    assert(den * up(e) > 0) by (nonlinear_arith)
        requires
            den > 0,
            up(e) > 0,
    ;
    lemma_half_even_range(p, num * down(e), den * up(e));
}

/// An integer of at most `p` bits is a float of `p` significant bits.
pub(crate) proof fn lemma_exact(p: nat, n: nat)
    requires
        p >= 1,
        0 < n < pow2(p),
    ensures
        nearest(p, n, 1).exp <= 0,
        nearest(p, n, 1).exp > -p,
        nearest(p, n, 1).mant == n * down(nearest(p, n, 1).exp),
{
    lemma_has_binade(p, n, 1);
    let e = binade(p, n, 1);
    lemma_up_down(e);
    lemma_pow2_unfold(p);
    let q = pow2((p - 1) as nat);
    if e > 0 {
        lemma_pow2_mono(1, e as nat);
        lemma_powers();
        assert(q * (1 * up(e)) >= 2 * q) by (nonlinear_arith)
            requires
                up(e) >= 2,
        ;
        assert(false);
    }
    if e <= -p {
        lemma_pow2_mono(p, (-e) as nat);
        assert(n * down(e) >= down(e)) by (nonlinear_arith)
            requires
                n > 0,
        ;
        assert(pow2(p) * (1 * up(e)) == pow2(p)) by (nonlinear_arith)
            requires
                up(e) == 1,
        ;
        assert(false);
    }
    assert(up(e) == 1) by {
        lemma_powers();
    }
    let m = n * down(e);
    assert(1 * up(e) == 1);
    assert(m / 1 == m && m % 1 == 0);
    assert(m < pow2(p)) by (nonlinear_arith)
        requires
            m < pow2(p) * (1 * up(e)),
            up(e) == 1,
    ;
}

/// Moving the binary point inside the mantissa leaves the integer part alone.
pub(crate) proof fn lemma_floor_shift(m: nat, e: int, j: nat)
    ensures
        floor(Dyadic { mant: m * pow2(j), exp: e - j }) == floor(Dyadic { mant: m, exp: e }),
{
    lemma_pow2_pos(j);
    let t = pow2(j);
    if e - j >= 0 {
        lemma_pow2_adds(j, (e - j) as nat);
        let u = pow2((e - j) as nat);
        assert(m * t * u == m * (t * u)) by (nonlinear_arith);
    } else if e >= 0 {
        lemma_pow2_adds(e as nat, (j - e) as nat);
        let u = pow2(e as nat);
        let d = pow2((j - e) as nat);
        lemma_pow2_pos((j - e) as nat);
        assert(m * t == d * (m * u)) by (nonlinear_arith)
            requires
                t == u * d,
        ;
        vstd::arithmetic::div_mod::lemma_div_multiples_vanish((m * u) as int, d as int);
    } else {
        lemma_pow2_adds(j, (-e) as nat);
        let d = pow2((-e) as nat);
        lemma_pow2_pos((-e) as nat);
        vstd::arithmetic::div_mod::lemma_div_denominator((m * t) as int, t as int, d as int);
        vstd::arithmetic::div_mod::lemma_div_multiples_vanish(m as int, t as int);
        assert(t * m == m * t) by (nonlinear_arith);
    }
}

/// A common factor does not change a ratio's rounding.
proof fn lemma_half_even_factor(a: nat, b: nat, c: nat)
    requires
        b > 0,
        c > 0,
    ensures
        half_even(a * c, b * c) == half_even(a, b),
{
    vstd::arithmetic::div_mod::lemma_div_multiples_vanish_quotient(c as int, a as int, b as int);
    vstd::arithmetic::div_mod::lemma_truncate_middle(a as int, c as int, b as int);
    assert(a * c == c * a && b * c == c * b) by (nonlinear_arith);
    let r = a % b;
    assert(2 * (c * r) > c * b <==> 2 * r > b) by (nonlinear_arith)
        requires
            c > 0,
    ;
    assert(2 * (c * r) == c * b <==> 2 * r == b) by (nonlinear_arith)
        requires
            c > 0,
    ;
}

/// Rounding commutes with a shift of the binary point.
pub(crate) proof fn lemma_nearest_shift(p: nat, n: nat, den: nat, j: nat)
    requires
        p >= 1,
        n > 0,
        den > 0,
    ensures
        nearest(p, n * pow2(j), den) == scaled(nearest(p, n, den), j as int),
{
    lemma_has_binade(p, n, den);
    let e = binade(p, n, den);
    let t = pow2(j);
    let f = e + j;
    lemma_pow2_pos(j);
    lemma_up_down(e);
    lemma_up_down(f);
    lemma_powers();
    let c: nat = if e >= 0 {
        t
    } else if f < 0 {
        1
    } else {
        pow2(f as nat)
    };
    lemma_pow2_pos(f as nat);
    let a = n * down(e);
    let b = den * up(e);
    assert(n * t * down(f) == a * c && den * up(f) == b * c) by {
        if e >= 0 {
            lemma_pow2_adds(e as nat, j);
            assert(n * t * 1 == n * 1 * t) by (nonlinear_arith);
            assert(den * (up(e) * t) == den * up(e) * t) by (nonlinear_arith);
        } else if f < 0 {
            lemma_pow2_adds(j, (-f) as nat);
            assert(n * t * down(f) == n * (t * down(f)) * 1) by (nonlinear_arith);
            assert(den * up(f) == den * up(e) * 1) by (nonlinear_arith)
                requires
                    up(f) == 1,
                    up(e) == 1,
            ;
        } else {
            lemma_pow2_adds((-e) as nat, f as nat);
            assert(n * t * 1 == n * down(e) * c) by (nonlinear_arith)
                requires
                    t == down(e) * c,
            ;
            assert(den * c == den * up(e) * c) by (nonlinear_arith)
                requires
                    up(e) == 1,
            ;
        }
    }
    assert(b > 0) by (nonlinear_arith)
        requires
            b == den * up(e),
            den > 0,
            up(e) > 0,
    ;
    let q = pow2((p - 1) as nat);
    let h = pow2(p);
    assert(q * (b * c) <= a * c && a * c < h * (b * c)) by (nonlinear_arith)
        requires
            q * b <= a < h * b,
            c > 0,
    ;
    assert(n * t > 0) by (nonlinear_arith)
        requires
            n > 0,
            t > 0,
    ;
    lemma_binade(p, n * t, den, f);
    lemma_half_even_factor(a, b, c);
    lemma_nearest_mant(p, n, den);
    lemma_pow2_pos((p - 1) as nat);
}

/// Rounding to `p` significant bits adds or takes at most one part in `2^p`.
pub(crate) proof fn lemma_nearest_error(p: nat, num: nat, den: nat)
    requires
        p >= 1,
        num > 0,
        den > 0,
    ensures
        ({
            let d = nearest(p, num, den);
            &&& d.mant * (den * up(d.exp)) * pow2(p) <= num * down(d.exp) * (pow2(p) + 1)
            &&& d.mant * (den * up(d.exp)) * pow2(p) >= num * down(d.exp) * (pow2(p) - 1)
        }),
{
    lemma_has_binade(p, num, den);
    let e = binade(p, num, den);
    lemma_up_down(e);
    lemma_pow2_unfold(p);
    lemma_pow2_pos((p - 1) as nat);
    let q = pow2((p - 1) as nat);
    let a = num * down(e);
    let b = den * up(e);
    assert(b > 0) by (nonlinear_arith)
        requires
            b == den * up(e),
            den > 0,
            up(e) > 0,
    ;
    let m = half_even(a, b);
    vstd::arithmetic::div_mod::lemma_fundamental_div_mod(a as int, b as int);
    let w = a / b;
    assert((w + 1) * b == b * w + b && w * b == b * w) by (nonlinear_arith);
    assert(2 * (m * b) <= 2 * a + b);
    assert(m * b * (2 * q) <= a * (2 * q + 1)) by (nonlinear_arith)
        requires
            2 * (m * b) <= 2 * a + b,
            q * b <= a,
    ;
    assert(2 * (m * b) + b >= 2 * a);
    assert(m * b * (2 * q) >= a * (2 * q - 1)) by (nonlinear_arith)
        requires
            2 * (m * b) + b >= 2 * a,
            q * b <= a,
    ;
    if m == pow2(p) {
        if e >= 0 {
            assert(q * (den * (2 * up(e))) == (2 * q) * (den * up(e))) by (nonlinear_arith);
        } else {
            let t = down(e + 1);
            assert(q * (den * 1) * (2 * q) <= num * t * (2 * q + 1)) by (nonlinear_arith)
                requires
                    (2 * q) * (den * 1) * (2 * q) <= num * (2 * t) * (2 * q + 1),
            ;
            assert(q * (den * 1) * (2 * q) >= num * t * (2 * q - 1)) by (nonlinear_arith)
                requires
                    (2 * q) * (den * 1) * (2 * q) >= num * (2 * t) * (2 * q - 1),
            ;
        }
    }
}

/// The integer part of a number that was scaled down by `2^k`.
pub(crate) proof fn lemma_floor_scaled_down(m: nat, e: int, k: nat)
    ensures
        floor(Dyadic { mant: m, exp: e - k }) * pow2(k) * down(e) <= m * up(e),
{
    let f = floor(Dyadic { mant: m, exp: e - k });
    let t = pow2(k);
    lemma_pow2_pos(k);
    lemma_powers();
    if e >= 0 && e - k >= 0 {
        lemma_pow2_adds((e - k) as nat, k);
        let u = pow2((e - k) as nat);
        assert(m * u * t * 1 == m * (u * t)) by (nonlinear_arith);
    } else {
        let u = pow2((k - e) as nat);
        lemma_pow2_pos((k - e) as nat);
        vstd::arithmetic::div_mod::lemma_fundamental_div_mod(m as int, u as int);
        assert(u * f == f * u) by (nonlinear_arith);
        if e >= 0 {
            lemma_pow2_adds((k - e) as nat, e as nat);
            let v = pow2(e as nat);
            assert(f * (u * v) * 1 <= m * v) by (nonlinear_arith)
                requires
                    f * u <= m,
            ;
        } else {
            lemma_pow2_adds(k, (-e) as nat);
            let v = pow2((-e) as nat);
            assert(f * t * v == f * (t * v) && m * 1 == m) by (nonlinear_arith);
        }
    }
}

/// The integer part of a number that was scaled up by `2^k`.
pub(crate) proof fn lemma_floor_scaled_up(m: nat, e: int, k: nat)
    ensures
        floor(Dyadic { mant: m, exp: e + k }) * down(e) <= m * up(e) * pow2(k),
{
    let f = floor(Dyadic { mant: m, exp: e + k });
    let t = pow2(k);
    lemma_pow2_pos(k);
    lemma_powers();
    if e >= 0 {
        lemma_pow2_adds(e as nat, k);
        let u = pow2(e as nat);
        assert(m * (u * t) * 1 == m * u * t) by (nonlinear_arith);
    } else {
        let v = pow2((-e) as nat);
        lemma_pow2_pos((-e) as nat);
        if e + k >= 0 {
            let u = pow2((e + k) as nat);
            lemma_pow2_adds((e + k) as nat, (-e) as nat);
            assert(m * u * v == m * 1 * (u * v)) by (nonlinear_arith);
        } else {
            let u = pow2((-e - k) as nat);
            lemma_pow2_pos((-e - k) as nat);
            lemma_pow2_adds((-e - k) as nat, k);
            vstd::arithmetic::div_mod::lemma_fundamental_div_mod(m as int, u as int);
            assert(u * f == f * u) by (nonlinear_arith);
            assert(f * (u * t) <= m * 1 * t) by (nonlinear_arith)
                requires
                    f * u <= m,
            ;
        }
    }
}

/// Rounding to a whole number of units at most doubles an integer.
pub(crate) proof fn lemma_nearest_at_most_double(p: nat, n: nat)
    requires
        p >= 1,
        n > 0,
        nearest(p, n, 1).exp >= 0,
    ensures
        nearest(p, n, 1).mant * pow2(nearest(p, n, 1).exp as nat) <= 2 * n,
{
    lemma_has_binade(p, n, 1);
    let e = binade(p, n, 1);
    lemma_up_down(e);
    lemma_powers();
    lemma_pow2_unfold(p);
    lemma_pow2_pos((p - 1) as nat);
    let q = pow2((p - 1) as nat);
    if e < 0 {
        assert(pow2(p) * (1 * up(e)) == pow2(p)) by (nonlinear_arith)
            requires
                up(e) == 1,
        ;
        let m = n * down(e);
        assert(1 * up(e) == 1);
        assert(m / 1 == m && m % 1 == 0);
        assert(false);
    }
    let u = pow2(e as nat);
    let m = half_even(n * down(e), 1 * up(e));
    assert(n * down(e) == n && 1 * up(e) == u);
    vstd::arithmetic::div_mod::lemma_fundamental_div_mod(n as int, u as int);
    assert(u <= n) by (nonlinear_arith)
        requires
            q * (1 * u) <= n,
            q > 0,
    ;
    assert(m * u <= u * (n / u) + u) by (nonlinear_arith)
        requires
            m <= n / u + 1,
    ;
    assert(m * u <= 2 * n);
    if m == pow2(p) {
        lemma_pow2_unfold((e + 1) as nat);
        assert(q * (2 * u) == (2 * q) * u) by (nonlinear_arith);
    }
}

/// With one exponent, a larger mantissa has a larger integer part.
pub(crate) proof fn lemma_floor_mono(a: nat, b: nat, e: int)
    requires
        a <= b,
    ensures
        floor(Dyadic { mant: a, exp: e }) <= floor(Dyadic { mant: b, exp: e }),
{
    if e >= 0 {
        assert(a * pow2(e as nat) <= b * pow2(e as nat)) by (nonlinear_arith)
            requires
                a <= b,
        ;
    } else {
        lemma_pow2_pos((-e) as nat);
        vstd::arithmetic::div_mod::lemma_div_is_ordered(
            a as int,
            b as int,
            pow2((-e) as nat) as int,
        );
    }
}

/// The exponent of an integer below `2^b`.
pub(crate) proof fn lemma_int_exp(p: nat, n: nat, b: nat)
    requires
        p >= 1,
        0 < n < pow2(b),
    ensures
        1 - p <= nearest(p, n, 1).exp <= b - p + 1,
        n >= pow2((p - 1) as nat) ==> nearest(p, n, 1).exp >= 0,
{
    lemma_has_binade(p, n, 1);
    let e = binade(p, n, 1);
    lemma_up_down(e);
    lemma_powers();
    let q = pow2((p - 1) as nat);
    if e > b - p {
        if e >= 0 {
            lemma_pow2_adds((p - 1) as nat, e as nat);
            lemma_pow2_mono(b, (p - 1 + e) as nat);
            assert(q * (1 * up(e)) == q * up(e)) by (nonlinear_arith);
            assert(n * 1 == n);
        } else {
            lemma_pow2_adds(b, (-e) as nat);
            lemma_pow2_mono((b - e) as nat, (p - 1) as nat);
            assert(n * down(e) < pow2(b) * down(e)) by (nonlinear_arith)
                requires
                    n < pow2(b),
                    down(e) > 0,
            ;
            assert(q * (1 * up(e)) == q) by (nonlinear_arith)
                requires
                    up(e) == 1,
            ;
        }
        assert(false);
    }
    if e < 0 {
        lemma_pow2_unfold(p);
        lemma_pow2_mono(1, (-e) as nat);
        assert(n * down(e) >= down(e) && n * down(e) >= 2 * n) by (nonlinear_arith)
            requires
                n > 0,
                down(e) >= 2,
        ;
        assert(pow2(p) * (1 * up(e)) == pow2(p)) by (nonlinear_arith)
            requires
                up(e) == 1,
        ;
        if e <= -p {
            lemma_pow2_mono(p, (-e) as nat);
            assert(false);
        }
    }
}

/// The exponent of a ratio of two mantissas.
pub(crate) proof fn lemma_ratio_exp(p: nat, a: nat, b: nat)
    requires
        p >= 2,
        pow2((p - 1) as nat) <= a < pow2(p),
        pow2((p - 1) as nat) <= b < pow2(p),
    ensures
        -p <= nearest(p, a, b).exp <= 2 - p,
        nearest(p, a, b).exp == 2 - p ==> nearest(p, a, b).mant == pow2((p - 1) as nat),
{
    lemma_pow2_unfold(p);
    lemma_pow2_pos((p - 1) as nat);
    lemma_has_binade(p, a, b);
    let e = binade(p, a, b);
    let q = pow2((p - 1) as nat);
    if e >= 2 - p {
        lemma_below(p, a, b, 1 - p, e);
        lemma_below(p, a, b, 2 - p, e);
        lemma_step(p, a, b, 1 - p);
        lemma_up_down(1 - p);
        assert(q * (b * up(1 - p)) == q * b) by (nonlinear_arith)
            requires
                up(1 - p) == 1,
        ;
        assert((2 * q) * (b * up(1 - p)) == 2 * (q * b)) by (nonlinear_arith)
            requires
                up(1 - p) == 1,
        ;
        assert(a * q < 2 * (q * b)) by (nonlinear_arith)
            requires
                a < 2 * b,
                q > 0,
        ;
        assert(false);
    }
    if e < -p {
        lemma_up_down(-p);
        assert(q * (b * up(-p)) <= a * (2 * q)) by (nonlinear_arith)
            requires
                up(-p) == 1,
                b <= 2 * a,
                q > 0,
        ;
        lemma_below(p, a, b, e + 1, -p);
        lemma_step(p, a, b, e);
        assert(false);
    }
}

proof fn lemma_half_even_mono(a: nat, b: nat, d: nat)
    requires
        d > 0,
        a <= b,
    ensures
        half_even(a, d) <= half_even(b, d),
{
    vstd::arithmetic::div_mod::lemma_div_is_ordered(a as int, b as int, d as int);
    vstd::arithmetic::div_mod::lemma_fundamental_div_mod(a as int, d as int);
    vstd::arithmetic::div_mod::lemma_fundamental_div_mod(b as int, d as int);
    if a / d == b / d {
        assert(a % d <= b % d);
    }
}

/// Rounding keeps the order of ratios.
pub proof fn rounding_keeps_order(p: nat, m: nat, n: nat, den: nat)
    requires
        p >= 1,
        m <= n,
        den > 0,
    ensures
        at_most(nearest(p, m, den), nearest(p, n, den)),
{
    let x = nearest(p, m, den);
    let y = nearest(p, n, den);
    lemma_powers();
    if m == 0 {
        let e = if x.exp <= y.exp {
            x.exp
        } else {
            y.exp
        };
        assert(0 * pow2((x.exp - e) as nat) == 0) by (nonlinear_arith);
        assert(0 <= y.mant * pow2((y.exp - e) as nat)) by (nonlinear_arith);
        return ;
    }
    lemma_has_binade(p, m, den);
    lemma_has_binade(p, n, den);
    lemma_nearest_mant(p, m, den);
    lemma_nearest_mant(p, n, den);
    lemma_pow2_unfold(p);
    let c = binade(p, m, den);
    let d = binade(p, n, den);
    lemma_up_down(c);
    lemma_up_down(d);
    assert(m * down(c) <= n * down(c)) by (nonlinear_arith)
        requires
            m <= n,
    ;
    if d < c {
        lemma_below(p, n, den, d + 1, c);
        lemma_step(p, n, den, d);
        assert(false);
    }
    if c == d {
        assert(den * up(c) > 0) by (nonlinear_arith)
            requires
                den > 0,
                up(c) > 0,
        ;
        lemma_half_even_mono(m * down(c), n * down(c), den * up(c));
        lemma_half_even_range(p, m * down(c), den * up(c));
        lemma_half_even_range(p, n * down(c), den * up(c));
    }
    if x.exp < y.exp {
        let k = (y.exp - x.exp) as nat;
        lemma_pow2_mono(1, k);
        assert(x.mant * pow2(0) <= y.mant * pow2(k)) by (nonlinear_arith)
            requires
                pow2(0) == 1,
                pow2(k) >= 2,
                x.mant <= 2 * y.mant,
        ;
    } else if x.exp == y.exp {
        assert(x.mant <= y.mant);
        assert(x.mant * pow2(0) <= y.mant * pow2(0)) by (nonlinear_arith)
            requires
                pow2(0) == 1,
                x.mant <= y.mant,
        ;
    } else {
        assert(x.exp == y.exp + 1);
        assert(false);
    }
}

/// Of ordered numbers the integer parts are ordered too.
pub(crate) proof fn lemma_floor_at_most(a: Dyadic, b: Dyadic)
    requires
        at_most(a, b),
    ensures
        floor(a) <= floor(b),
{
    let e = if a.exp <= b.exp {
        a.exp
    } else {
        b.exp
    };
    lemma_floor_shift(a.mant, a.exp, (a.exp - e) as nat);
    lemma_floor_shift(b.mant, b.exp, (b.exp - e) as nat);
    lemma_floor_mono(
        a.mant * pow2((a.exp - e) as nat),
        b.mant * pow2((b.exp - e) as nat),
        e,
    );
}

/// Of ordered numbers with mantissas of 24 bits the exponents are ordered too.
pub(crate) proof fn lemma_order_of_exponents(x: Dyadic, y: Dyadic)
    requires
        0x80_0000 <= x.mant < 0x100_0000,
        0x80_0000 <= y.mant < 0x100_0000,
        at_most(x, y),
    ensures
        x.exp <= y.exp,
        x.mant <= y.mant * pow2((y.exp - x.exp) as nat),
{
    lemma_powers();
    if x.exp > y.exp {
        let k = (x.exp - y.exp) as nat;
        lemma_pow2_mono(1, k);
        assert(x.mant * pow2(k) >= 2 * x.mant) by (nonlinear_arith)
            requires
                pow2(k) >= 2,
        ;
        assert(y.mant * pow2(0) == y.mant) by (nonlinear_arith)
            requires
                pow2(0) == 1,
        ;
        assert(false);
    }
    assert(x.mant * pow2(0) == x.mant) by (nonlinear_arith)
        requires
            pow2(0) == 1,
    ;
}

/// A ratio of equal mantissas is one.
pub(crate) proof fn lemma_ratio_of_equals(p: nat, a: nat)
    requires
        p >= 1,
        a > 0,
    ensures
        nearest(p, a, a) == (Dyadic { mant: pow2((p - 1) as nat), exp: 1 - p }),
{
    let q = pow2((p - 1) as nat);
    let e = 1 - p;
    lemma_powers();
    lemma_pow2_unfold(p);
    lemma_pow2_pos((p - 1) as nat);
    lemma_up_down(e);
    assert(up(e) == 1 && down(e) == q);
    assert(a * up(e) == a) by (nonlinear_arith)
        requires
            up(e) == 1,
    ;
    assert(q * a <= a * q && a * q < (2 * q) * a) by (nonlinear_arith)
        requires
            q > 0,
            a > 0,
    ;
    lemma_binade(p, a, a, e);
    vstd::arithmetic::div_mod::lemma_div_multiples_vanish(q as int, a as int);
    vstd::arithmetic::div_mod::lemma_mod_multiples_basic(q as int, a as int);
    assert(a * q == q * a) by (nonlinear_arith);
}

/// A ratio of mantissas is at most 2, and at most 1 where the first is not the
/// larger one.
pub(crate) proof fn lemma_ratio_bound(p: nat, a: nat, b: nat)
    requires
        p >= 2,
        pow2((p - 1) as nat) <= a < pow2(p),
        pow2((p - 1) as nat) <= b < pow2(p),
    ensures
        nearest(p, a, b).exp <= 0,
        nearest(p, a, b).mant <= 2 * pow2((-nearest(p, a, b).exp) as nat),
        a <= b ==> nearest(p, a, b).exp < 0,
        a <= b ==> nearest(p, a, b).mant <= pow2((-nearest(p, a, b).exp) as nat),
{
    lemma_pow2_pos((p - 1) as nat);
    lemma_ratio_exp(p, a, b);
    lemma_nearest_mant(p, a, b);
    lemma_pow2_unfold(p);
    lemma_pow2_unfold((p - 1) as nat);
    let r = nearest(p, a, b);
    if r.exp <= 1 - p {
        lemma_pow2_mono((p - 1) as nat, (-r.exp) as nat);
    }
    if a <= b {
        lemma_has_binade(p, a, b);
        let e = binade(p, a, b);
        let q = pow2((p - 1) as nat);
        lemma_up_down(e);
        lemma_pow2_pos((p - 1) as nat);
        if e >= 1 - p {
            lemma_below(p, a, b, 1 - p, e);
            lemma_up_down(1 - p);
            assert(q * (b * up(1 - p)) == q * b) by (nonlinear_arith)
                requires
                    up(1 - p) == 1,
            ;
            assert(b <= a) by (nonlinear_arith)
                requires
                    q * b <= a * q,
                    q > 0,
            ;
            lemma_ratio_of_equals(p, a);
        } else {
            if r.exp > e {
                assert(r.mant == q);
            }
            if r.exp <= -p {
                lemma_pow2_mono(p, (-r.exp) as nat);
            }
        }
    }
}

/// The float of `p` significant bits nearest to `num / den`.
pub fn round_ratio(p: u32, num: u128, den: u128) -> (r: Float)
    requires
        2 <= p <= DOUBLE,
        num <= MAX_NUM,
        0 < den <= MAX_DEN,
    ensures
        r@ == nearest(p as nat, num as nat, den as nat),
        num == 0 ==> r.mant == 0 && r.exp == 0,
        num > 0 ==> pow2((p - 1) as nat) <= r.mant < pow2(p as nat),
        r.mant < 0x20_0000_0000_0000,
        -118 <= r.exp <= 118,
{
    if num == 0 {
        return Float { mant: 0, exp: 0 };
    }
    proof {
        lemma_powers();
        lemma_pow2_mono((p - 1) as nat, 52);
        lemma_pow2_mono(p as nat, 53);
        lemma_pow2_unfold(p as nat);
        lemma_pow2_pos((p - 1) as nat);
        vstd::bits::lemma_u64_shl_is_mul(1, (p - 1) as u64);
        vstd::bits::lemma_u64_shl_is_mul(1, p as u64);
    }
    let low: u64 = 1u64 << (p - 1);
    let top: u64 = 1u64 << p;
    let (n, d, e) = scale_to_binade(low as u128, num, den);
    proof {
        lemma_binade(p as nat, num as nat, den as nat, e as int);
        lemma_half_even_range(p as nat, n as nat, d as nat);
    }
    let q: u128 = n / d;
    let r: u128 = n % d;
    let up_one: bool = r > d - r || (r == d - r && q % 2 == 1);
    let m: u128 = if up_one {
        q + 1
    } else {
        q
    };
    if m == top as u128 {
        Float { mant: low, exp: e + 1 }
    } else {
        Float { mant: m as u64, exp: e }
    }
}

/// `num / den` as `n / d * 2^e` with `low <= n / d < 2 * low`.
fn scale_to_binade(low: u128, num: u128, den: u128) -> (r: (u128, u128, i32))
    requires
        0 < low <= 0x10_0000_0000_0000,
        0 < num <= MAX_NUM,
        0 < den <= MAX_DEN,
    ensures
        r.0 == num * down(r.2 as int),
        r.1 == den * up(r.2 as int),
        r.1 > 0,
        low * r.1 <= r.0 < (2 * low) * r.1,
        -117 <= r.2 <= 117,
{
    let mut n: u128 = num;
    let mut d: u128 = den;
    let mut e: i32 = 0;
    proof {
        lemma_powers();
        assert((2 * low) * den == 2 * (low * den)) by (nonlinear_arith);
        assert(up(0) == 1 && down(0) == 1);
        assert(low * den <= 0x10_0000_0000_0000 * 0x1_0000_0000_0000_0000) by (nonlinear_arith)
            requires
                low <= 0x10_0000_0000_0000,
                den <= 0x1_0000_0000_0000_0000,
        ;
    }
    if n < low * d {
        while n < low * d
            invariant
                0 < n,
                0 < d == den,
                low * d <= 0x10_0000_0000_0000 * 0x1_0000_0000_0000_0000,
                n < (2 * low) * d,
                -117 <= e <= 0,
                n == num * down(e as int),
                n >= down(e as int),
            decreases (2 * low) * d - n,
        {
            proof {
                lemma_up_down(e - 1);
                lemma_up_down(e as int);
                assert(num * (2 * down(e as int)) == 2 * (num * down(e as int)))
                    by (nonlinear_arith);
                assert((2 * low) * d == 2 * (low * d)) by (nonlinear_arith);
                if e == -117 {
                    lemma_powers();
                }
            }
            n = n * 2;
            e = e - 1;
        }
    } else {
        while n >= 2 * (low * d)
            invariant
                n == num <= MAX_NUM,
                0 < low,
                0 < den <= d,
                low * d <= n,
                0 <= e <= 117,
                d == den * up(e as int),
                d >= up(e as int),
            decreases n - low * d,
        {
            proof {
                lemma_up_down(e as int);
                assert(den * (2 * up(e as int)) == 2 * (den * up(e as int))) by (nonlinear_arith);
                assert(low * (2 * d) == 2 * (low * d)) by (nonlinear_arith);
                assert(d <= low * d) by (nonlinear_arith)
                    requires
                        low > 0,
                ;
                if e == 117 {
                    lemma_powers();
                }
            }
            d = d * 2;
            e = e + 1;
        }
        assert((2 * low) * d == 2 * (low * d)) by (nonlinear_arith);
    }
    (n, d, e)
}

/// `n` as a float of `p` significant bits.
pub fn from_int(p: u32, n: u64) -> (r: Float)
    requires
        2 <= p <= DOUBLE,
    ensures
        r@ == of_int(p as nat, n as nat),
        r.mant < 0x20_0000_0000_0000,
        -118 <= r.exp <= 118,
{
    round_ratio(p, n as u128, 1)
}

/// `a / b` as a float of `p` significant bits.
pub fn divide(p: u32, a: Float, b: Float) -> (r: Float)
    requires
        2 <= p <= DOUBLE,
        b.mant > 0,
        -10_000 <= a.exp <= 10_000,
        -10_000 <= b.exp <= 10_000,
    ensures
        r@ == quotient(p as nat, a@, b@),
        r.mant < 0x20_0000_0000_0000,
        a.exp - b.exp - 118 <= r.exp <= a.exp - b.exp + 118 || r.mant == 0 && r.exp == 0,
{
    proof {
        lemma_pow2_pos((p - 1) as nat);
    }
    let r: Float = round_ratio(p, a.mant as u128, b.mant as u128);
    if r.mant == 0 {
        r
    } else {
        Float { mant: r.mant, exp: r.exp + a.exp - b.exp }
    }
}

/// `a * b` as a float of `p` significant bits.
pub fn multiply(p: u32, a: Float, b: Float) -> (r: Float)
    requires
        2 <= p <= DOUBLE,
        a.mant < 0x20_0000_0000_0000,
        b.mant < 0x20_0000_0000_0000,
        -10_000 <= a.exp <= 10_000,
        -10_000 <= b.exp <= 10_000,
    ensures
        r@ == product(p as nat, a@, b@),
        r.mant < 0x20_0000_0000_0000,
        a.exp + b.exp - 118 <= r.exp <= a.exp + b.exp + 118 || r.mant == 0 && r.exp == 0,
{
    assert(a.mant * b.mant <= 0x20_0000_0000_0000 * 0x20_0000_0000_0000) by (nonlinear_arith)
        requires
            a.mant < 0x20_0000_0000_0000,
            b.mant < 0x20_0000_0000_0000,
    ;
    proof {
        lemma_pow2_pos((p - 1) as nat);
    }
    let r: Float = round_ratio(p, a.mant as u128 * b.mant as u128, 1);
    if r.mant == 0 {
        r
    } else {
        Float { mant: r.mant, exp: r.exp + a.exp + b.exp }
    }
}

/// `a` cut to an integer, and held to the largest `u64`.
pub fn truncate(a: Float) -> (r: u64)
    requires
        a.mant < 0x20_0000_0000_0000,
        a.exp > i32::MIN,
    ensures
        r == capped(floor(a@), u64::MAX as nat),
{
    proof {
        lemma_powers();
        lemma_up_down(a.exp as int);
    }
    if a.exp >= 0 {
        if a.mant == 0 {
            assert(0 * pow2(a.exp as nat) == 0) by (nonlinear_arith);
            0
        } else if a.exp >= 64 {
            proof {
                lemma_pow2_mono(64, a.exp as nat);
                assert(a.mant * pow2(a.exp as nat) >= pow2(a.exp as nat)) by (nonlinear_arith)
                    requires
                        a.mant > 0,
                ;
            }
            u64::MAX
        } else {
            let room: u64 = u64::MAX >> (a.exp as u32);
            let ghost unit = pow2(a.exp as nat);
            proof {
                vstd::bits::lemma_u64_shr_is_div(u64::MAX, a.exp as u64);
                assert(a.mant <= room <==> a.mant * unit <= u64::MAX) by (nonlinear_arith)
                    requires
                        room == u64::MAX as nat / unit,
                        unit > 0,
                ;
            }
            if a.mant <= room {
                proof {
                    vstd::bits::lemma_u64_shl_is_mul(a.mant, a.exp as u64);
                }
                a.mant << (a.exp as u32)
            } else {
                u64::MAX
            }
        }
    } else if a.exp <= -64 {
        proof {
            lemma_pow2_mono(64, (-a.exp) as nat);
            assert(a.mant as nat / pow2((-a.exp) as nat) == 0) by (nonlinear_arith)
                requires
                    a.mant < pow2((-a.exp) as nat),
            ;
        }
        0
    } else {
        proof {
            vstd::bits::lemma_u64_shr_is_div(a.mant, (-a.exp) as u64);
        }
        a.mant >> ((-a.exp) as u32)
    }
}

/// What is left of `a` behind the binary point.
pub fn fractional(a: Float) -> (r: Float)
    requires
        a.mant < 0x20_0000_0000_0000,
        a.exp > i32::MIN,
    ensures
        r@ == fraction(a@),
        r.mant <= a.mant,
{
    if a.exp >= 0 {
        Float { mant: 0, exp: 0 }
    } else if a.exp <= -64 {
        proof {
            lemma_powers();
            lemma_pow2_mono(64, (-a.exp) as nat);
            assert(a.mant as nat % pow2((-a.exp) as nat) == a.mant) by (nonlinear_arith)
                requires
                    a.mant < pow2((-a.exp) as nat),
            ;
        }
        a
    } else {
        let whole: u64 = a.mant >> ((-a.exp) as u32);
        let ghost unit = pow2((-a.exp) as nat);
        proof {
            vstd::bits::lemma_u64_shr_is_div(a.mant, (-a.exp) as u64);
            lemma_pow2_pos((-a.exp) as nat);
            vstd::arithmetic::div_mod::lemma_fundamental_div_mod(a.mant as int, unit as int);
            assert(unit * whole == whole * unit) by (nonlinear_arith);
            assert(0 <= whole * unit) by (nonlinear_arith);
            vstd::bits::lemma_u64_shl_is_mul(whole, (-a.exp) as u64);
        }
        Float { mant: a.mant - (whole << ((-a.exp) as u32)), exp: a.exp }
    }
}

/// The single-precision bit pattern nearest to `a`.
pub fn to_single_bits(a: Float) -> (r: u32)
    requires
        a.mant < 0x20_0000_0000_0000,
        -120 <= a.exp <= 60,
    ensures
        r == single_bits(a@),
        r < 0x8000_0000,
{
    if a.mant == 0 {
        return 0;
    }
    let s: Float = round_ratio(SINGLE, a.mant as u128, 1);
    proof {
        lemma_powers();
        lemma_int_exp(24, a.mant as nat, 53);
    }
    let biased: u32 = (s.exp + a.exp + 150) as u32;
    biased * 0x80_0000 + (s.mant - 0x80_0000) as u32
}

/// Numerator of `d` as a fraction.
pub open spec fn top(d: Dyadic) -> nat {
    d.mant * up(d.exp)
}

/// Denominator of `d` as a fraction.
pub open spec fn bottom(d: Dyadic) -> nat {
    down(d.exp)
}

/// The fractions `x / y` and `n / d` differ by at most the factor `a / b`.
pub open spec fn is_within(x: nat, y: nat, n: nat, d: nat, a: nat, b: nat) -> bool {
    &&& x * d * b <= n * y * a
    &&& n * y * b <= x * d * a
}

/// Rounding gives the nearest float: it is off by at most half a unit of its own
/// last place, and a float that is off by just that much has an even mantissa.
pub proof fn rounding_is_to_nearest(p: nat, num: nat, den: nat)
    requires
        p >= 2,
        num > 0,
        den > 0,
    ensures
        ({
            let r = nearest(p, num, den);
            let n = num * down(r.exp);
            let d = den * up(r.exp);
            &&& pow2((p - 1) as nat) <= r.mant < pow2(p)
            &&& 2 * n <= 2 * (r.mant * d) + d
            &&& 2 * (r.mant * d) <= 2 * n + d
            &&& 2 * n == 2 * (r.mant * d) + d || 2 * (r.mant * d) == 2 * n + d ==> r.mant % 2 == 0
        }),
{
    lemma_nearest_mant(p, num, den);
    lemma_has_binade(p, num, den);
    let e = binade(p, num, den);
    lemma_up_down(e);
    lemma_pow2_unfold(p);
    lemma_pow2_unfold((p - 1) as nat);
    lemma_pow2_pos((p - 1) as nat);
    let q = pow2((p - 1) as nat);
    let a = num * down(e);
    let b = den * up(e);
    assert(b > 0) by (nonlinear_arith)
        requires
            b == den * up(e),
            den > 0,
            up(e) > 0,
    ;
    let m = half_even(a, b);
    vstd::arithmetic::div_mod::lemma_fundamental_div_mod(a as int, b as int);
    let w = a / b;
    assert((w + 1) * b == b * w + b && w * b == b * w) by (nonlinear_arith);
    assert(2 * (m * b) <= 2 * a + b);
    assert(2 * (m * b) + b >= 2 * a);
    assert(2 * (m * b) == 2 * a + b || 2 * (m * b) + b == 2 * a ==> m % 2 == 0);
    if m == pow2(p) {
        if e >= 0 {
            assert(q * (den * (2 * up(e))) == (2 * q) * (den * up(e))) by (nonlinear_arith);
            assert(den * (2 * up(e)) == 2 * (den * up(e))) by (nonlinear_arith);
        } else {
            let t = down(e + 1);
            assert(num * (2 * t) == 2 * (num * t)) by (nonlinear_arith);
            assert((2 * q) * (den * 1) == 2 * (q * (den * 1))) by (nonlinear_arith);
        }
    }
}

proof fn lemma_up_down_add(e: int, k: int)
    ensures
        up(e + k) * (down(e) * down(k)) == down(e + k) * (up(e) * up(k)),
{
    lemma_powers();
    let s = e + k;
    let (u, d, u1, d1, u2, d2) = (up(s), down(s), up(e), down(e), up(k), down(k));
    if e >= 0 && k >= 0 {
        lemma_pow2_adds(e as nat, k as nat);
        assert(u * (d1 * d2) == d * (u1 * u2)) by (nonlinear_arith)
            requires
                d == 1 && d1 == 1 && d2 == 1 && u == u1 * u2,
        ;
    } else if e < 0 && k < 0 {
        lemma_pow2_adds((-e) as nat, (-k) as nat);
        assert(u * (d1 * d2) == d * (u1 * u2)) by (nonlinear_arith)
            requires
                u == 1 && u1 == 1 && u2 == 1 && d == d1 * d2,
        ;
    } else if e >= 0 {
        if s >= 0 {
            lemma_pow2_adds(s as nat, (-k) as nat);
            assert(u * (d1 * d2) == d * (u1 * u2)) by (nonlinear_arith)
                requires
                    d == 1 && d1 == 1 && u2 == 1 && u1 == u * d2,
            ;
        } else {
            lemma_pow2_adds((-s) as nat, e as nat);
            assert(u * (d1 * d2) == d * (u1 * u2)) by (nonlinear_arith)
                requires
                    u == 1 && d1 == 1 && u2 == 1 && d2 == d * u1,
            ;
        }
    } else {
        if s >= 0 {
            lemma_pow2_adds(s as nat, (-e) as nat);
            assert(u * (d1 * d2) == d * (u1 * u2)) by (nonlinear_arith)
                requires
                    d == 1 && d2 == 1 && u1 == 1 && u2 == u * d1,
            ;
        } else {
            lemma_pow2_adds((-s) as nat, k as nat);
            assert(u * (d1 * d2) == d * (u1 * u2)) by (nonlinear_arith)
                requires
                    u == 1 && d2 == 1 && u1 == 1 && d1 == d * u2,
            ;
        }
    }
}

/// Fractions that are equal are within the factor one.
proof fn lemma_within_equal(x: nat, y: nat, n: nat, d: nat)
    requires
        x * d == n * y,
    ensures
        is_within(x, y, n, d, 1, 1),
{
    assert(x * d * 1 == x * d && n * y * 1 == n * y) by (nonlinear_arith);
}

proof fn lemma_half_trans(
    x: nat,
    y: nat,
    u: nat,
    v: nat,
    n: nat,
    d: nat,
    a1: nat,
    b1: nat,
    a2: nat,
    b2: nat,
)
    requires
        v > 0,
        x * v * b1 <= u * y * a1,
        u * d * b2 <= n * v * a2,
    ensures
        x * d * (b1 * b2) <= n * y * (a1 * a2),
{
    let s = d * b2;
    let t = y * a1;
    assert((x * v * b1) * s <= (u * y * a1) * s) by (nonlinear_arith)
        requires
            x * v * b1 <= u * y * a1,
    ;
    assert((u * d * b2) * t <= (n * v * a2) * t) by (nonlinear_arith)
        requires
            u * d * b2 <= n * v * a2,
    ;
    assert((u * y * a1) * (d * b2) == (u * d * b2) * (y * a1)) by (nonlinear_arith);
    assert((x * v * b1) * (d * b2) == v * (x * d * (b1 * b2))) by (nonlinear_arith);
    assert((n * v * a2) * (y * a1) == v * (n * y * (a1 * a2))) by (nonlinear_arith);
    let l = x * d * (b1 * b2);
    let r = n * y * (a1 * a2);
    assert(l <= r) by (nonlinear_arith)
        requires
            v * l <= v * r,
            v > 0,
    ;
}

proof fn lemma_within_trans(
    x: nat,
    y: nat,
    u: nat,
    v: nat,
    n: nat,
    d: nat,
    a1: nat,
    b1: nat,
    a2: nat,
    b2: nat,
)
    requires
        v > 0,
        is_within(x, y, u, v, a1, b1),
        is_within(u, v, n, d, a2, b2),
    ensures
        is_within(x, y, n, d, a1 * a2, b1 * b2),
{
    lemma_half_trans(x, y, u, v, n, d, a1, b1, a2, b2);
    assert(u * y * b1 <= x * v * a1);
    lemma_half_back(x, y, u, v, n, d, a1, b1, a2, b2);
}

proof fn lemma_half_back(
    x: nat,
    y: nat,
    u: nat,
    v: nat,
    n: nat,
    d: nat,
    a1: nat,
    b1: nat,
    a2: nat,
    b2: nat,
)
    requires
        v > 0,
        u * y * b1 <= x * v * a1,
        n * v * b2 <= u * d * a2,
    ensures
        n * y * (b1 * b2) <= x * d * (a1 * a2),
{
    let s = y * b1;
    let t = d * a2;
    assert((n * v * b2) * s <= (u * d * a2) * s) by (nonlinear_arith)
        requires
            n * v * b2 <= u * d * a2,
    ;
    assert((u * y * b1) * t <= (x * v * a1) * t) by (nonlinear_arith)
        requires
            u * y * b1 <= x * v * a1,
    ;
    assert((u * d * a2) * (y * b1) == (u * y * b1) * (d * a2)) by (nonlinear_arith);
    assert((n * v * b2) * (y * b1) == v * (n * y * (b1 * b2))) by (nonlinear_arith);
    assert((x * v * a1) * (d * a2) == v * (x * d * (a1 * a2))) by (nonlinear_arith);
    let l = n * y * (b1 * b2);
    let r = x * d * (a1 * a2);
    assert(l <= r) by (nonlinear_arith)
        requires
            v * l <= v * r,
            v > 0,
    ;
}

proof fn lemma_le_mul(a: nat, b: nat, c: nat, d: nat)
    requires
        a <= b,
        c <= d,
    ensures
        a * c <= b * d,
{
    assert(a * c <= b * d) by (nonlinear_arith)
        requires
            a <= b,
            c <= d,
    ;
}

proof fn lemma_within_mul(
    x1: nat,
    y1: nat,
    n1: nat,
    d1: nat,
    a1: nat,
    b1: nat,
    x2: nat,
    y2: nat,
    n2: nat,
    d2: nat,
    a2: nat,
    b2: nat,
)
    requires
        is_within(x1, y1, n1, d1, a1, b1),
        is_within(x2, y2, n2, d2, a2, b2),
    ensures
        is_within(x1 * x2, y1 * y2, n1 * n2, d1 * d2, a1 * a2, b1 * b2),
        is_within(x1 * y2, y1 * x2, n1 * d2, d1 * n2, a1 * a2, b1 * b2),
{
    lemma_le_mul(x1 * d1 * b1, n1 * y1 * a1, x2 * d2 * b2, n2 * y2 * a2);
    lemma_le_mul(n1 * y1 * b1, x1 * d1 * a1, n2 * y2 * b2, x2 * d2 * a2);
    lemma_le_mul(x1 * d1 * b1, n1 * y1 * a1, n2 * y2 * b2, x2 * d2 * a2);
    lemma_le_mul(n1 * y1 * b1, x1 * d1 * a1, x2 * d2 * b2, n2 * y2 * a2);
    assert((x1 * d1 * b1) * (x2 * d2 * b2) == (x1 * x2) * (d1 * d2) * (b1 * b2)) by (nonlinear_arith);
    assert((n1 * y1 * a1) * (n2 * y2 * a2) == (n1 * n2) * (y1 * y2) * (a1 * a2)) by (nonlinear_arith);
    assert((n1 * y1 * b1) * (n2 * y2 * b2) == (n1 * n2) * (y1 * y2) * (b1 * b2)) by (nonlinear_arith);
    assert((x1 * d1 * a1) * (x2 * d2 * a2) == (x1 * x2) * (d1 * d2) * (a1 * a2)) by (nonlinear_arith);
    assert((x1 * d1 * b1) * (n2 * y2 * b2) == (x1 * y2) * (d1 * n2) * (b1 * b2)) by (nonlinear_arith);
    assert((n1 * y1 * a1) * (x2 * d2 * a2) == (n1 * d2) * (y1 * x2) * (a1 * a2)) by (nonlinear_arith);
    assert((n1 * y1 * b1) * (x2 * d2 * b2) == (n1 * d2) * (y1 * x2) * (b1 * b2)) by (nonlinear_arith);
    assert((x1 * d1 * a1) * (n2 * y2 * a2) == (x1 * y2) * (d1 * n2) * (a1 * a2)) by (nonlinear_arith);
}

/// A rounded ratio is within the factor `2^p / (2^p - 1)` of the ratio.
pub(crate) proof fn lemma_nearest_within(p: nat, num: nat, den: nat)
    requires
        p >= 1,
        num > 0,
        den > 0,
    ensures
        ({
            let r = nearest(p, num, den);
            is_within(top(r), bottom(r), num, den, pow2(p), (pow2(p) - 1) as nat)
        }),
{
    lemma_nearest_error(p, num, den);
    lemma_pow2_pos(p);
    let r = nearest(p, num, den);
    let a = pow2(p);
    let b = (a - 1) as nat;
    let x = top(r) * den;
    let y = num * bottom(r);
    assert(r.mant * (den * up(r.exp)) == x) by (nonlinear_arith)
        requires
            x == (r.mant * up(r.exp)) * den,
    ;
    assert(x * b <= y * a) by (nonlinear_arith)
        requires
            x * a <= y * (a + 1),
            a == b + 1,
            a > 0,
    ;
}

/// The part of a scaled number.
proof fn lemma_scaled_within(z: Dyadic, k: int)
    ensures
        is_within(
            z.mant * up(z.exp + k),
            down(z.exp + k),
            top(z) * up(k),
            bottom(z) * down(k),
            1,
            1,
        ),
{
    lemma_up_down_add(z.exp, k);
    let m = z.mant;
    let (u, d) = (up(z.exp + k), down(z.exp + k));
    let (u1, d1, u2, d2) = (up(z.exp), down(z.exp), up(k), down(k));
    assert((m * u) * (d1 * d2) == m * (u * (d1 * d2))) by (nonlinear_arith);
    assert((m * u1 * u2) * d == m * (d * (u1 * u2))) by (nonlinear_arith);
    lemma_within_equal(m * u, d, m * u1 * u2, d1 * d2);
}

/// A rounded product of two numbers that are near to fractions is near to the
/// fractions' product.
pub(crate) proof fn lemma_product_within(
    p: nat,
    x: Dyadic,
    y: Dyadic,
    n1: nat,
    d1: nat,
    a1: nat,
    b1: nat,
    n2: nat,
    d2: nat,
    a2: nat,
    b2: nat,
)
    requires
        p >= 1,
        x.mant > 0,
        y.mant > 0,
        is_within(top(x), bottom(x), n1, d1, a1, b1),
        is_within(top(y), bottom(y), n2, d2, a2, b2),
    ensures
        ({
            let r = product(p, x, y);
            is_within(
                top(r),
                bottom(r),
                n1 * n2,
                d1 * d2,
                pow2(p) * (a1 * a2),
                ((pow2(p) - 1) as nat) * (b1 * b2),
            )
        }),
{
    let k = x.exp + y.exp;
    let g = x.mant * y.mant;
    let a = pow2(p);
    lemma_pow2_pos(p);
    let b = (a - 1) as nat;
    assert(g > 0) by (nonlinear_arith)
        requires
            g == x.mant * y.mant,
            x.mant > 0,
            y.mant > 0,
    ;
    lemma_up_down(k);
    lemma_up_down(x.exp);
    lemma_up_down(y.exp);
    let (u, d) = (up(k), down(k));
    let z = nearest(p, g, 1);
    lemma_up_down(z.exp);
    lemma_pow2_pos((p - 1) as nat);
    lemma_nearest_mant(p, g, 1);
    lemma_nearest_within(p, g, 1);
    lemma_within_equal(u, d, u, d);
    lemma_within_mul(top(z), bottom(z), g, 1, a, b, u, d, u, d, 1, 1);
    lemma_scaled_within(z, k);
    let r = product(p, x, y);
    assert(top(r) == z.mant * up(z.exp + k) && bottom(r) == down(z.exp + k));
    assert(bottom(z) * d > 0) by (nonlinear_arith)
        requires
            bottom(z) > 0,
            d > 0,
    ;
    lemma_within_trans(
        top(r),
        bottom(r),
        top(z) * u,
        bottom(z) * d,
        g * u,
        1 * d,
        1,
        1,
        a * 1,
        b * 1,
    );
    lemma_up_down_add(x.exp, y.exp);
    let (tx, ty, bx, by) = (top(x), top(y), bottom(x), bottom(y));
    let (xm, ym, ux, uy) = (x.mant, y.mant, up(x.exp), up(y.exp));
    assert(((xm * ym) * u) * (bx * by) == (xm * ym) * (u * (bx * by))) by (nonlinear_arith);
    assert(((xm * ux) * (ym * uy)) * (1 * d) == (xm * ym) * (d * (ux * uy))) by (nonlinear_arith);
    lemma_within_equal(g * u, 1 * d, tx * ty, bx * by);
    lemma_within_mul(tx, bx, n1, d1, a1, b1, ty, by, n2, d2, a2, b2);
    assert(bx * by > 0) by (nonlinear_arith)
        requires
            bx > 0,
            by > 0,
    ;
    lemma_within_trans(g * u, 1 * d, tx * ty, bx * by, n1 * n2, d1 * d2, 1, 1, a1 * a2, b1 * b2);
    lemma_within_trans(
        top(r),
        bottom(r),
        g * u,
        1 * d,
        n1 * n2,
        d1 * d2,
        1 * (a * 1),
        1 * (b * 1),
        1 * (a1 * a2),
        1 * (b1 * b2),
    );
}

/// A rounded quotient of two numbers that are near to fractions is near to the
/// fractions' quotient.
pub(crate) proof fn lemma_quotient_within(
    p: nat,
    x: Dyadic,
    y: Dyadic,
    n1: nat,
    d1: nat,
    a1: nat,
    b1: nat,
    n2: nat,
    d2: nat,
    a2: nat,
    b2: nat,
)
    requires
        p >= 1,
        x.mant > 0,
        y.mant > 0,
        is_within(top(x), bottom(x), n1, d1, a1, b1),
        is_within(top(y), bottom(y), n2, d2, a2, b2),
    ensures
        ({
            let r = quotient(p, x, y);
            is_within(
                top(r),
                bottom(r),
                n1 * d2,
                d1 * n2,
                pow2(p) * (a1 * a2),
                ((pow2(p) - 1) as nat) * (b1 * b2),
            )
        }),
{
    let k = x.exp - y.exp;
    let a = pow2(p);
    lemma_pow2_pos(p);
    let b = (a - 1) as nat;
    lemma_up_down(k);
    lemma_up_down(x.exp);
    lemma_up_down(y.exp);
    let (u, d) = (up(k), down(k));
    let z = nearest(p, x.mant, y.mant);
    lemma_up_down(z.exp);
    lemma_pow2_pos((p - 1) as nat);
    lemma_nearest_mant(p, x.mant, y.mant);
    lemma_nearest_within(p, x.mant, y.mant);
    lemma_within_equal(u, d, u, d);
    lemma_within_mul(top(z), bottom(z), x.mant, y.mant, a, b, u, d, u, d, 1, 1);
    lemma_scaled_within(z, k);
    let r = quotient(p, x, y);
    assert(top(r) == z.mant * up(z.exp + k) && bottom(r) == down(z.exp + k));
    assert(bottom(z) * d > 0) by (nonlinear_arith)
        requires
            bottom(z) > 0,
            d > 0,
    ;
    let g = x.mant * u;
    let h = y.mant * d;
    lemma_within_trans(
        top(r),
        bottom(r),
        top(z) * u,
        bottom(z) * d,
        g,
        h,
        1,
        1,
        a * 1,
        b * 1,
    );
    lemma_up_down_add(k, y.exp);
    let (tx, ty, bx, by) = (top(x), top(y), bottom(x), bottom(y));
    let (xm, ym, ux, uy) = (x.mant, y.mant, up(x.exp), up(y.exp));
    assert((xm * u) * (bx * (ym * uy)) == (xm * ym) * (bx * (u * uy))) by (nonlinear_arith);
    assert(((xm * ux) * by) * (ym * d) == (xm * ym) * (ux * (d * by))) by (nonlinear_arith);
    lemma_within_equal(g, h, tx * by, bx * ty);
    lemma_within_mul(tx, bx, n1, d1, a1, b1, ty, by, n2, d2, a2, b2);
    assert(bx * ty > 0 && h > 0) by (nonlinear_arith)
        requires
            bx > 0,
            ty == y.mant * up(y.exp),
            y.mant > 0,
            up(y.exp) > 0,
            h == y.mant * d,
            d > 0,
    ;
    lemma_within_trans(g, h, tx * by, bx * ty, n1 * d2, d1 * n2, 1, 1, a1 * a2, b1 * b2);
    lemma_within_trans(
        top(r),
        bottom(r),
        g,
        h,
        n1 * d2,
        d1 * n2,
        1 * (a * 1),
        1 * (b * 1),
        1 * (a1 * a2),
        1 * (b1 * b2),
    );
}

/// The integer part of a number is the number but for less than one.
pub proof fn integer_part_is_just_below(d: Dyadic)
    ensures
        floor(d) * bottom(d) <= top(d),
        top(d) < (floor(d) + 1) * bottom(d),
{
    lemma_up_down(d.exp);
    lemma_powers();
    if d.exp >= 0 {
        assert(floor(d) * 1 == floor(d) && (floor(d) + 1) * 1 == floor(d) + 1);
    } else {
        let u = pow2((-d.exp) as nat);
        vstd::arithmetic::div_mod::lemma_fundamental_div_mod(d.mant as int, u as int);
        let f = floor(d);
        assert((f + 1) * u == u * f + u && f * u == u * f) by (nonlinear_arith);
        assert(d.mant * 1 == d.mant);
    }
}

/// A wider factor.
pub(crate) proof fn lemma_loosen(x: nat, y: nat, n: nat, d: nat, a: nat, b: nat, c: nat, e: nat)
    requires
        is_within(x, y, n, d, a, b),
        a * e <= b * c,
        b > 0,
    ensures
        is_within(x, y, n, d, c, e),
{
    lemma_loosen_half(x * d, n * y, a, b, c, e);
    lemma_loosen_half(n * y, x * d, a, b, c, e);
}

proof fn lemma_loosen_half(l: nat, r: nat, a: nat, b: nat, c: nat, e: nat)
    requires
        l * b <= r * a,
        a * e <= b * c,
        b > 0,
    ensures
        l * e <= r * c,
{
    assert((l * b) * e <= (r * a) * e) by (nonlinear_arith)
        requires
            l * b <= r * a,
    ;
    assert(r * (a * e) <= r * (b * c)) by (nonlinear_arith)
        requires
            a * e <= b * c,
    ;
    assert((r * a) * e == r * (a * e)) by (nonlinear_arith);
    assert((l * b) * e == b * (l * e)) by (nonlinear_arith);
    assert(r * (b * c) == b * (r * c)) by (nonlinear_arith);
    let (s, t) = (l * e, r * c);
    assert(s <= t) by (nonlinear_arith)
        requires
            b * s <= b * t,
            b > 0,
    ;
}

/// The integer part of a number that is near to a fraction.
pub(crate) proof fn lemma_floor_near(d: Dyadic, n: nat, m: nat, c: nat, e: nat)
    requires
        is_within(top(d), bottom(d), n, m, c, e),
        m > 0,
        c > 0,
    ensures
        floor(d) * m * e <= n * c,
        n * e < (floor(d) + 1) * m * c,
{
    integer_part_is_just_below(d);
    lemma_up_down(d.exp);
    let (f, t, b) = (floor(d), top(d), bottom(d));
    assert((f * b) * (m * e) <= t * (m * e)) by (nonlinear_arith)
        requires
            f * b <= t,
    ;
    assert((f * b) * (m * e) == b * (f * m * e)) by (nonlinear_arith);
    assert(t * (m * e) == t * m * e) by (nonlinear_arith);
    assert(n * b * c == b * (n * c)) by (nonlinear_arith);
    let (l, r) = (f * m * e, n * c);
    assert(l <= r) by (nonlinear_arith)
        requires
            b * l <= b * r,
            b > 0,
    ;
    let g = f + 1;
    assert(m * c > 0) by (nonlinear_arith)
        requires
            m > 0,
            c > 0,
    ;
    assert(t * (m * c) < (g * b) * (m * c)) by (nonlinear_arith)
        requires
            t < g * b,
            m * c > 0,
    ;
    assert(t * (m * c) == t * m * c) by (nonlinear_arith);
    assert((g * b) * (m * c) == b * (g * m * c)) by (nonlinear_arith);
    assert(n * b * e == b * (n * e)) by (nonlinear_arith);
    let (p, q) = (n * e, g * m * c);
    assert(p < q) by (nonlinear_arith)
        requires
            b * p < b * q,
            b > 0,
    ;
}

/// A number that is near to a fraction, scaled.
pub(crate) proof fn lemma_scaled_near(z: Dyadic, k: int, n: nat, d: nat, a: nat, b: nat)
    requires
        z.mant > 0,
        is_within(top(z), bottom(z), n, d, a, b),
    ensures
        is_within(top(scaled(z, k)), bottom(scaled(z, k)), n * up(k), d * down(k), a, b),
{
    lemma_up_down(k);
    lemma_up_down(z.exp);
    let (u, w) = (up(k), down(k));
    lemma_scaled_within(z, k);
    lemma_within_equal(u, w, u, w);
    lemma_within_mul(top(z), bottom(z), n, d, a, b, u, w, u, w, 1, 1);
    assert(bottom(z) * w > 0) by (nonlinear_arith)
        requires
            bottom(z) > 0,
            w > 0,
    ;
    lemma_within_trans(
        z.mant * up(z.exp + k),
        down(z.exp + k),
        top(z) * u,
        bottom(z) * w,
        n * u,
        d * w,
        1,
        1,
        a * 1,
        b * 1,
    );
}

/// An integer of at most `p` bits keeps its value as a float.
pub(crate) proof fn lemma_exact_within(p: nat, n: nat)
    requires
        p >= 1,
        0 < n < pow2(p),
    ensures
        is_within(top(of_int(p, n)), bottom(of_int(p, n)), n, 1, 1, 1),
{
    lemma_exact(p, n);
    let z = of_int(p, n);
    lemma_powers();
    assert(up(z.exp) == 1);
    assert(z.mant * up(z.exp) == z.mant) by (nonlinear_arith)
        requires
            up(z.exp) == 1,
    ;
    lemma_within_equal(top(z), bottom(z), n, 1);
}

/// The number that a single-precision bit pattern with a clear sign stands for,
/// where that is a normal number or zero.
pub open spec fn of_bits(bits: int) -> Dyadic {
    if bits == 0 {
        Dyadic { mant: 0, exp: 0 }
    } else {
        Dyadic { mant: (bits % 0x80_0000 + 0x80_0000) as nat, exp: bits / 0x80_0000 - 150 }
    }
}

/// A bit pattern stands for the float that it was made from.
pub(crate) proof fn lemma_bits_round_trip(d: Dyadic)
    requires
        d.mant > 0,
        -149 <= nearest(24, d.mant, 1).exp + d.exp <= 104,
    ensures
        of_bits(single_bits(d)) == scaled(nearest(24, d.mant, 1), d.exp),
        0 < single_bits(d) < 0x8000_0000,
{
    lemma_powers();
    lemma_nearest_mant(24, d.mant, 1);
    let s = scaled(nearest(24, d.mant, 1), d.exp);
    let bits = single_bits(d);
    assert(bits / 0x80_0000 == s.exp + 150);
    assert(bits % 0x80_0000 == s.mant - 0x80_0000);
}

/// Dividing by the same number keeps order.
pub(crate) proof fn lemma_quotient_order(p: nat, x: Dyadic, y: Dyadic, z: Dyadic)
    requires
        p >= 1,
        x.mant > 0,
        y.mant > 0,
        z.mant > 0,
        at_most(x, y),
    ensures
        at_most(quotient(p, x, z), quotient(p, y, z)),
        quotient(p, x, z).mant > 0,
        quotient(p, y, z).mant > 0,
{
    let e = if x.exp <= y.exp {
        x.exp
    } else {
        y.exp
    };
    let j = (x.exp - e) as nat;
    let l = (y.exp - e) as nat;
    lemma_pow2_pos((p - 1) as nat);
    lemma_nearest_mant(p, x.mant, z.mant);
    lemma_nearest_mant(p, y.mant, z.mant);
    lemma_nearest_shift(p, x.mant, z.mant, j);
    lemma_nearest_shift(p, y.mant, z.mant, l);
    rounding_keeps_order(p, x.mant * pow2(j), y.mant * pow2(l), z.mant);
}

/// Multiplying by the same number keeps order.
pub(crate) proof fn lemma_product_order(p: nat, x: Dyadic, y: Dyadic, z: Dyadic)
    requires
        p >= 1,
        x.mant > 0,
        y.mant > 0,
        z.mant > 0,
        at_most(x, y),
    ensures
        at_most(product(p, x, z), product(p, y, z)),
{
    let e = if x.exp <= y.exp {
        x.exp
    } else {
        y.exp
    };
    let j = (x.exp - e) as nat;
    let l = (y.exp - e) as nat;
    let (s, t) = (pow2(j), pow2(l));
    let (g, h) = (x.mant * z.mant, y.mant * z.mant);
    assert(g > 0 && h > 0) by (nonlinear_arith)
        requires
            g == x.mant * z.mant,
            h == y.mant * z.mant,
            x.mant > 0,
            y.mant > 0,
            z.mant > 0,
    ;
    let (xm, ym, zm) = (x.mant, y.mant, z.mant);
    assert((xm * s) * zm <= (ym * t) * zm) by (nonlinear_arith)
        requires
            xm * s <= ym * t,
    ;
    assert((xm * zm) * s == (xm * s) * zm && (ym * zm) * t == (ym * t) * zm) by (nonlinear_arith);
    lemma_pow2_pos((p - 1) as nat);
    lemma_nearest_mant(p, g, 1);
    lemma_nearest_mant(p, h, 1);
    lemma_nearest_shift(p, g, 1, j);
    lemma_nearest_shift(p, h, 1, l);
    rounding_keeps_order(p, g * s, h * t, 1);
}

/// Capping gives the smaller of the two.
pub proof fn capping_gives_the_smaller(n: nat, max: nat)
    ensures
        capped(n, max) <= n,
        capped(n, max) <= max,
        capped(n, max) == n || capped(n, max) == max,
{
}

} // verus!
