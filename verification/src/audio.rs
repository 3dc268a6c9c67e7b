//! Shaping captured audio for the recogniser: which samples go where.
//!
//! Sample values are single-precision numbers that this module never touches.
//! It says which captured samples an output sample is made from and with what
//! weight; the weight is a single-precision bit pattern.
use crate::float;
use crate::float::{Float, SINGLE};
use vstd::prelude::*;

verus! {

/// Samples per second that the recogniser expects.
pub const TARGET_RATE: u32 = 16000;

/// Where one output sample comes from: the sample at `left` moved towards the
/// sample at `right` by `frac`. Without `left` it starts from silence, without
/// `right` it stays at its start.
#[derive(Clone, Copy, Debug, PartialEq, Eq)]
pub struct Tap {
    pub left: Option<usize>,
    pub right: Option<usize>,
    /// Single-precision bit pattern of a weight in `[0, 1)`.
    pub frac: u32,
}

/// How to bring a buffer to [`TARGET_RATE`].
#[derive(Debug, PartialEq, Eq)]
pub enum Resampling {
    /// The samples already have the target rate.
    Copy,
    /// One tap for each output sample.
    Taps(Vec<Tap>),
}

/// Output samples per input sample, in single precision.
pub open spec fn ratio(rate: nat) -> float::Dyadic {
    float::quotient(24, float::of_int(24, 16000), float::of_int(24, rate))
}

/// Number of samples that `len` samples taken at `rate` become.
pub open spec fn output_len(len: nat, rate: nat) -> nat {
    if rate == 16000 {
        len
    } else if len == 0 {
        0
    } else {
        float::capped(
            float::floor(float::product(24, float::of_int(24, len), ratio(rate))),
            usize::MAX as nat,
        )
    }
}

/// Position in the input of output sample `i`, in input samples.
pub open spec fn position(i: nat, rate: nat) -> float::Dyadic {
    float::quotient(24, float::of_int(24, i), ratio(rate))
}

/// `k` as an index into a buffer of `len` samples.
pub open spec fn index_in(k: nat, len: nat) -> Option<usize> {
    if k < len {
        Some(k as usize)
    } else {
        None
    }
}

/// The tap of output sample `i`.
pub open spec fn tap_at(len: nat, rate: nat, i: nat) -> Tap {
    let idx = float::capped(float::floor(position(i, rate)), usize::MAX as nat);
    Tap {
        left: index_in(idx, len),
        right: index_in(idx + 1, len),
        frac: float::single_bits(float::fraction(position(i, rate))) as u32,
    }
}

proof fn lemma_ratio_range(rate: nat)
    requires
        0 < rate < 0x1_0000_0000,
    ensures
        0x80_0000 <= ratio(rate).mant < 0x100_0000,
        -60 <= ratio(rate).exp <= 0,
{
    vstd::arithmetic::power2::lemma2_to64();
    float::lemma_nearest_mant(24, 16000, 1);
    float::lemma_nearest_mant(24, rate, 1);
    float::lemma_int_exp(24, 16000, 14);
    float::lemma_int_exp(24, rate, 32);
    let a = float::of_int(24, 16000).mant;
    let b = float::of_int(24, rate).mant;
    float::lemma_ratio_exp(24, a, b);
    float::lemma_nearest_mant(24, a, b);
}

proof fn lemma_position_range(i: nat, rate: nat)
    requires
        0 < rate < 0x1_0000_0000,
        i < 0x1_0000_0000_0000_0000,
    ensures
        position(i, rate).mant < 0x100_0000,
        position(i, rate).mant > 0 ==> -60 <= position(i, rate).exp <= 100,
        position(i, rate).mant == 0 ==> position(i, rate).exp == 0,
        i == 0 ==> position(i, rate).mant == 0,
{
    vstd::arithmetic::power2::lemma2_to64();
    lemma_ratio_range(rate);
    let r = ratio(rate).mant;
    if i > 0 {
        float::lemma_nearest_mant(24, i, 1);
        float::lemma_int_exp(24, i, 64);
        let a = float::of_int(24, i).mant;
        float::lemma_ratio_exp(24, a, r);
        float::lemma_nearest_mant(24, a, r);
    }
}

/// `n` cut to an integer and held to the largest `usize`.
fn to_usize(a: Float) -> (r: usize)
    requires
        a.mant < 0x20_0000_0000_0000,
        a.exp > i32::MIN,
    ensures
        r == float::capped(float::floor(a@), usize::MAX as nat),
{
    let n: u64 = float::truncate(a);
    if n > usize::MAX as u64 {
        usize::MAX
    } else {
        n as usize
    }
}

/// [`ratio`] as a float.
fn rate_ratio(rate: u32) -> (r: Float)
    requires
        rate > 0,
    ensures
        r@ == ratio(rate as nat),
        0x80_0000 <= r.mant < 0x100_0000,
        -60 <= r.exp <= 0,
{
    let target: Float = float::from_int(SINGLE, TARGET_RATE as u64);
    let from: Float = float::from_int(SINGLE, rate as u64);
    proof {
        vstd::arithmetic::power2::lemma2_to64();
        float::lemma_nearest_mant(24, rate as nat, 1);
        lemma_ratio_range(rate as nat);
    }
    float::divide(SINGLE, target, from)
}

/// Number of samples that `len` samples taken at `from_rate` become.
pub fn resampled_len(len: usize, from_rate: u32) -> (n: usize)
    requires
        from_rate > 0 || len == 0,
    ensures
        n == output_len(len as nat, from_rate as nat),
{
    if from_rate == TARGET_RATE {
        return len;
    }
    if len == 0 {
        return 0;
    }
    let ratio: Float = rate_ratio(from_rate);
    to_usize(float::multiply(SINGLE, float::from_int(SINGLE, len as u64), ratio))
}

/// Plans the linear resampling of `len` samples, taken at `from_rate`, to
/// [`TARGET_RATE`].
pub fn resample_to_16k(len: usize, from_rate: u32) -> (r: Resampling)
    requires
        from_rate > 0 || len == 0,
    ensures
        r is Copy <==> from_rate == 16000,
        r matches Resampling::Taps(taps) ==> {
            &&& taps@.len() == output_len(len as nat, from_rate as nat)
            &&& forall|i: int|
                0 <= i < taps@.len() ==> #[trigger] taps@[i] == tap_at(
                    len as nat,
                    from_rate as nat,
                    i as nat,
                )
            &&& forall|i: int, j: int|
                #![trigger taps@[i], taps@[j]]
                0 <= i <= j < taps@.len() ==> (taps@[i].left matches Some(k) ==> (
                taps@[j].left matches Some(l) ==> k <= l))
        },
{
    if from_rate == TARGET_RATE {
        return Resampling::Copy;
    }
    let n: usize = resampled_len(len, from_rate);
    let mut taps: Vec<Tap> = Vec::new();
    if n > 0 {
        let ratio: Float = rate_ratio(from_rate);
        let mut i: usize = 0;
        while i < n
            invariant
                i <= n,
                from_rate > 0,
                ratio@ == crate::audio::ratio(from_rate as nat),
                ratio.mant > 0,
                -60 <= ratio.exp <= 0,
                taps@.len() == i,
                forall|j: int|
                    0 <= j < i ==> #[trigger] taps@[j] == tap_at(
                        len as nat,
                        from_rate as nat,
                        j as nat,
                    ),
            decreases n - i,
        {
            let at: Float = float::divide(SINGLE, float::from_int(SINGLE, i as u64), ratio);
            proof {
                lemma_position_range(i as nat, from_rate as nat);
            }
            let idx: usize = to_usize(at);
            let left: Option<usize> = if idx < len {
                Some(idx)
            } else {
                None
            };
            let right: Option<usize> = if idx < len && len - idx > 1 {
                Some(idx + 1)
            } else {
                None
            };
            let frac: u32 = float::to_single_bits(float::fractional(at));
            taps.push(Tap { left, right, frac });
            i = i + 1;
        }
    }
    proof {
        assert forall|i: int, j: int|
            #![trigger taps@[i], taps@[j]]
            0 <= i <= j < taps@.len() implies (taps@[i].left matches Some(k) ==> (
        taps@[j].left matches Some(l) ==> k <= l)) by {
            taps_keep_time_order(len as nat, from_rate as nat, i as nat, j as nat);
        }
    }
    Resampling::Taps(taps)
}

/// A tap reads only samples that exist, and the second is the one right behind
/// the first.
pub proof fn taps_stay_in_bounds(len: nat, rate: nat, i: nat)
    requires
        len <= usize::MAX,
    ensures
        tap_at(len, rate, i).left matches Some(k) ==> k < len,
        tap_at(len, rate, i).right matches Some(k) ==> k < len && tap_at(len, rate, i).left
            == Some((k - 1) as usize),
{
}

/// Resampled audio starts with the first sample, unchanged.
pub proof fn first_tap_is_first_sample(len: nat, rate: nat)
    requires
        0 < len <= usize::MAX,
        0 < rate <= u32::MAX,
    ensures
        tap_at(len, rate, 0).left == Some(0usize),
        tap_at(len, rate, 0).frac == 0,
{
    lemma_position_range(0, rate);
    vstd::arithmetic::power2::lemma2_to64();
    assert(0 * vstd::arithmetic::power2::pow2(0) == 0);
}

/// A tap's weight is at least 0 and below 1: its bit pattern is below that of
/// the number 1.
pub proof fn weights_are_below_one(len: nat, rate: nat, i: nat)
    requires
        0 < rate <= u32::MAX,
        i <= usize::MAX,
    ensures
        0 <= float::single_bits(float::fraction(position(i, rate))) < 0x3f80_0000,
        tap_at(len, rate, i).frac < 0x3f80_0000,
{
    lemma_position_range(i, rate);
    let d = position(i, rate);
    if d.exp < 0 {
        let k = (-d.exp) as nat;
        vstd::arithmetic::power2::lemma_pow2_pos(k);
        let r = d.mant % vstd::arithmetic::power2::pow2(k);
        vstd::arithmetic::div_mod::lemma_mod_decreases(d.mant, vstd::arithmetic::power2::pow2(k));
        if r > 0 {
            float::lemma_powers();
            float::lemma_exact(24, r);
            float::lemma_nearest_mant(24, r, 1);
            float::lemma_int_exp(24, r, 24);
            let s = float::nearest(24, r, 1);
            let j = (-s.exp) as nat;
            if k + j < 24 {
                vstd::arithmetic::power2::lemma_pow2_adds(k, j);
                float::lemma_pow2_mono(k + j, 23);
                vstd::arithmetic::power2::lemma_pow2_pos(j);
                assert(r * vstd::arithmetic::power2::pow2(j) < vstd::arithmetic::power2::pow2(k)
                    * vstd::arithmetic::power2::pow2(j)) by (nonlinear_arith)
                    requires
                        r < vstd::arithmetic::power2::pow2(k),
                        vstd::arithmetic::power2::pow2(j) > 0,
                ;
                assert(false);
            }
        }
    }
}

/// Resampling never goes backwards: a later output sample is not made from an
/// earlier place in the input.
pub proof fn resampling_keeps_time_order(i: nat, j: nat, rate: nat)
    requires
        0 < rate <= u32::MAX,
        i <= j,
    ensures
        float::floor(position(i, rate)) <= float::floor(position(j, rate)),
{
    lemma_ratio_range(rate);
    let r = ratio(rate);
    if i == 0 {
        assert(position(0, rate).mant == 0);
        let e = r.exp;
        assert(0 * vstd::arithmetic::power2::pow2((-e) as nat) == 0) by (nonlinear_arith);
    } else {
        let x = float::of_int(24, i);
        let y = float::of_int(24, j);
        float::lemma_powers();
        float::rounding_keeps_order(24, i, j, 1);
        float::lemma_nearest_mant(24, i, 1);
        float::lemma_nearest_mant(24, j, 1);
        float::lemma_nearest_mant(24, x.mant, r.mant);
        float::lemma_nearest_mant(24, y.mant, r.mant);
        let a = float::nearest(24, x.mant, r.mant);
        let b = float::nearest(24, y.mant, r.mant);
        float::lemma_order_of_exponents(x, y);
        let k = (y.exp - x.exp) as nat;
        float::lemma_nearest_shift(24, y.mant, r.mant, k);
        float::rounding_keeps_order(
            24,
            x.mant,
            y.mant * vstd::arithmetic::power2::pow2(k),
            r.mant,
        );
        float::lemma_floor_at_most(position(i, rate), position(j, rate));
    }
}

/// More audio never becomes fewer samples.
pub proof fn longer_audio_is_no_shorter(n: nat, m: nat, rate: nat)
    requires
        0 < rate <= u32::MAX,
    ensures
        output_len(n, rate) <= output_len(n + m, rate),
{
    lemma_ratio_range(rate);
    let r = ratio(rate);
    if n > 0 && rate != 16000 {
        let x = float::of_int(24, n);
        let y = float::of_int(24, n + m);
        float::lemma_powers();
        float::rounding_keeps_order(24, n, n + m, 1);
        float::lemma_nearest_mant(24, n, 1);
        float::lemma_nearest_mant(24, n + m, 1);
        float::lemma_order_of_exponents(x, y);
        let k = (y.exp - x.exp) as nat;
        let t = vstd::arithmetic::power2::pow2(k);
        assert(x.mant * r.mant <= (y.mant * r.mant) * t) by (nonlinear_arith)
            requires
                x.mant <= y.mant * t,
        ;
        assert(x.mant * r.mant > 0 && y.mant * r.mant > 0) by (nonlinear_arith)
            requires
                x.mant > 0,
                y.mant > 0,
                r.mant > 0,
        ;
        float::lemma_nearest_shift(24, y.mant * r.mant, 1, k);
        float::rounding_keeps_order(24, x.mant * r.mant, (y.mant * r.mant) * t, 1);
        float::lemma_nearest_mant(24, x.mant * r.mant, 1);
        float::lemma_nearest_mant(24, y.mant * r.mant, 1);
        float::lemma_floor_at_most(float::product(24, x, r), float::product(24, y, r));
    }
}

/// The rounded ratio is above the true one by at most one part in `2^24`.
proof fn lemma_ratio_bound(rate: nat)
    requires
        0 < rate < 0x100_0000,
    ensures
        ({
            let r = ratio(rate);
            r.mant * rate * 0x100_0000 <= 16000 * vstd::arithmetic::power2::pow2((-r.exp) as nat)
                * 0x100_0001
        }),
{
    float::lemma_powers();
    lemma_ratio_range(rate);
    float::lemma_exact(24, 16000);
    float::lemma_exact(24, rate);
    float::lemma_nearest_mant(24, 16000, 1);
    float::lemma_nearest_mant(24, rate, 1);
    let x = float::of_int(24, 16000);
    let y = float::of_int(24, rate);
    float::lemma_ratio_exp(24, x.mant, y.mant);
    float::lemma_nearest_error(24, x.mant, y.mant);
    float::lemma_nearest_mant(24, x.mant, y.mant);
    let q = float::nearest(24, x.mant, y.mant);
    let r = ratio(rate);
    let v = vstd::arithmetic::power2::pow2((-y.exp) as nat);
    let u = vstd::arithmetic::power2::pow2((-x.exp) as nat);
    let w = vstd::arithmetic::power2::pow2((-q.exp) as nat);
    let t = vstd::arithmetic::power2::pow2((-r.exp) as nat);
    vstd::arithmetic::power2::lemma_pow2_pos((-y.exp) as nat);
    vstd::arithmetic::power2::lemma_pow2_adds((-x.exp) as nat, (-q.exp) as nat);
    vstd::arithmetic::power2::lemma_pow2_adds((-r.exp) as nat, (-y.exp) as nat);
    assert(u * w == t * v);
    assert(r.mant * rate * 0x100_0000 <= 16000 * t * 0x100_0001) by (nonlinear_arith)
        requires
            r.mant * ((rate * v) * 1) * 0x100_0000 <= (16000 * u) * w * 0x100_0001,
            u * w == t * v,
            v > 0,
    ;
}

/// The output is longer than the input allows by at most one part in `2^24`.
proof fn lemma_output_bound(n: nat, rate: nat)
    requires
        0 < n < 0x100_0000,
        0 < rate <= u32::MAX,
        rate != 16000,
    ensures
        output_len(n, rate) * vstd::arithmetic::power2::pow2((-ratio(rate).exp) as nat) * 0x100_0000
            <= n * ratio(rate).mant * 0x100_0001,
{
    float::lemma_powers();
    lemma_ratio_range(rate);
    float::lemma_exact(24, n);
    let r = ratio(rate);
    let x = float::of_int(24, n);
    let j = (-x.exp) as nat;
    let s = vstd::arithmetic::power2::pow2(j);
    let k = (-r.exp) as nat;
    let t = vstd::arithmetic::power2::pow2(k);
    let g = n * r.mant;
    assert(x.mant == n * s);
    assert((n * s) * r.mant == (n * r.mant) * s) by (nonlinear_arith);
    assert(g > 0) by (nonlinear_arith)
        requires
            g == n * r.mant,
            n > 0,
            r.mant > 0,
    ;
    float::lemma_nearest_shift(24, g, 1, j);
    float::lemma_nearest_mant(24, g, 1);
    float::lemma_nearest_error(24, g, 1);
    let p = float::nearest(24, g, 1);
    float::lemma_floor_scaled_down(p.mant, p.exp, k);
    let f = float::floor(float::Dyadic { mant: p.mant, exp: p.exp - k });
    assert(float::product(24, x, r) == (float::Dyadic { mant: p.mant, exp: p.exp - k }));
    let d = float::down(p.exp);
    let u = float::up(p.exp);
    vstd::arithmetic::power2::lemma_pow2_pos((-p.exp) as nat);
    assert(f * t * 0x100_0000 <= g * 0x100_0001) by (nonlinear_arith)
        requires
            f * t * d <= p.mant * u,
            p.mant * (1 * u) * 0x100_0000 <= g * d * 0x100_0001,
            d > 0,
    ;
    let l = output_len(n, rate);
    assert(l * t * 0x100_0000 <= f * t * 0x100_0000) by (nonlinear_arith)
        requires
            l <= f,
    ;
}

/// A position is beyond the true one by at most one part in `2^24`.
proof fn lemma_position_bound(i: nat, rate: nat)
    requires
        0 < i < 0x100_0000,
        0 < rate <= u32::MAX,
    ensures
        float::floor(position(i, rate)) * ratio(rate).mant * 0x100_0000 <= i
            * vstd::arithmetic::power2::pow2((-ratio(rate).exp) as nat) * 0x100_0001,
{
    float::lemma_powers();
    lemma_ratio_range(rate);
    float::lemma_exact(24, i);
    let r = ratio(rate);
    let x = float::of_int(24, i);
    let j = (-x.exp) as nat;
    let k = (-r.exp) as nat;
    let t = vstd::arithmetic::power2::pow2(k);
    float::lemma_nearest_shift(24, i, r.mant, j);
    float::lemma_nearest_mant(24, i, r.mant);
    float::lemma_nearest_error(24, i, r.mant);
    let q = float::nearest(24, i, r.mant);
    float::lemma_floor_scaled_up(q.mant, q.exp, k);
    assert(position(i, rate) == (float::Dyadic { mant: q.mant, exp: q.exp + k }));
    let f = float::floor(position(i, rate));
    let d = float::down(q.exp);
    let u = float::up(q.exp);
    vstd::arithmetic::power2::lemma_pow2_pos((-q.exp) as nat);
    vstd::arithmetic::power2::lemma_pow2_pos(k);
    assert(f * r.mant * 0x100_0000 <= i * t * 0x100_0001) by (nonlinear_arith)
        requires
            f * d <= q.mant * u * t,
            q.mant * (r.mant * u) * 0x100_0000 <= i * d * 0x100_0001,
            d > 0,
            t > 0,
    ;
}

/// How far output sample `i` reaches into `n` input samples: its position is
/// below `n` by the length of an output sample, but for two roundings.
proof fn lemma_reach(n: nat, rate: nat, i: nat)
    requires
        n <= 8_000_000,
        8000 <= rate < 0x100_0000,
        rate != 16000,
        i < output_len(n, rate),
    ensures
        ({
            let r = ratio(rate).mant;
            let t = vstd::arithmetic::power2::pow2((-ratio(rate).exp) as nat);
            float::floor(position(i, rate)) * r * 0x1_0000_0000_0000 + t * 0x100_0001 * 0x100_0000
                <= n * r * 0x1_0000_0200_0001
        }),
{
    lemma_ratio_range(rate);
    lemma_ratio_bound(rate);
    lemma_output_bound(n, rate);
    let r = ratio(rate).mant;
    let t = vstd::arithmetic::power2::pow2((-ratio(rate).exp) as nat);
    vstd::arithmetic::power2::lemma_pow2_pos((-ratio(rate).exp) as nat);
    let l = output_len(n, rate);
    let f = float::floor(position(i, rate));
    assert(r * 0x100_0000 <= 2 * (t * 0x100_0001)) by (nonlinear_arith)
        requires
            r * rate * 0x100_0000 <= 16000 * t * 0x100_0001,
            rate >= 8000,
    ;
    assert(n * (r * 0x100_0000) <= n * (2 * (t * 0x100_0001))) by (nonlinear_arith)
        requires
            r * 0x100_0000 <= 2 * (t * 0x100_0001),
    ;
    let lt = l * t;
    let nr = n * r;
    let nt = n * t;
    assert(n * (r * 0x100_0000) == nr * 0x100_0000) by (nonlinear_arith)
        requires
            nr == n * r,
    ;
    assert(n * (2 * (t * 0x100_0001)) == 2 * nt * 0x100_0001) by (nonlinear_arith)
        requires
            nt == n * t,
    ;
    assert(lt * 0x1_0000_0000_0000 <= 2 * nt * 0x1_0000_0200_0001);
    assert(l < 0x100_0000) by (nonlinear_arith)
        requires
            lt == l * t,
            nt == n * t,
            lt * 0x1_0000_0000_0000 <= 2 * nt * 0x1_0000_0200_0001,
            n <= 8_000_000,
            t > 0,
    ;
    if i > 0 {
        lemma_position_bound(i, rate);
    } else {
        lemma_position_range(0, rate);
        vstd::arithmetic::power2::lemma2_to64();
        assert(0 * vstd::arithmetic::power2::pow2(0) == 0);
        assert(f * r * 0x100_0000 <= i * t * 0x100_0001) by (nonlinear_arith)
            requires
                f == 0,
                i == 0,
        ;
    }
    let it = i * t;
    assert(it + t <= lt) by (nonlinear_arith)
        requires
            it == i * t,
            lt == l * t,
            i + 1 <= l,
    ;
    let fr = f * r;
    assert(fr * 0x1_0000_0000_0000 + t * 0x100_0001 * 0x100_0000 <= nr * 0x1_0000_0200_0001);
}

/// Output sample `i` is made from two samples inside the input.
proof fn lemma_two_inside(n: nat, rate: nat, i: nat)
    requires
        32000 <= rate < 0x100_0000,
        n <= 8_000_000,
        i < output_len(n, rate),
    ensures
        float::floor(position(i, rate)) + 1 < n,
{
    lemma_reach(n, rate, i);
    lemma_ratio_range(rate);
    lemma_ratio_bound(rate);
    let r = ratio(rate).mant;
    let t = vstd::arithmetic::power2::pow2((-ratio(rate).exp) as nat);
    let f = float::floor(position(i, rate));
    assert(2 * (r * 0x100_0000) <= t * 0x100_0001) by (nonlinear_arith)
        requires
            r * rate * 0x100_0000 <= 16000 * t * 0x100_0001,
            rate >= 32000,
    ;
    assert(f + 1 < n) by (nonlinear_arith)
        requires
            f * r * 0x1_0000_0000_0000 + 2 * r * 0x1_0000_0000_0000 <= n * r * 0x1_0000_0200_0001,
            n <= 8_000_000,
            r > 0,
    ;
}

/// Audio that comes later never changes what was made from the audio before it:
/// the samples that `n` samples become are the first of those that `n + m`
/// samples become.
pub proof fn appended_audio_keeps_samples(n: nat, m: nat, rate: nat, i: nat)
    requires
        32000 <= rate < 0x100_0000,
        n + m <= 8_000_000,
        i < output_len(n, rate),
    ensures
        i < output_len(n + m, rate),
        tap_at(n, rate, i) == tap_at(n + m, rate, i),
{
    longer_audio_is_no_shorter(n, m, rate);
    lemma_two_inside(n, rate, i);
}

/// Every output sample is made from input: none starts from silence.
pub proof fn every_tap_has_a_sample(n: nat, rate: nat, i: nat)
    requires
        8000 <= rate < 0x100_0000,
        n <= 4_000_000,
        i < output_len(n, rate),
    ensures
        tap_at(n, rate, i).left is Some,
{
    lemma_ratio_range(rate);
    let r = ratio(rate).mant;
    let t = vstd::arithmetic::power2::pow2((-ratio(rate).exp) as nat);
    let f = float::floor(position(i, rate));
    if rate == 16000 {
        float::lemma_powers();
        float::lemma_nearest_mant(24, 16000, 1);
        float::lemma_ratio_of_equals(24, float::of_int(24, 16000).mant);
        assert(r == t);
        if i > 0 {
            lemma_position_bound(i, rate);
            assert(f < n) by (nonlinear_arith)
                requires
                    f * r * 0x100_0000 <= i * t * 0x100_0001,
                    r == t,
                    r > 0,
                    i < n <= 4_000_000,
            ;
        } else {
            lemma_position_range(0, rate);
            assert(0 * vstd::arithmetic::power2::pow2(0) == 0);
        }
    } else {
        lemma_reach(n, rate, i);
        lemma_ratio_bound(rate);
        assert(r * 0x100_0000 <= 2 * (t * 0x100_0001)) by (nonlinear_arith)
            requires
                r * rate * 0x100_0000 <= 16000 * t * 0x100_0001,
                rate >= 8000,
        ;
        assert(f < n) by (nonlinear_arith)
            requires
                2 * (f * r * 0x1_0000_0000_0000) + r * 0x1_0000_0000_0000 <= 2 * (n * r
                    * 0x1_0000_0200_0001),
                n <= 4_000_000,
                r > 0,
        ;
    }
}

/// First index and end of frame `i` of `len` interleaved samples.
pub open spec fn frame_at(len: nat, channels: nat, i: nat) -> (nat, nat) {
    (i * channels, float::capped((i + 1) * channels, len))
}

/// Splits `len` interleaved samples into frames of `channels` samples, each
/// given by its first index and its end. The last frame may be short.
pub fn frames(len: usize, channels: usize) -> (r: Vec<(usize, usize)>)
    requires
        channels > 0,
    ensures
        r@.len() * channels >= len,
        r@.len() > 0 ==> (r@.len() - 1) * channels < len,
        forall|i: int|
            0 <= i < r@.len() ==> (#[trigger] r@[i]).0 == frame_at(
                len as nat,
                channels as nat,
                i as nat,
            ).0 && r@[i].1 == frame_at(len as nat, channels as nat, i as nat).1,
{
    let mut r: Vec<(usize, usize)> = Vec::new();
    let mut start: usize = 0;
    assert(0 * channels == 0) by (nonlinear_arith);
    while start < len
        invariant
            channels > 0,
            start <= len,
            start < len ==> start == r@.len() * channels,
            r@.len() * channels >= start,
            r@.len() > 0 ==> (r@.len() - 1) * channels < len,
            forall|i: int|
                0 <= i < r@.len() ==> (#[trigger] r@[i]).0 == frame_at(
                    len as nat,
                    channels as nat,
                    i as nat,
                ).0 && r@[i].1 == frame_at(len as nat, channels as nat, i as nat).1,
        decreases len - start,
    {
        let end: usize = if len - start > channels {
            start + channels
        } else {
            len
        };
        assert((r@.len() + 1) * channels == r@.len() * channels + channels) by (nonlinear_arith);
        r.push((start, end));
        start = end;
    }
    r
}

/// How to bring a sound file's interleaved samples to one channel.
#[derive(Debug, PartialEq, Eq)]
pub enum Mixing {
    /// The samples are one channel already.
    Copy,
    /// One output sample for each frame: the sum of its samples divided by the
    /// number of channels.
    Frames(Vec<(usize, usize)>),
}

/// Plans the mixing of `len` interleaved samples to one channel.
pub fn mix_file(len: usize, channels: u16) -> (r: Mixing)
    ensures
        r is Copy <==> channels <= 1,
        r matches Mixing::Frames(v) ==> v@.len() * channels >= len && (v@.len() > 0 ==> (v@.len()
            - 1) * channels < len) && forall|i: int|
            0 <= i < v@.len() ==> (#[trigger] v@[i]).0 == frame_at(
                len as nat,
                channels as nat,
                i as nat,
            ).0 && v@[i].1 == frame_at(len as nat, channels as nat, i as nat).1,
{
    if channels <= 1 {
        Mixing::Copy
    } else {
        Mixing::Frames(frames(len, channels as usize))
    }
}

/// Bit pattern of the sample `v`, whose full scale is `2^(bits - 1)`, as a
/// single-precision number in units of full scale.
pub open spec fn normalized(v: int, bits: nat) -> int {
    if v < 0 {
        0x8000_0000 + float::single_bits(float::Dyadic { mant: (-v) as nat, exp: 1 - bits })
    } else {
        float::single_bits(float::Dyadic { mant: v as nat, exp: 1 - bits })
    }
}

/// Turns an integer sample of `bits` bits into a single-precision bit pattern.
pub fn normalize(v: i32, bits: u16) -> (r: u32)
    requires
        1 <= bits <= 63,
    ensures
        r == normalized(v as int, bits as nat),
{
    let magnitude: u64 = if v < 0 {
        (-(v as i64)) as u64
    } else {
        v as u64
    };
    let pattern: u32 = float::to_single_bits(Float { mant: magnitude, exp: 1 - bits as i32 });
    if v < 0 {
        0x8000_0000 + pattern
    } else {
        pattern
    }
}

/// Samples in the sliding window of eight seconds at `rate`.
pub open spec fn window_len(rate: nat) -> nat {
    float::capped(
        float::floor(
            float::product(24, float::Dyadic { mant: 1, exp: 3 }, float::of_int(24, rate)),
        ),
        usize::MAX as nat,
    )
}

/// Samples in the overlap of one and a half seconds at `rate`.
pub open spec fn overlap_len(rate: nat) -> nat {
    float::capped(
        float::floor(
            float::product(24, float::Dyadic { mant: 3, exp: -1 }, float::of_int(24, rate)),
        ),
        usize::MAX as nat,
    )
}

/// Samples in the sliding window of eight seconds at `rate`.
pub fn window_samples(rate: u32) -> (n: usize)
    ensures
        n == window_len(rate as nat),
{
    let seconds: Float = Float { mant: 1, exp: 3 };
    to_usize(float::multiply(SINGLE, seconds, float::from_int(SINGLE, rate as u64)))
}

/// Samples by which the confirmed part reaches into the window at `rate`.
pub fn overlap_samples(rate: u32) -> (n: usize)
    ensures
        n == overlap_len(rate as nat),
{
    let seconds: Float = Float { mant: 3, exp: -1 };
    to_usize(float::multiply(SINGLE, seconds, float::from_int(SINGLE, rate as u64)))
}

/// A product with an integer that single precision holds is exact when the
/// product of the mantissas fits too.
proof fn lemma_exact_product(c: nat, k: int, n: nat)
    requires
        0 < c,
        0 < n < 0x100_0000,
        c * n < 0x100_0000,
    ensures
        float::floor(
            float::product(24, float::Dyadic { mant: c, exp: k }, float::of_int(24, n)),
        ) == float::floor(float::Dyadic { mant: c * n, exp: k }),
{
    vstd::arithmetic::power2::lemma2_to64();
    float::lemma_exact(24, n);
    let f = float::of_int(24, n);
    let j = (-f.exp) as nat;
    let t = vstd::arithmetic::power2::pow2(j);
    assert(f.mant == n * t);
    assert(c * (n * t) == (c * n) * t) by (nonlinear_arith);
    assert(c * n > 0) by (nonlinear_arith)
        requires
            c > 0,
            n > 0,
    ;
    float::lemma_nearest_shift(24, c * n, 1, j);
    float::lemma_exact(24, c * n);
    let g = float::nearest(24, c * n, 1);
    let i = (-g.exp) as nat;
    float::lemma_nearest_mant(24, c * n, 1);
    float::lemma_floor_shift(c * n, k, i);
}

/// At every sample rate that single precision holds exactly, the window is
/// eight seconds long.
pub proof fn window_is_eight_seconds(rate: nat)
    requires
        rate < 0x100_0000,
    ensures
        window_len(rate) == 8 * rate,
{
    vstd::arithmetic::power2::lemma2_to64();
    if rate > 0 {
        lemma_exact_product(1, 3, rate);
        assert(rate * vstd::arithmetic::power2::pow2(3) == 8 * rate) by (nonlinear_arith)
            requires
                vstd::arithmetic::power2::pow2(3) == 8,
        ;
    }
}

/// At every sample rate of which single precision holds three halves, the
/// overlap is one and a half seconds long, less half a sample where that is no
/// whole number.
pub proof fn overlap_is_three_half_seconds(rate: nat)
    requires
        3 * rate < 0x100_0000,
    ensures
        overlap_len(rate) == 3 * rate / 2,
{
    vstd::arithmetic::power2::lemma2_to64();
    if rate > 0 {
        lemma_exact_product(3, -1, rate);
    }
}

/// At every sample rate the overlap fits into the window.
pub proof fn overlap_within_window(rate: nat)
    requires
        rate <= u32::MAX,
    ensures
        overlap_len(rate) <= window_len(rate),
{
    vstd::arithmetic::power2::lemma2_to64();
    if rate > 0 {
        float::lemma_nearest_mant(24, rate, 1);
        let f = float::of_int(24, rate);
        float::lemma_exact(24, f.mant);
        let w = float::nearest(24, f.mant, 1);
        float::lemma_floor_shift(f.mant, f.exp + 3, (-w.exp) as nat);
        float::lemma_nearest_mant(24, f.mant, 1);
        let o = float::nearest(24, 3 * f.mant, 1);
        float::lemma_nearest_mant(24, 3 * f.mant, 1);
        float::lemma_int_exp(24, 3 * f.mant, 26);
        float::lemma_nearest_at_most_double(24, 3 * f.mant);
        let v = o.mant * vstd::arithmetic::power2::pow2(o.exp as nat);
        float::lemma_floor_shift(o.mant, o.exp + f.exp - 1, o.exp as nat);
        float::lemma_floor_mono(v, f.mant * 16, f.exp - 1);
        float::lemma_floor_shift(f.mant, f.exp + 3, 4);
    }
}

/// The ratio of the rates is right to three roundings.
proof fn lemma_ratio_near(rate: nat)
    requires
        0 < rate <= u32::MAX,
    ensures
        ratio(rate).mant > 0,
        float::is_within(
            float::top(ratio(rate)),
            float::bottom(ratio(rate)),
            16000,
            rate,
            0x100_0000 * (0x100_0000 * 0x100_0000),
            0xff_ffff * (0xff_ffff * 0xff_ffff),
        ),
{
    float::lemma_powers();
    lemma_ratio_range(rate);
    let x = float::of_int(24, 16000);
    let y = float::of_int(24, rate);
    float::lemma_nearest_mant(24, 16000, 1);
    float::lemma_nearest_mant(24, rate, 1);
    float::lemma_nearest_within(24, 16000, 1);
    float::lemma_nearest_within(24, rate, 1);
    float::lemma_quotient_within(
        24,
        x,
        y,
        16000,
        1,
        0x100_0000,
        0xff_ffff,
        rate,
        1,
        0x100_0000,
        0xff_ffff,
    );
    assert(16000nat * 1 == 16000 && 1 * rate == rate);
}

/// The length follows the rates: `len` samples at `rate` become `len * 16000 /
/// rate`, cut to an integer and right to one part in two million, unless a
/// `usize` cannot hold that.
pub proof fn length_follows_the_rates(len: nat, rate: nat)
    requires
        len <= usize::MAX,
        0 < rate <= u32::MAX,
    ensures
        output_len(len, rate) * rate * 0x20_0000 <= len * 16000 * 0x20_0001,
        output_len(len, rate) == usize::MAX || len * 16000 * 0x20_0000 < (output_len(len, rate) + 1)
            * rate * 0x20_0001,
{
    let l = output_len(len, rate);
    if rate == 16000 {
        assert(l * rate * 0x20_0000 <= len * 16000 * 0x20_0001 && len * 16000 * 0x20_0000 < (l + 1)
            * rate * 0x20_0001) by (nonlinear_arith)
            requires
                l == len,
                rate == 16000,
        ;
    } else if len == 0 {
        assert(0 * rate * 0x20_0000 == 0) by (nonlinear_arith);
        assert((0 + 1) * rate * 0x20_0001 > 0) by (nonlinear_arith)
            requires
                rate > 0,
        ;
    } else {
        float::lemma_powers();
        let x = float::of_int(24, len);
        let r = ratio(rate);
        float::lemma_nearest_mant(24, len, 1);
        float::lemma_nearest_within(24, len, 1);
        lemma_ratio_near(rate);
        let a3: nat = 0x100_0000 * (0x100_0000 * 0x100_0000);
        let b3: nat = 0xff_ffff * (0xff_ffff * 0xff_ffff);
        float::lemma_product_within(
            24,
            x,
            r,
            len,
            1,
            0x100_0000,
            0xff_ffff,
            16000,
            rate,
            a3,
            b3,
        );
        let d = float::product(24, x, r);
        assert(1 * rate == rate);
        float::lemma_loosen(
            float::top(d),
            float::bottom(d),
            len * 16000,
            rate,
            0x100_0000 * (0x100_0000 * a3),
            0xff_ffff * (0xff_ffff * b3),
            0x20_0001,
            0x20_0000,
        );
        float::lemma_floor_near(d, len * 16000, rate, 0x20_0001, 0x20_0000);
        let f = float::floor(d);
        assert(l * rate * 0x20_0000 <= f * rate * 0x20_0000) by (nonlinear_arith)
            requires
                l <= f,
        ;
    }
}

/// The position of an output sample is right to five roundings.
proof fn lemma_position_near(i: nat, rate: nat)
    requires
        0 < rate <= u32::MAX,
    ensures
        float::is_within(
            float::top(position(i, rate)),
            float::bottom(position(i, rate)),
            i * rate,
            16000,
            0x20_0001,
            0x20_0000,
        ),
{
    float::lemma_powers();
    lemma_ratio_near(rate);
    let r = ratio(rate);
    let d = position(i, rate);
    if i == 0 {
        assert(d.mant == 0);
        let b = float::bottom(d);
        assert(0 * float::up(d.exp) == 0 && 0 * rate == 0) by (nonlinear_arith);
        assert(0 * 16000 * 0x20_0000 <= 0 * b * 0x20_0001 && 0 * b * 0x20_0000 <= 0 * 16000
            * 0x20_0001) by (nonlinear_arith);
    } else {
        let x = float::of_int(24, i);
        float::lemma_nearest_mant(24, i, 1);
        float::lemma_nearest_within(24, i, 1);
        let a3: nat = 0x100_0000 * (0x100_0000 * 0x100_0000);
        let b3: nat = 0xff_ffff * (0xff_ffff * 0xff_ffff);
        float::lemma_quotient_within(
            24,
            x,
            r,
            i,
            1,
            0x100_0000,
            0xff_ffff,
            16000,
            rate,
            a3,
            b3,
        );
        float::lemma_loosen(
            float::top(d),
            float::bottom(d),
            i * rate,
            1 * 16000,
            0x100_0000 * (0x100_0000 * a3),
            0xff_ffff * (0xff_ffff * b3),
            0x20_0001,
            0x20_0000,
        );
    }
}

/// A tap's index and weight are together the position of its output sample.
proof fn lemma_tap_is_position(i: nat, rate: nat)
    requires
        0 < rate <= u32::MAX,
        i <= usize::MAX,
    ensures
        ({
            let d = position(i, rate);
            let k = float::floor(d);
            let bits = float::single_bits(float::fraction(d));
            let w = float::of_bits(bits);
            &&& 0 <= bits < 0x3f80_0000
            &&& float::top(w) < float::bottom(w)
            &&& (k * float::bottom(w) + float::top(w)) * float::bottom(d) == float::top(d)
                * float::bottom(w)
        }),
{
    lemma_position_range(i, rate);
    weights_are_below_one(0, rate, i);
    float::lemma_powers();
    let d = position(i, rate);
    let k = float::floor(d);
    let bits = float::single_bits(float::fraction(d));
    let w = float::of_bits(bits);
    if d.exp >= 0 {
        assert(0 * float::up(0) == 0);
        assert((k * 1 + 0) * 1 == k) by (nonlinear_arith);
        assert(k == float::top(d));
        assert(float::top(d) * 1 == float::top(d));
    } else {
        let u = vstd::arithmetic::power2::pow2((-d.exp) as nat);
        vstd::arithmetic::power2::lemma_pow2_pos((-d.exp) as nat);
        vstd::arithmetic::div_mod::lemma_fundamental_div_mod(d.mant as int, u as int);
        vstd::arithmetic::div_mod::lemma_mod_bound(d.mant as int, u as int);
        let r = d.mant % u;
        assert(float::top(d) == d.mant) by (nonlinear_arith)
            requires
                float::top(d) == d.mant * 1,
        ;
        assert(u * k == k * u) by (nonlinear_arith);
        if r == 0 {
            assert(0 * float::up(0) == 0);
            assert((k * 1 + 0) * u == k * u) by (nonlinear_arith);
            assert(d.mant * 1 == d.mant);
        } else {
            vstd::arithmetic::div_mod::lemma_mod_decreases(d.mant, u);
            float::lemma_exact(24, r);
            float::lemma_nearest_mant(24, r, 1);
            let z = float::nearest(24, r, 1);
            float::lemma_bits_round_trip(float::Dyadic { mant: r, exp: d.exp });
            let j = (-z.exp) as nat;
            let t = vstd::arithmetic::power2::pow2(j);
            vstd::arithmetic::power2::lemma_pow2_pos(j);
            vstd::arithmetic::power2::lemma_pow2_adds((-d.exp) as nat, j);
            assert(w == (float::Dyadic { mant: r * t, exp: d.exp - j }));
            assert(float::top(w) == r * t) by (nonlinear_arith)
                requires
                    float::top(w) == (r * t) * 1,
            ;
            assert(float::bottom(w) == u * t);
            assert(r * t < u * t) by (nonlinear_arith)
                requires
                    r < u,
                    t > 0,
            ;
            assert((k * (u * t) + r * t) * u == (k * u + r) * (u * t)) by (nonlinear_arith);
        }
    }
}

/// A tap reads the place in the input that belongs to its output sample. Its
/// left index and its weight together, the weight being less than one, are `i *
/// rate / 16000`, right to one part in two million; the right index is the next
/// one, where there is one. A tap reads nothing only where that place is beyond
/// the input.
pub proof fn taps_follow_time(len: nat, rate: nat, i: nat)
    requires
        len <= usize::MAX,
        0 < rate <= u32::MAX,
        i <= usize::MAX,
    ensures
        ({
            let tap = tap_at(len, rate, i);
            let weight = float::of_bits(tap.frac as int);
            let (n, d) = (float::top(weight), float::bottom(weight));
            &&& n < d
            &&& tap.left matches Some(k) ==> {
                &&& k < len
                &&& (k * d + n) * 16000 * 0x20_0000 <= i * rate * d * 0x20_0001
                &&& i * rate * d * 0x20_0000 <= (k * d + n) * 16000 * 0x20_0001
                &&& k + 1 < len ==> tap.right == Some((k + 1) as usize)
                &&& k + 1 >= len ==> tap.right is None
            }
            &&& tap.left is None ==> tap.right is None && len * 16000 * 0x20_0000 <= i * rate
                * 0x20_0001
        }),
{
    lemma_position_near(i, rate);
    lemma_tap_near(len, rate, i, 0x20_0001, 0x20_0000);
}

/// Two writings of a fraction are near to the same.
proof fn lemma_replace_fraction(v: nat, d: nat, t: nat, b: nat, q: nat, c: nat, e: nat)
    requires
        v * b == t * d,
        b > 0,
        float::is_within(t, b, q, 16000, c, e),
    ensures
        v * 16000 * e <= q * d * c,
        q * d * e <= v * 16000 * c,
{
    assert((t * 16000 * e) * d <= (q * b * c) * d) by (nonlinear_arith)
        requires
            t * 16000 * e <= q * b * c,
    ;
    assert((q * b * e) * d <= (t * 16000 * c) * d) by (nonlinear_arith)
        requires
            q * b * e <= t * 16000 * c,
    ;
    assert((t * 16000 * e) * d == (t * d) * (16000 * e)) by (nonlinear_arith);
    assert((t * 16000 * c) * d == (t * d) * (16000 * c)) by (nonlinear_arith);
    assert((v * b) * (16000 * e) == b * (v * 16000 * e)) by (nonlinear_arith);
    assert((v * b) * (16000 * c) == b * (v * 16000 * c)) by (nonlinear_arith);
    assert((q * b * c) * d == b * (q * d * c)) by (nonlinear_arith);
    assert((q * b * e) * d == b * (q * d * e)) by (nonlinear_arith);
    let (l1, r1, l2, r2) = (v * 16000 * e, q * d * c, q * d * e, v * 16000 * c);
    assert(l1 <= r1 && l2 <= r2) by (nonlinear_arith)
        requires
            b * l1 <= b * r1,
            b * l2 <= b * r2,
            b > 0,
    ;
}

/// A tap is as near to its place as its position is.
proof fn lemma_tap_near(len: nat, rate: nat, i: nat, c: nat, e: nat)
    requires
        len <= usize::MAX,
        0 < rate <= u32::MAX,
        i <= usize::MAX,
        c > 0,
        float::is_within(
            float::top(position(i, rate)),
            float::bottom(position(i, rate)),
            i * rate,
            16000,
            c,
            e,
        ),
    ensures
        ({
            let tap = tap_at(len, rate, i);
            let weight = float::of_bits(tap.frac as int);
            let (n, d) = (float::top(weight), float::bottom(weight));
            &&& n < d
            &&& tap.left matches Some(k) ==> (k * d + n) * 16000 * e <= i * rate * d * c && i * rate
                * d * e <= (k * d + n) * 16000 * c
            &&& tap.left is None ==> len * 16000 * e <= i * rate * c
        }),
{
    let tap = tap_at(len, rate, i);
    let p = position(i, rate);
    let f = float::floor(p);
    lemma_tap_is_position(i, rate);
    float::lemma_powers();
    let w = float::of_bits(tap.frac as int);
    let (n, d) = (float::top(w), float::bottom(w));
    let (t, b) = (float::top(p), float::bottom(p));
    let q = i * rate;
    vstd::arithmetic::power2::lemma_pow2_pos((-p.exp) as nat);
    if f < len {
        lemma_replace_fraction(f * d + n, d, t, b, q, c, e);
    } else {
        float::lemma_floor_near(p, q, 16000, c, e);
        assert(len * 16000 * e <= f * 16000 * e) by (nonlinear_arith)
            requires
                len <= f,
        ;
    }
}

/// The ratio of the rates is right to one rounding where single precision holds
/// the rate.
proof fn lemma_ratio_close(rate: nat)
    requires
        0 < rate < 0x100_0000,
    ensures
        ratio(rate).mant > 0,
        float::is_within(
            float::top(ratio(rate)),
            float::bottom(ratio(rate)),
            16000,
            rate,
            0x100_0000,
            0xff_ffff,
        ),
{
    float::lemma_powers();
    lemma_ratio_range(rate);
    let x = float::of_int(24, 16000);
    let y = float::of_int(24, rate);
    let r = ratio(rate);
    float::lemma_nearest_mant(24, 16000, 1);
    float::lemma_nearest_mant(24, rate, 1);
    float::lemma_exact_within(24, 16000);
    float::lemma_exact_within(24, rate);
    float::lemma_quotient_within(24, x, y, 16000, 1, 1, 1, rate, 1, 1, 1);
    assert(16000nat * 1 == 16000 && 1 * rate == rate);
    float::lemma_loosen(
        float::top(r),
        float::bottom(r),
        16000,
        rate,
        0x100_0000 * (1 * 1),
        0xff_ffff * (1 * 1),
        0x100_0000,
        0xff_ffff,
    );
}

/// For lengths and rates that single precision holds, the length is right to one
/// part in eight million.
pub proof fn length_follows_the_rates_closely(len: nat, rate: nat)
    requires
        len < 0x100_0000,
        0 < rate < 0x100_0000,
    ensures
        output_len(len, rate) * rate * 0x7f_ffff <= len * 16000 * 0x80_0000,
        output_len(len, rate) == usize::MAX || len * 16000 * 0x7f_ffff < (output_len(len, rate) + 1)
            * rate * 0x80_0000,
{
    let l = output_len(len, rate);
    if rate == 16000 {
        assert(l * rate * 0x7f_ffff <= len * 16000 * 0x80_0000 && len * 16000 * 0x7f_ffff < (l + 1)
            * rate * 0x80_0000) by (nonlinear_arith)
            requires
                l == len,
                rate == 16000,
        ;
    } else if len == 0 {
        assert(0 * rate * 0x7f_ffff == 0) by (nonlinear_arith);
        assert((0 + 1) * rate * 0x80_0000 > 0) by (nonlinear_arith)
            requires
                rate > 0,
        ;
    } else {
        float::lemma_powers();
        let x = float::of_int(24, len);
        let r = ratio(rate);
        float::lemma_nearest_mant(24, len, 1);
        float::lemma_exact_within(24, len);
        lemma_ratio_close(rate);
        float::lemma_product_within(24, x, r, len, 1, 1, 1, 16000, rate, 0x100_0000, 0xff_ffff);
        let d = float::product(24, x, r);
        assert(1 * rate == rate);
        float::lemma_loosen(
            float::top(d),
            float::bottom(d),
            len * 16000,
            rate,
            0x100_0000 * (1 * 0x100_0000),
            0xff_ffff * (1 * 0xff_ffff),
            0x80_0000,
            0x7f_ffff,
        );
        float::lemma_floor_near(d, len * 16000, rate, 0x80_0000, 0x7f_ffff);
        let f = float::floor(d);
        assert(l * rate * 0x7f_ffff <= f * rate * 0x7f_ffff) by (nonlinear_arith)
            requires
                l <= f,
        ;
    }
}

/// For output samples and rates that single precision holds, a tap's left index
/// and weight together are `i * rate / 16000`, right to one part in eight
/// million.
pub proof fn taps_follow_time_closely(len: nat, rate: nat, i: nat)
    requires
        len <= usize::MAX,
        0 < rate < 0x100_0000,
        i < 0x100_0000,
    ensures
        ({
            let tap = tap_at(len, rate, i);
            let weight = float::of_bits(tap.frac as int);
            let (n, d) = (float::top(weight), float::bottom(weight));
            &&& tap.left matches Some(k) ==> (k * d + n) * 16000 * 0x7f_ffff <= i * rate * d
                * 0x80_0000 && i * rate * d * 0x7f_ffff <= (k * d + n) * 16000 * 0x80_0000
            &&& tap.left is None ==> len * 16000 * 0x7f_ffff <= i * rate * 0x80_0000
        }),
{
    float::lemma_powers();
    lemma_ratio_close(rate);
    let r = ratio(rate);
    let p = position(i, rate);
    if i == 0 {
        assert(p.mant == 0);
        let b = float::bottom(p);
        assert(0 * float::up(p.exp) == 0 && 0 * rate == 0) by (nonlinear_arith);
        assert(0 * 16000 * 0x7f_ffff <= 0 * b * 0x80_0000 && 0 * b * 0x7f_ffff <= 0 * 16000
            * 0x80_0000) by (nonlinear_arith);
    } else {
        let x = float::of_int(24, i);
        float::lemma_nearest_mant(24, i, 1);
        float::lemma_exact_within(24, i);
        float::lemma_quotient_within(24, x, r, i, 1, 1, 1, 16000, rate, 0x100_0000, 0xff_ffff);
        float::lemma_loosen(
            float::top(p),
            float::bottom(p),
            i * rate,
            1 * 16000,
            0x100_0000 * (1 * 0x100_0000),
            0xff_ffff * (1 * 0xff_ffff),
            0x80_0000,
            0x7f_ffff,
        );
    }
    lemma_tap_near(len, rate, i, 0x80_0000, 0x7f_ffff);
}

/// Resampled audio never goes backwards: of two output samples the later one
/// does not read from an earlier place, and once one reads beyond the input so
/// do all after it.
pub proof fn taps_keep_time_order(len: nat, rate: nat, i: nat, j: nat)
    requires
        len <= usize::MAX,
        0 < rate <= u32::MAX,
        i <= j,
    ensures
        tap_at(len, rate, i).left is None ==> tap_at(len, rate, j).left is None,
        tap_at(len, rate, i).left matches Some(k) ==> (tap_at(len, rate, j).left matches Some(l)
            ==> k <= l),
{
    resampling_keeps_time_order(i, j, rate);
}

/// At every rate from 32 kHz on, each output sample is made from two samples
/// that lie side by side.
pub proof fn every_tap_has_two_samples(n: nat, rate: nat, i: nat)
    requires
        32000 <= rate < 0x100_0000,
        n <= 8_000_000,
        i < output_len(n, rate),
    ensures
        tap_at(n, rate, i).left matches Some(k) && tap_at(n, rate, i).right == Some(
            (k + 1) as usize,
        ),
{
    lemma_two_inside(n, rate, i);
}

/// Frames lie end to end, from the first sample to the last; each has as many
/// samples as there are channels, but for the last, which may have fewer.
pub proof fn frames_lie_end_to_end(len: nat, channels: nat, i: nat)
    requires
        channels > 0,
        i * channels < len,
    ensures
        ({
            let (start, end) = frame_at(len, channels, i);
            &&& i == 0 ==> start == 0
            &&& start < end <= len
            &&& end - start == channels || (end == len && end - start < channels)
            &&& end < len ==> frame_at(len, channels, i + 1).0 == end
        }),
{
    assert((i + 1) * channels == i * channels + channels) by (nonlinear_arith);
    assert(0 * channels == 0) by (nonlinear_arith);
}

/// A sample keeps its sign, and its value is `v / 2^(bits - 1)`: exactly where
/// single precision holds `v`, and else right to one part in `2^24`.
pub proof fn samples_keep_their_value(v: int, bits: nat)
    requires
        i32::MIN <= v <= i32::MAX,
        1 <= bits <= 63,
    ensures
        ({
            let r = normalized(v, bits);
            let magnitude = if v < 0 {
                (-v) as nat
            } else {
                v as nat
            };
            let value = float::of_bits(r % 0x8000_0000);
            let (n, d) = (float::top(value), float::bottom(value));
            let scale = vstd::arithmetic::power2::pow2((bits - 1) as nat);
            &&& 0 <= r <= u32::MAX
            &&& r >= 0x8000_0000 <==> v < 0
            &&& n * scale * 0xff_ffff <= magnitude * d * 0x100_0000
            &&& magnitude * d * 0xff_ffff <= n * scale * 0x100_0000
            &&& magnitude < 0x100_0000 ==> n * scale == magnitude * d
        }),
{
    float::lemma_powers();
    vstd::arithmetic::power2::lemma2_to64();
    let m = if v < 0 {
        (-v) as nat
    } else {
        v as nat
    };
    let r = normalized(v, bits);
    let scale = vstd::arithmetic::power2::pow2((bits - 1) as nat);
    let k = 1 - bits;
    if m == 0 {
        let value = float::of_bits(r % 0x8000_0000);
        assert(0 * float::up(0) == 0);
        assert(0 * scale == 0 && 0 * scale * 0xff_ffff == 0) by (nonlinear_arith);
    } else {
        let d = float::Dyadic { mant: m, exp: k };
        let z = float::nearest(24, m, 1);
        float::lemma_int_exp(24, m, 32);
        float::lemma_nearest_mant(24, m, 1);
        float::lemma_bits_round_trip(d);
        float::lemma_nearest_within(24, m, 1);
        float::lemma_scaled_near(z, k, m, 1, 0x100_0000, 0xff_ffff);
        let value = float::scaled(z, k);
        assert(r % 0x8000_0000 == float::single_bits(d));
        assert(float::up(k) == 1 && float::down(k) == scale);
        let (t, b) = (float::top(value), float::bottom(value));
        assert(m * 1 == m && 1 * scale == scale) by (nonlinear_arith);
        if m < 0x100_0000 {
            float::lemma_exact_within(24, m);
            float::lemma_scaled_near(z, k, m, 1, 1, 1);
            assert(t * scale * 1 == t * scale && m * b * 1 == m * b) by (nonlinear_arith);
        }
    }
}

/// At every rate the window is eight seconds and the overlap one and a half, cut
/// to an integer and right to one part in four million, unless a `usize` cannot
/// hold that.
pub proof fn window_and_overlap_follow_the_rate(rate: nat)
    requires
        rate <= u32::MAX,
    ensures
        window_len(rate) * 0x40_0000 <= 8 * rate * 0x40_0001,
        window_len(rate) == usize::MAX || 8 * rate * 0x40_0000 < (window_len(rate) + 1) * 0x40_0001,
        overlap_len(rate) * 2 * 0x40_0000 <= 3 * rate * 0x40_0001,
        overlap_len(rate) == usize::MAX || 3 * rate * 0x40_0000 < (overlap_len(rate) + 1) * 2
            * 0x40_0001,
{
    float::lemma_powers();
    vstd::arithmetic::power2::lemma2_to64();
    let eight = float::Dyadic { mant: 1, exp: 3 };
    let three_halves = float::Dyadic { mant: 3, exp: -1 };
    let x = float::of_int(24, rate);
    let w = float::product(24, eight, x);
    let o = float::product(24, three_halves, x);
    if rate == 0 {
        assert(1 * 0 == 0 && 3 * 0 == 0) by (nonlinear_arith);
        assert(w.mant == 0 && o.mant == 0);
        assert(0 * vstd::arithmetic::power2::pow2(0) == 0);
    } else {
        float::lemma_nearest_mant(24, rate, 1);
        float::lemma_nearest_within(24, rate, 1);
        assert(float::top(eight) == 8 && float::bottom(eight) == 1);
        assert(float::top(three_halves) == 3 && float::bottom(three_halves) == 2);
        float::lemma_product_within(
            24,
            eight,
            x,
            8,
            1,
            1,
            1,
            rate,
            1,
            0x100_0000,
            0xff_ffff,
        );
        float::lemma_product_within(
            24,
            three_halves,
            x,
            3,
            2,
            1,
            1,
            rate,
            1,
            0x100_0000,
            0xff_ffff,
        );
        float::lemma_loosen(
            float::top(w),
            float::bottom(w),
            8 * rate,
            1 * 1,
            0x100_0000 * (1 * 0x100_0000),
            0xff_ffff * (1 * 0xff_ffff),
            0x40_0001,
            0x40_0000,
        );
        float::lemma_loosen(
            float::top(o),
            float::bottom(o),
            3 * rate,
            2 * 1,
            0x100_0000 * (1 * 0x100_0000),
            0xff_ffff * (1 * 0xff_ffff),
            0x40_0001,
            0x40_0000,
        );
        float::lemma_floor_near(w, 8 * rate, 1, 0x40_0001, 0x40_0000);
        float::lemma_floor_near(o, 3 * rate, 2, 0x40_0001, 0x40_0000);
    }
}

} // verus!
