//! Mixdown, windowing arithmetic, linear resampling, peak normalization and
//! 16-bit quantization of integer audio samples.
use vstd::prelude::*;
use vstd::arithmetic::div_mod::{lemma_div_is_ordered, lemma_div_multiples_vanish};

verus! {

/// The largest value of a quantized sample.
pub const SAMPLE_MAX: i16 = 32767;

/// Floor of the mean of two samples.
pub open spec fn mean2(a: int, b: int) -> int {
    (a + b) / 2
}

/// Stereo input of even length becomes one sample per pair; any other input
/// is taken as mono already.
pub open spec fn mixdown_spec(data: Seq<i32>, channels: u16) -> Seq<i32> {
    if channels == 2 && data.len() % 2 == 0 {
        Seq::new(data.len() / 2, |k: int| mean2(data[2 * k] as int, data[2 * k + 1] as int) as i32)
    } else {
        data
    }
}

proof fn lemma_mul_div_le(d: int, r: int, t: int)
    requires
        0 <= d,
        0 <= r <= t,
        0 < t,
    ensures
        0 <= d * r / t <= d,
{
    assert(0 <= d * r <= d * t) by (nonlinear_arith)
        requires
            0 <= d,
            0 <= r <= t,
    ;
    lemma_div_is_ordered(0, d * r, t);
    lemma_div_is_ordered(d * r, d * t, t);
    lemma_div_multiples_vanish(d, t);
    assert(d * t == t * d) by (nonlinear_arith);
}

/// Averages the two channels of interleaved stereo samples into mono; other
/// input passes through unchanged.
pub fn mixdown(data: &[i32], channels: u16) -> (r: Vec<i32>)
    ensures
        r@ == mixdown_spec(data@, channels),
        channels == 2 && data@.len() % 2 == 0 ==> r@.len() == data@.len() / 2,
{
    let n = data.len();
    let mut out: Vec<i32> = Vec::new();
    if channels == 2 && n % 2 == 0 {
        let half = n / 2;
        let mut k: usize = 0;
        while k < half
            invariant
                half == n / 2,
                n == data@.len(),
                n % 2 == 0,
                k <= half,
                out@ =~= mixdown_spec(data@, channels).take(k as int),
                channels == 2,
            decreases half - k,
        {
            let a = data[2 * k];
            let b = data[2 * k + 1];
            // offset into the naturals so that halving floors
            let s: u64 = (a as i64 + b as i64 + 4294967296i64) as u64;
            let m: i64 = (s / 2) as i64 - 2147483648i64;
            assert(m == mean2(a as int, b as int));
            out.push(m as i32);
            k = k + 1;
        }
        out
    } else {
        let mut k: usize = 0;
        while k < n
            invariant
                n == data@.len(),
                k <= n,
                out@ =~= data@.take(k as int),
            decreases n - k,
        {
            out.push(data[k]);
            k = k + 1;
        }
        out
    }
}

/// Number of samples that one second at the target rate takes at the input
/// rate.
pub open spec fn window_len(target_rate: int, input_rate: int) -> int {
    target_rate * input_rate / target_rate
}

/// Size of one input window: one second at the target rate, measured in
/// samples at the input rate.
pub fn input_window_size(target_rate: u32, input_rate: u32) -> (r: usize)
    requires
        target_rate > 0,
    ensures
        r == window_len(target_rate as int, input_rate as int),
        r == input_rate,
{
    assert(target_rate * input_rate <= 0xffff_ffff * 0xffff_ffff) by (nonlinear_arith)
        requires target_rate <= 0xffff_ffff, input_rate <= 0xffff_ffff;
    let p: u64 = target_rate as u64 * input_rate as u64;
    proof {
        lemma_div_multiples_vanish(input_rate as int, target_rate as int);
    }
    (p / target_rate as u64) as usize
}

/// Number of output positions `k` with `k * input_rate < n * target_rate`.
pub open spec fn resampled_len(n: int, input_rate: int, target_rate: int) -> int {
    (n * target_rate + input_rate - 1) / input_rate
}

/// Linear interpolation from `c` towards `d` by `r / t`, rounded toward `c`.
pub open spec fn lerp(c: int, d: int, r: int, t: int) -> int {
    if d >= c {
        c + (d - c) * r / t
    } else {
        c - (c - d) * r / t
    }
}

/// The `k`-th resampled value: output position `k` stands at input index
/// `k * input_rate / target_rate`, between its floor sample and the next one
/// (the last sample where there is no next).
pub open spec fn resample_at(chunk: Seq<i32>, input_rate: int, target_rate: int, k: int) -> int {
    let p = k * input_rate;
    let i = p / target_rate;
    let next = if i + 1 < chunk.len() { chunk[i + 1] } else { chunk[i] };
    lerp(chunk[i] as int, next as int, p % target_rate, target_rate)
}

pub open spec fn resample_spec(chunk: Seq<i32>, input_rate: int, target_rate: int) -> Seq<i32> {
    Seq::new(
        resampled_len(chunk.len() as int, input_rate, target_rate) as nat,
        |k: int| resample_at(chunk, input_rate, target_rate, k) as i32,
    )
}

proof fn lemma_lerp_between(c: int, d: int, r: int, t: int)
    requires
        0 <= r < t,
    ensures
        c <= d ==> c <= lerp(c, d, r, t) <= d,
        d <= c ==> d <= lerp(c, d, r, t) <= c,
{
    if d >= c {
        lemma_mul_div_le(d - c, r, t);
    } else {
        lemma_mul_div_le(c - d, r, t);
    }
}

proof fn lemma_ceil_div(x: int, q: int, d: int)
    requires
        0 < d,
        0 <= x,
        0 <= q,
        q * d >= x,
        q == 0 || (q - 1) * d < x,
    ensures
        q == (x + d - 1) / d,
{
    if q == 0 {
        assert(x == 0) by (nonlinear_arith)
            requires q == 0, q * d >= x, x >= 0;
        lemma_div_is_ordered(0, d - 1, d);
        assert((d - 1) / d == 0) by {
            vstd::arithmetic::div_mod::lemma_basic_div(d - 1, d);
        }
    } else {
        let r = x + d - 1 - (q * d);
        assert(0 <= r < d) by (nonlinear_arith)
            requires
                r == x + d - 1 - (q * d),
                q * d >= x,
                (q - 1) * d < x,
        ;
        vstd::arithmetic::div_mod::lemma_fundamental_div_mod_converse(x + d - 1, d, q, r);
    }
}

proof fn lemma_product_fits(a: int, b: int)
    requires
        0 <= a <= 0xffff_ffff,
        0 <= b <= 0xffff_ffff_ffff_ffff,
    ensures
        a * b <= 0xffff_ffff * 0xffff_ffff_ffff_ffff,
{
    assert(a * b <= 0xffff_ffff * 0xffff_ffff_ffff_ffff) by (nonlinear_arith)
        requires
            0 <= a <= 0xffff_ffff,
            0 <= b <= 0xffff_ffff_ffff_ffff,
    ;
}

fn lerp_exec(c: i32, d: i32, r: u64, t: u64) -> (v: i32)
    requires
        r < t,
    ensures
        v == lerp(c as int, d as int, r as int, t as int),
{
    proof {
        lemma_lerp_between(c as int, d as int, r as int, t as int);
    }
    if d >= c {
        let diff: u64 = (d as i64 - c as i64) as u64;
        proof {
            lemma_product_fits(diff as int, r as int);
        }
        let q: u128 = (diff as u128 * r as u128) / t as u128;
        (c as i64 + q as i64) as i32
    } else {
        let diff: u64 = (c as i64 - d as i64) as u64;
        proof {
            lemma_product_fits(diff as int, r as int);
        }
        let q: u128 = (diff as u128 * r as u128) / t as u128;
        (c as i64 - q as i64) as i32
    }
}

/// Resamples one chunk by linear interpolation, walking the input in steps of
/// `input_rate / target_rate` samples.
pub fn resample(chunk: &[i32], input_rate: u32, target_rate: u32) -> (r: Vec<i32>)
    requires
        input_rate > 0,
        target_rate > 0,
        chunk@.len() * target_rate <= usize::MAX,
    ensures
        r@ == resample_spec(chunk@, input_rate as int, target_rate as int),
{
    let n = chunk.len();
    let tr = target_rate as u128;
    let ir = input_rate as u128;
    assert(n * tr < 0x1_0000_0000_0000_0000 * 0x1_0000_0000) by (nonlinear_arith)
        requires n < 0x1_0000_0000_0000_0000, tr < 0x1_0000_0000;
    let limit: u128 = n as u128 * tr;
    let mut out: Vec<i32> = Vec::new();
    let mut pos: u128 = 0;
    let mut k: usize = 0;
    while pos < limit
        invariant
            n == chunk@.len(),
            tr == target_rate,
            ir == input_rate,
            ir > 0,
            tr > 0,
            limit == n * tr,
            pos == k * ir,
            k == 0 || (k - 1) * ir < limit,
            out@.len() == k,
            forall|j: int| 0 <= j < k ==> out@[j] as int == resample_at(chunk@, ir as int, tr as int, j),
            limit < 0x1_0000_0000_0000_0000 * 0x1_0000_0000,
            limit <= usize::MAX,
            k <= pos,
        decreases limit + ir - pos,
    {
        let q: u128 = pos / tr;
        assert(q < n) by {
            lemma_div_is_ordered(pos as int, (n * tr - 1) as int, tr as int);
            assert((n - 1) * tr + (tr - 1) == n * tr - 1) by (nonlinear_arith);
            vstd::arithmetic::div_mod::lemma_fundamental_div_mod_converse((n * tr - 1) as int, tr as int, (n - 1) as int, (tr - 1) as int);
        }
        let i = q as usize;
        let rem = (pos % tr) as u64;
        let cur = chunk[i];
        let next = if i + 1 < n { chunk[i + 1] } else { cur };
        let v = lerp_exec(cur, next, rem, target_rate as u64);
        out.push(v);
        assert(k * ir < 0x1_0000_0000_0000_0000 * 0x1_0000_0000) by (nonlinear_arith)
            requires k * ir == pos, pos < limit, limit == n * tr, n < 0x1_0000_0000_0000_0000, tr < 0x1_0000_0000;
        assert(k <= k * ir) by (nonlinear_arith)
            requires ir > 0, k >= 0;
        pos = pos + ir;
        k = k + 1;
        assert(pos == k * ir) by (nonlinear_arith)
            requires pos == (k - 1) * ir + ir;
        assert(k <= pos) by (nonlinear_arith)
            requires pos == k * ir, ir > 0, k >= 0;
    }
    proof {
        lemma_ceil_div(limit as int, k as int, ir as int);
    }
    assert(out@ =~= resample_spec(chunk@, input_rate as int, target_rate as int));
    out
}

pub open spec fn abs(x: int) -> int {
    if x < 0 { -x } else { x }
}

/// Largest absolute value in `s`; zero for an empty sequence.
pub open spec fn peak_spec(s: Seq<i32>) -> int
    decreases s.len(),
{
    if s.len() == 0 {
        0
    } else {
        let p = peak_spec(s.drop_last());
        let a = abs(s.last() as int);
        if a > p { a } else { p }
    }
}

/// A sample scaled by the chunk's peak onto the 16-bit range, truncated
/// toward zero; an all-zero chunk stays zero.
pub open spec fn quantize_spec(x: int, peak: int) -> int {
    if peak == 0 {
        0
    } else if x >= 0 {
        x * 32767 / peak
    } else {
        -((-x) * 32767 / peak)
    }
}

pub open spec fn quantize_all_spec(s: Seq<i32>) -> Seq<i16> {
    Seq::new(s.len(), |i: int| quantize_spec(s[i] as int, peak_spec(s)) as i16)
}

/// What one window of input becomes: resampled, then peak-normalized onto
/// 16-bit samples.
pub open spec fn chunk_output(window: Seq<i32>, input_rate: int, target_rate: int) -> Seq<i16> {
    quantize_all_spec(resample_spec(window, input_rate, target_rate))
}

/// The peak bounds every sample, and a non-empty sequence attains it.
pub proof fn lemma_peak(s: Seq<i32>)
    ensures
        0 <= peak_spec(s) <= 0x8000_0000,
        forall|i: int| 0 <= i < s.len() ==> abs(s[i] as int) <= peak_spec(s),
        s.len() > 0 ==> exists|i: int| 0 <= i < s.len() && abs(s[i] as int) == peak_spec(s),
    decreases s.len(),
{
    if s.len() > 0 {
        let t = s.drop_last();
        lemma_peak(t);
        assert forall|i: int| 0 <= i < s.len() implies abs(s[i] as int) <= peak_spec(s) by {
            if i < t.len() {
                assert(s[i] == t[i]);
            }
        }
        if abs(s.last() as int) >= peak_spec(t) {
            assert(abs(s[s.len() - 1] as int) == peak_spec(s));
        } else {
            let j = choose|j: int| 0 <= j < t.len() && abs(t[j] as int) == peak_spec(t);
            assert(s[j] == t[j]);
        }
    }
}

/// Largest absolute sample value of `s`.
pub fn peak(s: &[i32]) -> (r: u32)
    ensures
        r == peak_spec(s@),
{
    let mut m: u32 = 0;
    let mut i: usize = 0;
    while i < s.len()
        invariant
            i <= s@.len(),
            m == peak_spec(s@.take(i as int)),
        decreases s@.len() - i,
    {
        proof {
            lemma_peak(s@.take(i as int));
            assert(s@.take(i as int + 1).drop_last() =~= s@.take(i as int));
        }
        let x = s[i];
        let a: u32 = if x < 0 { (-(x as i64)) as u32 } else { x as u32 };
        if a > m {
            m = a;
        }
        i = i + 1;
    }
    assert(s@.take(s@.len() as int) =~= s@);
    m
}

fn quantize_exec(x: i32, pk: u32) -> (q: i16)
    requires
        abs(x as int) <= pk,
    ensures
        q == quantize_spec(x as int, pk as int),
{
    if pk == 0 {
        0
    } else {
        let a: u64 = if x < 0 { (-(x as i64)) as u64 } else { x as u64 };
        proof {
            lemma_mul_div_le(32767, a as int, pk as int);
            assert(a * 32767 == 32767 * a);
        }
        let v: u64 = a * 32767 / pk as u64;
        if x < 0 {
            -(v as i16)
        } else {
            v as i16
        }
    }
}

/// Normalizes a chunk by its own peak and scales it onto the signed 16-bit
/// range, truncating toward zero.
pub fn normalize_quantize(s: &[i32]) -> (r: Vec<i16>)
    ensures
        r@ == quantize_all_spec(s@),
{
    let pk = peak(s);
    proof {
        lemma_peak(s@);
    }
    let mut out: Vec<i16> = Vec::new();
    let mut i: usize = 0;
    while i < s.len()
        invariant
            i <= s@.len(),
            pk == peak_spec(s@),
            forall|j: int| 0 <= j < s@.len() ==> abs(s@[j] as int) <= peak_spec(s@),
            out@ =~= quantize_all_spec(s@).take(i as int),
        decreases s@.len() - i,
    {
        let q = quantize_exec(s[i], pk);
        out.push(q);
        i = i + 1;
    }
    out
}

/// Resamples one window and quantizes it; also hands back the resampled
/// samples.
pub fn process_window(window: &[i32], input_rate: u32, target_rate: u32) -> (r: (Vec<i32>, Vec<i16>))
    requires
        input_rate > 0,
        target_rate > 0,
        window@.len() * target_rate <= usize::MAX,
    ensures
        r.0@ == resample_spec(window@, input_rate as int, target_rate as int),
        r.1@ == chunk_output(window@, input_rate as int, target_rate as int),
{
    let res = resample(window, input_rate, target_rate);
    let q = normalize_quantize(res.as_slice());
    (res, q)
}

/// A constant signal resamples to the same constant.
pub proof fn lemma_constant_resample(chunk: Seq<i32>, c: i32, input_rate: int, target_rate: int)
    requires
        input_rate > 0,
        target_rate > 0,
        forall|i: int| 0 <= i < chunk.len() ==> chunk[i] == c,
    ensures
        forall|k: int| 0 <= k < resample_spec(chunk, input_rate, target_rate).len()
            ==> resample_spec(chunk, input_rate, target_rate)[k] == c,
{
    assert forall|k: int| 0 <= k < resample_spec(chunk, input_rate, target_rate).len()
        implies resample_spec(chunk, input_rate, target_rate)[k] == c by {
        let p = k * input_rate;
        let i = p / target_rate;
        assert(0 <= p) by (nonlinear_arith)
            requires k >= 0, input_rate > 0, p == k * input_rate;
        assert(p < chunk.len() * target_rate) by {
            lemma_resampled_position(chunk.len() as int, input_rate, target_rate, k);
        }
        assert(0 <= i < chunk.len()) by {
            lemma_div_is_ordered(0, p, target_rate);
            lemma_div_is_ordered(p, chunk.len() * target_rate - 1, target_rate);
            assert((chunk.len() - 1) * target_rate + (target_rate - 1) == chunk.len() * target_rate - 1)
                by (nonlinear_arith);
            vstd::arithmetic::div_mod::lemma_fundamental_div_mod_converse(
                chunk.len() * target_rate - 1, target_rate, chunk.len() - 1, target_rate - 1);
        }
        assert(0 * (p % target_rate) == 0);
    }
}

/// An output position below the resampled length lies inside the chunk.
proof fn lemma_resampled_position(n: int, input_rate: int, target_rate: int, k: int)
    requires
        input_rate > 0,
        target_rate > 0,
        n >= 0,
        0 <= k < resampled_len(n, input_rate, target_rate),
    ensures
        k * input_rate < n * target_rate,
{
    let x = n * target_rate + input_rate - 1;
    assert(x >= 0) by (nonlinear_arith)
        requires n >= 0, target_rate > 0, input_rate > 0, x == n * target_rate + input_rate - 1;
    vstd::arithmetic::div_mod::lemma_fundamental_div_mod(x, input_rate);
    let q = x / input_rate;
    assert(k + 1 <= q);
    assert((k + 1) * input_rate <= q * input_rate) by (nonlinear_arith)
        requires k + 1 <= q, input_rate > 0;
    assert(q * input_rate <= x) by {
        vstd::arithmetic::div_mod::lemma_mod_bound(x, input_rate);
        assert(input_rate * q == q * input_rate) by (nonlinear_arith);
    }
    assert((k + 1) * input_rate == k * input_rate + input_rate) by (nonlinear_arith);
}

/// After normalization a chunk with a nonzero peak reaches full scale and no
/// sample goes beyond it; an all-zero chunk stays all zero.
pub proof fn lemma_normalized_peak(s: Seq<i32>)
    ensures
        peak_spec(s) > 0 ==> (exists|i: int|
            0 <= i < s.len() && abs(quantize_all_spec(s)[i] as int) == SAMPLE_MAX as int),
        forall|i: int| 0 <= i < s.len() ==> abs(quantize_all_spec(s)[i] as int) <= SAMPLE_MAX as int,
        (forall|i: int| 0 <= i < s.len() ==> s[i] == 0) ==> (forall|i: int|
            0 <= i < s.len() ==> quantize_all_spec(s)[i] == 0),
{
    lemma_peak(s);
    let pk = peak_spec(s);
    assert forall|i: int| 0 <= i < s.len() implies abs(quantize_all_spec(s)[i] as int) <= SAMPLE_MAX as int by {
        if pk > 0 {
            lemma_mul_div_le(32767, abs(s[i] as int), pk);
            assert(abs(s[i] as int) * 32767 == 32767 * abs(s[i] as int));
        }
    }
    if pk > 0 {
        let j = choose|j: int| 0 <= j < s.len() && abs(s[j] as int) == pk;
        lemma_full_scale(pk);
        assert(abs(quantize_all_spec(s)[j] as int) == SAMPLE_MAX as int);
    }
    if forall|i: int| 0 <= i < s.len() ==> s[i] == 0 {
        assert forall|i: int| 0 <= i < s.len() implies quantize_all_spec(s)[i] == 0 by {
            if pk > 0 {
                let j = choose|j: int| 0 <= j < s.len() && abs(s[j] as int) == pk;
                assert(s[j] == 0);
            }
        }
    }
}

/// A sample at the peak maps to the largest 16-bit value; one at minus the
/// peak maps to its negation, one above the smallest 16-bit value.
pub proof fn lemma_full_scale(peak: int)
    requires
        peak > 0,
    ensures
        quantize_spec(peak, peak) == SAMPLE_MAX as int,
        quantize_spec(-peak, peak) == -(SAMPLE_MAX as int),
        quantize_spec(-peak, peak) == i16::MIN + 1,
{
    lemma_div_multiples_vanish(32767, peak);
    assert(peak * 32767 == 32767 * peak);
}

} // verus!
