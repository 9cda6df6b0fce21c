//! Voice-activity-gated capture: every frame's loudness is measured
//! and exposed for level meters; only frames louder than the runtime
//! threshold are worth encoding and sending. The loudness metric is
//! `⌊(√(mean((sample/32767)²)) + ε)·100⌋` with `ε = 0.0002`, evaluated
//! here exactly in integer arithmetic.
use vstd::prelude::*;
use vstd::arithmetic::div_mod::lemma_fundamental_div_mod;

verus! {

/// `r` is the integer square root of `x`: the greatest integer whose
/// square does not exceed `x`.
pub open spec fn is_sqrt_floor(x: int, r: int) -> bool {
    &&& 0 <= r
    &&& r * r <= x
    &&& x < (r + 1) * (r + 1)
}

/// The integer square root of a nonnegative integer.
pub closed spec fn sqrt_floor(x: int) -> int {
    choose|r: int| is_sqrt_floor(x, r)
}

/// Two integer square roots of the same value coincide.
pub proof fn lemma_sqrt_floor_unique(x: int, r: int)
    requires
        is_sqrt_floor(x, r),
    ensures
        sqrt_floor(x) == r,
{
    assert(is_sqrt_floor(x, sqrt_floor(x))) by {
        assert(exists|w: int| is_sqrt_floor(x, w)) by {
            assert(is_sqrt_floor(x, r));
        }
    }
    let r2 = sqrt_floor(x);
    if r < r2 {
        assert((r + 1) * (r + 1) <= r2 * r2) by (nonlinear_arith)
            requires
                0 <= r,
                r + 1 <= r2,
        ;
    } else if r2 < r {
        assert((r2 + 1) * (r2 + 1) <= r * r) by (nonlinear_arith)
            requires
                0 <= r2,
                r2 + 1 <= r,
        ;
    }
}

/// `q <= x / q` exactly when `q * q <= x`, for positive `q`.
proof fn lemma_div_sqrt_compare(x: int, q: int)
    requires
        x >= 0,
        q > 0,
    ensures
        q <= x / q <==> q * q <= x,
{
    lemma_fundamental_div_mod(x, q);
    let d = x / q;
    let m = x % q;
    if q <= d {
        assert(q * q <= q * d) by (nonlinear_arith)
            requires
                q > 0,
                q <= d,
        ;
        assert(q * d <= q * d + m);
    }
    if q * q <= x {
        assert(d >= q) by (nonlinear_arith)
            requires
                q > 0,
                0 <= m < q,
                x == q * d + m,
                q * q <= x,
        ;
    }
}

/// Compute the integer square root by binary search.
pub fn isqrt(x: u128) -> (r: u128)
    ensures
        is_sqrt_floor(x as int, r as int),
{
    if x == 0 {
        return 0;
    }
    let mut lo: u128 = 0;
    let mut hi: u128 = 1u128 << 64;
    proof {
        assert((1u128 << 64) == 0x10000000000000000u128) by (bit_vector);
        assert((x as int) < (hi as int) * (hi as int)) by (nonlinear_arith)
            requires
                hi == 0x10000000000000000u128,
                x <= u128::MAX,
        ;
    }
    while lo + 1 < hi
        invariant
            lo < hi <= 0x10000000000000000u128,
            (lo as int) * (lo as int) <= x as int,
            (x as int) < (hi as int) * (hi as int),
        decreases hi - lo,
    {
        let mid = lo + (hi - lo) / 2;
        proof {
            assert(lo < mid < hi);
        }
        let q = x / mid;
        proof {
            lemma_div_sqrt_compare(x as int, mid as int);
        }
        if mid <= q {
            lo = mid;
        } else {
            hi = mid;
        }
    }
    proof {
        assert(hi == lo + 1);
    }
    lo
}

/// The summed squared samples of a frame.
pub open spec fn sum_squares(s: Seq<i16>) -> int
    decreases s.len(),
{
    if s.len() == 0 {
        0
    } else {
        sum_squares(s.drop_last()) + s.last() * s.last()
    }
}

/// The loudness of a frame: 0 for an empty frame, otherwise
/// `⌊(√(sum(sample²)/n)·100/32767) + 1/50⌋` evaluated exactly —
/// `⌊(√(mean((sample/32767)²)) + 0.0002)·100⌋`, the small ε keeping
/// pure silence distinguishable only before the cast truncates it.
pub open spec fn intensity_spec(s: Seq<i16>) -> int {
    if s.len() == 0 {
        0
    } else {
        (sqrt_floor(25000000 * sum_squares(s) * (s.len() as int)) + 32767 * (s.len() as int)) / (
        1638350 * (s.len() as int))
    }
}

/// A squared sample is bounded by 2^30.
proof fn lemma_square_bound(v: i16)
    ensures
        0 <= (v as int) * (v as int) <= 0x40000000,
{
    assert(0 <= (v as int) * (v as int) <= 0x40000000) by (nonlinear_arith)
        requires
            -0x8000 <= v as int <= 0x7FFF,
    ;
}

/// The summed squares of `n` samples are bounded by `n·2^30`.
proof fn lemma_sum_squares_bound(s: Seq<i16>)
    ensures
        0 <= sum_squares(s) <= s.len() * 0x40000000,
    decreases s.len(),
{
    if s.len() == 0 {
    } else {
        lemma_sum_squares_bound(s.drop_last());
        lemma_square_bound(s.last());
        assert((s.len() - 1) * 0x40000000 + 0x40000000 == s.len() * 0x40000000) by (nonlinear_arith);
    }
}

/// Measure the loudness of one PCM frame.
pub fn intensity_of(samples: &Vec<i16>) -> (r: i32)
    requires
        samples@.len() <= 0x1000000000,
    ensures
        r == intensity_spec(samples@),
        0 <= r <= 100,
{
    let n = samples.len();
    if n == 0 {
        return 0;
    }
    let mut acc: u128 = 0;
    let mut i: usize = 0;
    proof {
        assert(samples@.take(0) =~= Seq::<i16>::empty());
    }
    while i < n
        invariant
            0 <= i <= n,
            n == samples@.len() <= 0x1000000000,
            acc == sum_squares(samples@.take(i as int)),
            acc <= (i as int) * 0x40000000,
        decreases n - i,
    {
        let v = samples[i] as i32;
        proof {
            lemma_square_bound(samples@[i as int]);
        }
        let sq = v * v;
        proof {
            assert(acc + sq <= (i as int) * 0x40000000 + 0x40000000);
            assert((i as int) * 0x40000000 + 0x40000000 == (i + 1) * 0x40000000) by (nonlinear_arith);
            assert((i + 1) * 0x40000000 <= 0x1000000000 * 0x40000000) by (nonlinear_arith)
                requires
                    0 <= i + 1 <= 0x1000000000,
            ;
            assert(samples@.take(i + 1).drop_last() =~= samples@.take(i as int));
            assert(samples@.take(i + 1).last() == samples@[i as int]);
        }
        acc = acc + (sq as u128);
        i = i + 1;
    }
    proof {
        assert(samples@.take(n as int) =~= samples@);
    }
    let ghost s = samples@;
    let ghost nn = n as int;
    proof {
        lemma_sum_squares_bound(s);
        assert(25000000 * (acc as int) <= 25000000 * (0x1000000000int * 0x40000000))
            by (nonlinear_arith)
            requires
                acc as int <= nn * 0x40000000,
                nn <= 0x1000000000,
        ;
    }
    let scaled: u128 = 25000000u128 * acc;
    proof {
        assert((scaled as int) * nn <= (25000000 * (0x1000000000int * 0x40000000)) * 0x1000000000)
            by (nonlinear_arith)
            requires
                scaled as int <= 25000000 * (0x1000000000int * 0x40000000),
                0 <= scaled,
                1 <= nn <= 0x1000000000,
        ;
    }
    let a: u128 = scaled * (n as u128);
    let isq = isqrt(a);
    proof {
        // isq is bounded by n·163840000, whose square is 25e6·(n·2^30)·n
        let bound = nn * 163840000;
        assert((a as int) <= bound * bound) by (nonlinear_arith)
            requires
                a as int == 25000000 * (acc as int) * nn,
                acc as int <= nn * 0x40000000,
                0 <= acc,
                1 <= nn,
                bound == nn * 163840000,
        ;
        assert((isq as int) <= bound) by (nonlinear_arith)
            requires
                (isq as int) * (isq as int) <= a as int,
                a as int <= bound * bound,
                0 <= isq,
                0 <= bound,
        ;
    }
    let num: u128 = isq + 32767u128 * (n as u128);
    let denom: u128 = 1638350u128 * (n as u128);
    proof {
        assert(num as int <= nn * 163840000 + 32767 * nn);
        assert(denom as int == 1638350 * nn);
        assert(nn * 163840000 + 32767 * nn < 101 * (1638350 * nn)) by (nonlinear_arith)
            requires
                1 <= nn,
        ;
        assert(denom > 0) by (nonlinear_arith)
            requires
                1 <= nn,
                denom as int == 1638350 * nn,
        ;
        lemma_fundamental_div_mod(num as int, denom as int);
        assert((num as int) / (denom as int) < 101) by (nonlinear_arith)
            requires
                0 < denom as int,
                (num as int) < 101 * (denom as int),
                num as int == (denom as int) * ((num as int) / (denom as int)) + (num as int) % (
                denom as int),
                0 <= (num as int) % (denom as int),
        ;
        lemma_sqrt_floor_unique(a as int, isq as int);
        assert(25000000 * sum_squares(s) * s.len() == a as int) by (nonlinear_arith)
            requires
                a as int == 25000000 * (acc as int) * nn,
                acc as int == sum_squares(s),
                nn == s.len(),
        ;
    }
    let q = num / denom;
    q as i32
}

/// Codec construction was rejected: only mono and stereo sessions are
/// supported.
#[derive(Clone, Copy, PartialEq, Eq, Structural, Debug)]
pub struct ConfigError;

/// The capture side of a session: measures every frame's loudness for
/// the level meter, and gates encoding on the runtime threshold. The
/// codec itself is the caller's opaque capability: this type decides
/// *whether* a frame is encoded and transmitted.
pub struct AudioCapture {
    intensity: i32,
    threshold: i32,
    bitrate: i32,
    channels: u32,
    sample_rate: u32,
}

impl AudioCapture {
    pub closed spec fn intensity_field(self) -> i32 {
        self.intensity
    }

    pub closed spec fn threshold_field(self) -> i32 {
        self.threshold
    }

    pub closed spec fn bitrate_field(self) -> i32 {
        self.bitrate
    }

    pub closed spec fn channels_field(self) -> u32 {
        self.channels
    }

    pub closed spec fn sample_rate_field(self) -> u32 {
        self.sample_rate
    }

    /// Configure a capture pipeline. An unsupported channel count is
    /// fatal at construction — never per-frame.
    pub fn new(channels: u32, sample_rate: u32, encoder_bitrate: i32, active_threshold: i32) -> (r:
        Result<AudioCapture, ConfigError>)
        ensures
            r is Ok <==> (channels == 1 || channels == 2),
            r is Ok ==> {
                let c = r.unwrap();
                &&& c.intensity_field() == 0
                &&& c.threshold_field() == active_threshold
                &&& c.bitrate_field() == encoder_bitrate
                &&& c.channels_field() == channels
                &&& c.sample_rate_field() == sample_rate
            },
    {
        if channels != 1 && channels != 2 {
            return Err(ConfigError);
        }
        Ok(
            AudioCapture {
                intensity: 0,
                threshold: active_threshold,
                bitrate: encoder_bitrate,
                channels,
                sample_rate,
            },
        )
    }

    /// Handle one captured PCM frame: always update the exposed
    /// intensity (the level meter works even while muted), and report
    /// whether the frame is loud enough for the caller to encode and
    /// transmit it; below the threshold no encoding cost is paid.
    pub fn process_frame(&mut self, samples: &Vec<i16>) -> (emit: bool)
        requires
            samples@.len() <= 0x1000000000,
        ensures
            final(self).intensity_field() == intensity_spec(samples@),
            emit <==> intensity_spec(samples@) > old(self).threshold_field(),
            final(self).threshold_field() == old(self).threshold_field(),
            final(self).bitrate_field() == old(self).bitrate_field(),
            final(self).channels_field() == old(self).channels_field(),
            final(self).sample_rate_field() == old(self).sample_rate_field(),
    {
        let rms = intensity_of(samples);
        self.intensity = rms;
        rms > self.threshold
    }

    /// The loudness of the most recent frame, whether or not it was
    /// loud enough to emit; drives the UI level meter.
    pub fn get_intensity(&self) -> (r: i32)
        ensures
            r == self.intensity_field(),
    {
        self.intensity
    }

    /// Change the loudness threshold at runtime; the capture pipeline
    /// keeps running.
    pub fn set_threshold(&mut self, value: i32)
        ensures
            final(self).threshold_field() == value,
            final(self).intensity_field() == old(self).intensity_field(),
            final(self).bitrate_field() == old(self).bitrate_field(),
            final(self).channels_field() == old(self).channels_field(),
            final(self).sample_rate_field() == old(self).sample_rate_field(),
    {
        self.threshold = value;
    }

    /// Change the codec's target bitrate at runtime; the caller hands
    /// the new target to its encoder.
    pub fn set_encoder_bitrate(&mut self, value: i32)
        ensures
            final(self).bitrate_field() == value,
            final(self).intensity_field() == old(self).intensity_field(),
            final(self).threshold_field() == old(self).threshold_field(),
            final(self).channels_field() == old(self).channels_field(),
            final(self).sample_rate_field() == old(self).sample_rate_field(),
    {
        self.bitrate = value;
    }

    pub fn channels(&self) -> (r: u32)
        ensures
            r == self.channels_field(),
    {
        self.channels
    }

    pub fn sample_rate(&self) -> (r: u32)
        ensures
            r == self.sample_rate_field(),
    {
        self.sample_rate
    }

    pub fn bitrate(&self) -> (r: i32)
        ensures
            r == self.bitrate_field(),
    {
        self.bitrate
    }
}

} // verus!
