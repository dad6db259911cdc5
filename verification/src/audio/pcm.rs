//! 16-bit little-endian PCM: samples, channels and levels.

use vstd::prelude::*;

verus! {

/// The sample that two bytes hold, low byte first.
pub open spec fn sample_value(lo: u8, hi: u8) -> int {
    let u = lo + 256 * hi;
    if u >= 0x8000 {
        u - 0x1_0000
    } else {
        u
    }
}

/// The two bytes of a sample, low byte first.
pub open spec fn sample_bytes(v: int) -> Seq<u8> {
    let u = if v < 0 {
        v + 0x1_0000
    } else {
        v
    };
    seq![(u % 256) as u8, (u / 256) as u8]
}

/// The samples of a PCM buffer; an odd last byte belongs to none.
pub open spec fn samples(pcm: Seq<u8>) -> Seq<int> {
    Seq::new(pcm.len() / 2, |i: int| sample_value(pcm[2 * i], pcm[2 * i + 1]))
}

/// The PCM buffer of a list of samples.
pub open spec fn pcm_of(s: Seq<int>) -> Seq<u8> {
    Seq::new(
        s.len() * 2,
        |i: int| sample_bytes(s[i / 2])[i % 2],
    )
}

/// Whether each sample fits in 16 bits.
pub open spec fn in_range(s: Seq<int>) -> bool {
    forall|i: int| 0 <= i < s.len() ==> -0x8000 <= #[trigger] s[i] <= 0x7fff
}

/// Writing samples and reading them back gives the samples.
pub proof fn samples_round_trip(s: Seq<int>)
    requires
        in_range(s),
    ensures
        samples(pcm_of(s)) == s,
{
    let p = pcm_of(s);
    assert(p.len() == 2 * s.len());
    assert forall|i: int| 0 <= i < s.len() implies samples(p)[i] == s[i] by {
        assert((2 * i) / 2 == i && (2 * i) % 2 == 0);
        assert((2 * i + 1) / 2 == i && (2 * i + 1) % 2 == 1);
        assert(p[2 * i] == sample_bytes(s[i])[0]);
        assert(p[2 * i + 1] == sample_bytes(s[i])[1]);
    }
    assert(samples(p) =~= s);
}

/// Reading the samples of a buffer of whole samples and writing them gives the
/// buffer.
pub proof fn pcm_round_trip(p: Seq<u8>)
    requires
        p.len() % 2 == 0,
    ensures
        pcm_of(samples(p)) == p,
        in_range(samples(p)),
{
    assert(pcm_of(samples(p)).len() == p.len());
    assert forall|i: int| 0 <= i < p.len() implies pcm_of(samples(p))[i] == p[i] by {
        let k = i / 2;
        assert(samples(p)[k] == sample_value(p[2 * k], p[2 * k + 1]));
        assert(i == 2 * k || i == 2 * k + 1);
    }
    assert(pcm_of(samples(p)) =~= p);
}

/// The sample that two bytes hold.
pub fn sample(lo: u8, hi: u8) -> (r: i16)
    ensures
        r == sample_value(lo, hi),
{
    let u: i32 = lo as i32 + 256 * (hi as i32);
    if u >= 0x8000 {
        (u - 0x1_0000) as i16
    } else {
        u as i16
    }
}

/// Appends the two bytes of a sample.
pub fn push_sample(out: &mut Vec<u8>, v: i16)
    ensures
        final(out)@ == old(out)@ + sample_bytes(v as int),
{
    let u: i32 = if v < 0 {
        v as i32 + 0x1_0000
    } else {
        v as i32
    };
    out.push((u % 256) as u8);
    out.push((u / 256) as u8);
    assert(out@ =~= old(out)@ + sample_bytes(v as int));
}

/// Appending a sample's bytes appends the sample.
pub proof fn lemma_pcm_push(s: Seq<int>, v: int)
    ensures
        pcm_of(s.push(v)) == pcm_of(s) + sample_bytes(v),
{
    let a = pcm_of(s.push(v));
    let b = pcm_of(s) + sample_bytes(v);
    assert(a.len() == b.len());
    assert forall|i: int| 0 <= i < a.len() implies a[i] == b[i] by {
        if i < 2 * s.len() {
            assert(i / 2 < s.len());
        } else {
            assert(i / 2 == s.len());
        }
    }
    assert(a =~= b);
}

/// The samples of a PCM buffer.
pub fn to_samples(pcm: &[u8]) -> (r: Vec<i16>)
    ensures
        r@.map_values(|v: i16| v as int) == samples(pcm@),
{
    let mut out: Vec<i16> = Vec::new();
    let n = pcm.len() / 2;
    let mut i: usize = 0;
    while i < n
        invariant
            i <= n,
            n == pcm.len() / 2,
            out@.len() == i,
            forall|k: int| 0 <= k < i ==> out@[k] == samples(pcm@)[k],
        decreases n - i,
    {
        out.push(sample(pcm[2 * i], pcm[2 * i + 1]));
        i += 1;
    }
    assert(out@.map_values(|v: i16| v as int) =~= samples(pcm@));
    out
}

/// The absolute value of a number.
pub open spec fn abs(v: int) -> int {
    if v < 0 {
        -v
    } else {
        v
    }
}

/// The largest absolute value among samples; zero where there is none.
pub open spec fn peak_of(s: Seq<int>) -> int
    decreases s.len(),
{
    if s.len() == 0 {
        0
    } else {
        let rest = peak_of(s.drop_last());
        if abs(s.last()) > rest {
            abs(s.last())
        } else {
            rest
        }
    }
}

/// The peak is reached, and no sample exceeds it.
pub proof fn lemma_peak(s: Seq<int>)
    ensures
        peak_of(s) >= 0,
        forall|i: int| 0 <= i < s.len() ==> abs(#[trigger] s[i]) <= peak_of(s),
        s.len() > 0 ==> exists|i: int| 0 <= i < s.len() && abs(#[trigger] s[i]) == peak_of(s),
    decreases s.len(),
{
    if s.len() > 0 {
        lemma_peak(s.drop_last());
        assert forall|i: int| 0 <= i < s.len() implies abs(#[trigger] s[i]) <= peak_of(s) by {
            if i < s.len() - 1 {
                assert(s.drop_last()[i] == s[i]);
            }
        }
        if abs(s.last()) > peak_of(s.drop_last()) || s.len() == 1 {
            assert(abs(s[s.len() - 1]) == peak_of(s));
        } else {
            let i = choose|i: int|
                0 <= i < s.drop_last().len() && abs(#[trigger] s.drop_last()[i]) == peak_of(
                    s.drop_last(),
                );
            assert(abs(s[i]) == peak_of(s));
        }
    }
}

/// The largest absolute value among the samples of a buffer.
pub fn peak(pcm: &[u8]) -> (r: i32)
    ensures
        r == peak_of(samples(pcm@)),
        0 <= r <= 0x8000,
{
    let n = pcm.len() / 2;
    let mut best: i32 = 0;
    let mut i: usize = 0;
    assert(samples(pcm@).take(0) =~= Seq::<int>::empty());
    while i < n
        invariant
            i <= n,
            n == pcm.len() / 2,
            best == peak_of(samples(pcm@).take(i as int)),
            0 <= best <= 0x8000,
        decreases n - i,
    {
        let v = sample(pcm[2 * i], pcm[2 * i + 1]) as i32;
        let a: i32 = if v < 0 {
            -v
        } else {
            v
        };
        proof {
            let next = samples(pcm@).take(i + 1);
            assert(next.drop_last() =~= samples(pcm@).take(i as int));
            assert(next.last() == v);
        }
        if a > best {
            best = a;
        }
        i += 1;
    }
    assert(samples(pcm@).take(n as int) =~= samples(pcm@));
    best
}

/// The level of full scale, in the unit of [`calc_level`].
pub const FULL_LEVEL: u32 = 0x8000;

/// The reading of the level meter for a buffer: its peak, boosted twofold and
/// clamped to full scale.
pub open spec fn level_of(pcm: Seq<u8>) -> int {
    let boosted = 2 * peak_of(samples(pcm));
    if boosted > FULL_LEVEL {
        FULL_LEVEL as int
    } else {
        boosted
    }
}

/// Peak-based level meter, in parts of [`FULL_LEVEL`]: the largest absolute
/// sample, boosted twofold and clamped to full scale.
pub fn calc_level(pcm: &[u8]) -> (r: u32)
    ensures
        r == level_of(pcm@),
        r <= FULL_LEVEL,
{
    let p = peak(pcm);
    let boosted: i32 = 2 * p;
    if boosted > 0x8000 {
        FULL_LEVEL
    } else {
        boosted as u32
    }
}

/// A buffer reads as silent exactly when each of its samples is zero.
pub proof fn silent_iff_all_zero(pcm: Seq<u8>)
    ensures
        level_of(pcm) == 0 <==> (forall|i: int|
            0 <= i < samples(pcm).len() ==> #[trigger] samples(pcm)[i] == 0),
{
    let s = samples(pcm);
    lemma_peak(s);
    if level_of(pcm) == 0 {
        assert forall|i: int| 0 <= i < s.len() implies #[trigger] s[i] == 0 by {
            assert(abs(s[i]) <= peak_of(s));
        }
    }
}

/// The quotient rounded toward zero, as machine division rounds.
pub open spec fn toward_zero(a: int, n: int) -> int {
    if a >= 0 {
        a / n
    } else {
        -((-a) / n)
    }
}

/// The number of frames of `channels` samples that a buffer holds whole.
pub open spec fn frame_count(pcm: Seq<u8>, channels: int) -> int {
    pcm.len() as int / (2 * channels)
}

/// The sample of channel `c` in frame `f` of an interleaved buffer.
pub open spec fn frame_sample(pcm: Seq<u8>, channels: int, f: int, c: int) -> int {
    sample_value(pcm[f * (2 * channels) + 2 * c], pcm[f * (2 * channels) + 2 * c + 1])
}

/// The sum of the first `n` samples of frame `f`.
pub open spec fn frame_sum(pcm: Seq<u8>, channels: int, f: int, n: int) -> int
    decreases n,
{
    if n <= 0 {
        0
    } else {
        frame_sum(pcm, channels, f, n - 1) + frame_sample(pcm, channels, f, n - 1)
    }
}

/// One channel of an interleaved buffer.
pub open spec fn channel_of(pcm: Seq<u8>, channel: int, channels: int) -> Seq<u8> {
    if channels <= 1 {
        pcm
    } else {
        Seq::new(
            (2 * frame_count(pcm, channels)) as nat,
            |i: int| pcm[(i / 2) * (2 * channels) + 2 * channel + i % 2],
        )
    }
}

/// A frame that ends within the buffer begins within it.
pub proof fn lemma_frame_bound(len: int, w: int, f: int)
    requires
        w > 0,
        len >= 0,
        0 <= f < len / w,
    ensures
        0 <= f * w,
        f * w + w <= len,
        (f + 1) * w == f * w + w,
{
    assert(0 <= f * w && f * w + w <= len && (f + 1) * w == f * w + w) by (nonlinear_arith)
        requires
            w > 0,
            len >= 0,
            0 <= f < len / w,
    ;
}

/// Extract one channel from interleaved PCM16 LE.
pub fn split_channel(pcm: &[u8], channel: usize, channels: u16) -> (r: Vec<u8>)
    requires
        channels > 1 && frame_count(pcm@, channels as int) > 0 ==> channel < channels,
    ensures
        r@ == channel_of(pcm@, channel as int, channels as int),
{
    let ch = channels as usize;
    if ch <= 1 {
        return vstd::slice::slice_to_vec(pcm);
    }
    let width = 2 * ch;
    let frames = pcm.len() / width;
    let mut out: Vec<u8> = Vec::new();
    let mut f: usize = 0;
    let mut base: usize = 0;
    while f < frames
        invariant
            ch == channels,
            width == 2 * ch,
            ch > 1,
            frames == pcm.len() / width,
            frames > 0 ==> channel < ch,
            f <= frames,
            base == f * width,
            base <= pcm@.len(),
            out@.len() == 2 * f,
            forall|k: int|
                0 <= k < out@.len() ==> out@[k] == channel_of(
                    pcm@,
                    channel as int,
                    channels as int,
                )[k],
        decreases frames - f,
    {
        proof {
            lemma_frame_bound(pcm@.len() as int, width as int, f as int);
        }
        let off = base + 2 * channel;
        let ghost before = out@;
        out.push(pcm[off]);
        out.push(pcm[off + 1]);
        proof {
            assert((2 * f) / 2 == f && (2 * f) % 2 == 0);
            assert((2 * f + 1) / 2 == f && (2 * f + 1) % 2 == 1);
        }
        base = base + width;
        f += 1;
    }
    assert(out@ =~= channel_of(pcm@, channel as int, channels as int));
    out
}

/// A sample is stored with its low byte first, in two's complement: the two
/// bytes make up the sample, or the sample and 65536 where it is negative.
pub proof fn samples_are_little_endian(pcm: Seq<u8>, i: int)
    requires
        0 <= i < pcm.len() / 2,
    ensures
        samples(pcm).len() == pcm.len() / 2,
        -32768 <= samples(pcm)[i] <= 32767,
        samples(pcm)[i] >= 0 ==> samples(pcm)[i] == pcm[2 * i] + 256 * pcm[2 * i + 1],
        samples(pcm)[i] < 0 ==> samples(pcm)[i] + 65536 == pcm[2 * i] + 256 * pcm[2 * i + 1],
{
}

/// The level of a buffer is twice its loudest sample, negative ones counted by
/// their size, and at most full scale: it is reached, and no sample exceeds it.
pub proof fn levels_go_by_the_loudest_sample(pcm: Seq<u8>)
    ensures
        0 <= level_of(pcm) <= 32768,
        forall|i: int|
            0 <= i < samples(pcm).len() ==> level_of(pcm) == 32768 || (-level_of(pcm) <= 2
                * #[trigger] samples(pcm)[i] <= level_of(pcm)),
        level_of(pcm) > 0 ==> exists|i: int|
            0 <= i < samples(pcm).len() && (2 * #[trigger] samples(pcm)[i] >= level_of(pcm) || 2
                * samples(pcm)[i] <= -level_of(pcm)),
{
    let s = samples(pcm);
    lemma_peak(s);
    assert forall|i: int| 0 <= i < s.len() implies level_of(pcm) == 32768 || (-level_of(pcm) <= 2
        * #[trigger] s[i] <= level_of(pcm)) by {
        assert(abs(s[i]) <= peak_of(s));
    }
    if level_of(pcm) > 0 {
        let i = choose|i: int| 0 <= i < s.len() && abs(#[trigger] s[i]) == peak_of(s);
        assert(2 * s[i] >= level_of(pcm) || 2 * s[i] <= -level_of(pcm));
    }
}

/// A channel of an interleaved buffer holds every sample of that channel, in
/// order: its sample in each whole frame.
pub proof fn channels_hold_their_samples(pcm: Seq<u8>, channel: int, channels: int, f: int)
    requires
        channels > 1,
        0 <= channel < channels,
        0 <= f < samples(pcm).len() as int / channels,
    ensures
        samples(channel_of(pcm, channel, channels)).len() == samples(pcm).len() as int / channels,
        samples(channel_of(pcm, channel, channels))[f] == samples(pcm)[f * channels + channel],
        channel_of(pcm, channel, 1) == pcm,
{
    let n = samples(pcm).len() as int;
    let out = channel_of(pcm, channel, channels);
    let frames = frame_count(pcm, channels);
    assert(frames == n / channels) by (nonlinear_arith)
        requires
            n == pcm.len() as int / 2,
            frames == pcm.len() as int / (2 * channels),
            channels > 1,
    ;
    assert(0 <= f * channels + channel < n) by (nonlinear_arith)
        requires
            0 <= f < n / channels,
            0 <= channel < channels,
    ;
    assert(frames >= 0);
    assert(out.len() == 2 * frames);
    assert((2 * f) / 2 == f && (2 * f) % 2 == 0);
    assert((2 * f + 1) / 2 == f && (2 * f + 1) % 2 == 1);
    assert(f * (2 * channels) + 2 * channel == 2 * (f * channels + channel)) by (nonlinear_arith);
    assert(out[2 * f] == pcm[f * (2 * channels) + 2 * channel]);
    assert(out[2 * f + 1] == pcm[f * (2 * channels) + 2 * channel + 1]);
}

} // verus!
