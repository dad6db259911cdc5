//! Audio files as input: format choice and downmixing to mono.

use super::mp3::{mp3_file, read_mp3, AudioView};
use super::pcm::{
    channel_of, frame_count, frame_sample, frame_sum, lemma_frame_bound, lemma_pcm_push, pcm_of,
    push_sample, sample, sample_bytes, samples, toward_zero,
};
use super::wav::{read_wav, wav_contents, wav_error_text, wav_file, wav_round_trip, WavError};
use crate::paths::{extension, extension_of};
use crate::text::{concat3, lowercase, owned, same};
use vstd::prelude::*;

verus! {

broadcast use vstd::string::group_string_axioms;

/// Each frame's average over its channels, rounded toward zero.
pub open spec fn averages(pcm: Seq<u8>, channels: int) -> Seq<int> {
    Seq::new(
        frame_count(pcm, channels) as nat,
        |f: int| toward_zero(frame_sum(pcm, channels, f, channels), channels),
    )
}

/// The mono form of an interleaved buffer.
pub open spec fn mono_of(pcm: Seq<u8>, channels: int) -> Seq<u8> {
    if channels == 1 {
        pcm
    } else {
        pcm_of(averages(pcm, channels))
    }
}

/// An audio file declared a channel count of zero.
#[derive(Debug, Clone, Copy, PartialEq, Eq, Structural)]
pub struct NoChannels;

/// The average of samples is a sample.
proof fn lemma_average_bound(sum: int, n: int)
    requires
        n > 0,
        -0x8000 * n <= sum <= 0x7fff * n,
    ensures
        -0x8000 <= toward_zero(sum, n) <= 0x7fff,
{
    if sum >= 0 {
        assert(0 <= sum / n <= 0x7fff) by (nonlinear_arith)
            requires
                n > 0,
                0 <= sum <= 0x7fff * n,
        ;
    } else {
        assert(0 <= (-sum) / n <= 0x8000) by (nonlinear_arith)
            requires
                n > 0,
                0 <= -sum <= 0x8000 * n,
        ;
    }
}

/// Downmix interleaved PCM16 LE to mono by averaging channels.
pub fn to_mono(pcm: &[u8], channels: u16) -> (r: Result<Vec<u8>, NoChannels>)
    ensures
        r is Err <==> channels == 0,
        r matches Ok(out) ==> out@ == mono_of(pcm@, channels as int),
{
    if channels == 1 {
        return Ok(vstd::slice::slice_to_vec(pcm));
    }
    if channels == 0 {
        return Err(NoChannels);
    }
    let n = channels as usize;
    let width = n * 2;
    let frames = pcm.len() / width;
    let ghost target = averages(pcm@, channels as int);
    let mut out: Vec<u8> = Vec::new();
    let mut f: usize = 0;
    let mut base: usize = 0;
    assert(pcm_of(target.take(0)) =~= Seq::<u8>::empty());
    while f < frames
        invariant
            n == channels,
            n > 1,
            width == n * 2,
            frames == pcm.len() / width,
            target == averages(pcm@, channels as int),
            f <= frames,
            base == f * width,
            base <= pcm@.len(),
            out@ == pcm_of(target.take(f as int)),
        decreases frames - f,
    {
        proof {
            lemma_frame_bound(pcm@.len() as int, width as int, f as int);
        }
        let mut acc: i32 = 0;
        let mut c: usize = 0;
        while c < n
            invariant
                n == channels,
                width == n * 2,
                base == f * width,
                base + width <= pcm@.len(),
                pcm@.len() == pcm.len(),
                c <= n,
                acc == frame_sum(pcm@, channels as int, f as int, c as int),
                -0x8000 * c <= acc <= 0x7fff * c,
            decreases n - c,
        {
            let off = base + c * 2;
            let v = sample(pcm[off], pcm[off + 1]);
            assert(v == frame_sample(pcm@, channels as int, f as int, c as int));
            acc = acc + v as i32;
            c += 1;
        }
        proof {
            lemma_average_bound(acc as int, n as int);
        }
        let d = n as i32;
        let avg: i32 = if acc >= 0 {
            acc / d
        } else {
            -((-acc) / d)
        };
        assert(avg == toward_zero(acc as int, n as int));
        assert(target[f as int] == avg);
        push_sample(&mut out, avg as i16);
        proof {
            lemma_pcm_push(target.take(f as int), avg as int);
            assert(target.take(f + 1) =~= target.take(f as int).push(avg as int));
        }
        base = base + width;
        f += 1;
    }
    assert(target.take(f as int) =~= target);
    Ok(out)
}

proof fn lemma_equal_sum(pcm: Seq<u8>, channels: int, f: int, n: int, v: int)
    requires
        0 <= n <= channels,
        forall|c: int| 0 <= c < channels ==> #[trigger] frame_sample(pcm, channels, f, c) == v,
    ensures
        frame_sum(pcm, channels, f, n) == n * v,
    decreases n,
{
    if n > 0 {
        lemma_equal_sum(pcm, channels, f, n - 1, v);
        assert(frame_sample(pcm, channels, f, n - 1) == v);
        assert((n - 1) * v + v == n * v) by (nonlinear_arith);
    }
}

proof fn lemma_equal_average(n: int, v: int)
    requires
        n > 0,
    ensures
        toward_zero(n * v, n) == v,
{
    if v >= 0 {
        assert(n * v >= 0 && n * v / n == v) by (nonlinear_arith)
            requires
                n > 0,
                v >= 0,
        ;
    } else {
        assert(n * v < 0 && (-(n * v)) / n == -v) by (nonlinear_arith)
            requires
                n > 0,
                v < 0,
        ;
    }
}

/// Where all channels are the same, the downmix is that channel.
pub proof fn equal_channels_mix_to_one(pcm: Seq<u8>, channels: int)
    requires
        channels > 0,
        forall|c: int|
            0 <= c < channels ==> #[trigger] channel_of(pcm, c, channels) == channel_of(
                pcm,
                0,
                channels,
            ),
    ensures
        mono_of(pcm, channels) == channel_of(pcm, 0, channels),
{
    if channels > 1 {
        let one = channel_of(pcm, 0, channels);
        let mix = averages(pcm, channels);
        let frames = frame_count(pcm, channels);
        assert(frames >= 0) by (nonlinear_arith)
            requires
                channels > 1,
                frames == pcm.len() as int / (2 * channels),
        ;
        assert forall|f: int| 0 <= f < frames implies #[trigger] mix[f] == frame_sample(
            pcm,
            channels,
            f,
            0,
        ) by {
            let v = frame_sample(pcm, channels, f, 0);
            assert((2 * f) / 2 == f && (2 * f) % 2 == 0);
            assert((2 * f + 1) / 2 == f && (2 * f + 1) % 2 == 1);
            assert forall|c: int| 0 <= c < channels implies #[trigger] frame_sample(
                pcm,
                channels,
                f,
                c,
            ) == v by {
                let other = channel_of(pcm, c, channels);
                assert(other == one);
                assert(other[2 * f] == pcm[f * (2 * channels) + 2 * c]);
                assert(other[2 * f + 1] == pcm[f * (2 * channels) + 2 * c + 1]);
                assert(one[2 * f] == pcm[f * (2 * channels)]);
                assert(one[2 * f + 1] == pcm[f * (2 * channels) + 1]);
            }
            lemma_equal_sum(pcm, channels, f, channels, v);
            lemma_equal_average(channels, v);
        }
        assert forall|i: int| 0 <= i < one.len() implies #[trigger] pcm_of(mix)[i] == one[i] by {
            let f = i / 2;
            assert(mix[f] == frame_sample(pcm, channels, f, 0));
        }
        assert(pcm_of(mix) =~= one);
    }
}

// ---------------------------------------------------------------------------
// Reading a file
// ---------------------------------------------------------------------------

/// The formats that can be read.
#[derive(Debug, Clone, Copy, PartialEq, Eq, Structural)]
pub enum AudioFormat {
    Wav,
    Mp3,
    Other,
}

/// A file's extension in lower case.
pub open spec fn plain_extension(path: Seq<char>) -> Seq<char> {
    lowercase(extension_of(path))
}

/// The format that an extension stands for.
pub open spec fn format_named(ext: Seq<char>) -> AudioFormat {
    if ext == "wav"@ {
        AudioFormat::Wav
    } else if ext == "mp3"@ {
        AudioFormat::Mp3
    } else {
        AudioFormat::Other
    }
}

/// The format that an extension stands for.
pub fn format_of(ext: &str) -> (r: AudioFormat)
    ensures
        r == format_named(ext@),
{
    if same(ext, "wav") {
        AudioFormat::Wav
    } else if same(ext, "mp3") {
        AudioFormat::Mp3
    } else {
        AudioFormat::Other
    }
}

/// The format of a file, by its name.
pub fn audio_format(path: &str) -> (r: AudioFormat)
    ensures
        r == format_named(plain_extension(path@)),
{
    format_of(extension(path).to_lowercase().as_str())
}

/// Why a file cannot be read.
#[derive(Debug)]
pub enum FileError {
    Wav(WavError),
    NoChannels,
    Mp3(String),
    /// The extension of a file in no known format.
    Unsupported(String),
}

/// The contents of a [`FileError`].
pub enum FileErrorView {
    Wav(WavError),
    NoChannels,
    Mp3(Seq<char>),
    Unsupported(Seq<char>),
}

impl View for FileError {
    type V = FileErrorView;

    open spec fn view(&self) -> FileErrorView {
        match self {
            FileError::Wav(e) => FileErrorView::Wav(*e),
            FileError::NoChannels => FileErrorView::NoChannels,
            FileError::Mp3(t) => FileErrorView::Mp3(t@),
            FileError::Unsupported(ext) => FileErrorView::Unsupported(ext@),
        }
    }
}

/// A text in quotation marks, as the standard library's debug format writes it.
pub uninterp spec fn quoted_text(s: Seq<char>) -> Seq<char>;

/// The `Debug` format of `str` puts a text in quotation marks and escapes what
/// cannot stand in a literal; the result is named by [`quoted_text`].
#[verifier::external_body]
fn quoted(s: &str) -> (r: String)
    ensures
        r@ == quoted_text(s@),
{
    format!("{s:?}")
}

/// What the user is told of an error.
pub open spec fn file_error_text(e: FileErrorView) -> Seq<char> {
    match e {
        FileErrorView::Wav(w) => wav_error_text(w),
        FileErrorView::NoChannels => "invalid channel count 0"@,
        FileErrorView::Mp3(t) => t,
        FileErrorView::Unsupported(ext) => "unsupported audio format "@ + quoted_text(ext)
            + " (supported: wav, mp3)"@,
    }
}

impl FileError {
    /// What the user is told.
    pub fn message(&self) -> (r: String)
        ensures
            r@ == file_error_text(self@),
    {
        match self {
            FileError::Wav(e) => e.message(),
            FileError::NoChannels => owned("invalid channel count 0"),
            FileError::Mp3(t) => t.clone(),
            FileError::Unsupported(ext) => concat3(
                "unsupported audio format ",
                quoted(ext.as_str()).as_str(),
                " (supported: wav, mp3)",
            ),
        }
    }
}

/// What a WAV file holds, in mono, and its sample rate.
pub open spec fn wav_mono(data: Seq<u8>) -> Result<AudioView, FileErrorView> {
    match wav_contents(data) {
        Err(e) => Err(FileErrorView::Wav(e)),
        Ok((pcm, rate, channels)) => if channels == 0 {
            Err(FileErrorView::NoChannels)
        } else {
            Ok((mono_of(pcm, channels), rate as nat))
        },
    }
}

/// What an audio file holds, in mono, and its sample rate.
pub open spec fn audio_contents(path: Seq<char>, data: Seq<u8>) -> Result<AudioView, FileErrorView> {
    match format_named(plain_extension(path)) {
        AudioFormat::Wav => wav_mono(data),
        AudioFormat::Mp3 => match mp3_file(data) {
            Ok(a) => Ok(a),
            Err(t) => Err(FileErrorView::Mp3(t)),
        },
        AudioFormat::Other => Err(FileErrorView::Unsupported(plain_extension(path))),
    }
}

/// The contents of the result of reading a file.
pub open spec fn audio_result(r: Result<(Vec<u8>, u32), FileError>) -> Result<
    AudioView,
    FileErrorView,
> {
    match r {
        Ok((pcm, rate)) => Ok((pcm@, rate as nat)),
        Err(e) => Err(e@),
    }
}

/// Read a WAV file into mono PCM16 LE and its sample rate.
pub fn read_wav_mono(data: &[u8]) -> (r: Result<(Vec<u8>, u32), FileError>)
    ensures
        audio_result(r) == wav_mono(data@),
{
    match read_wav(data) {
        Err(e) => Err(FileError::Wav(e)),
        Ok((pcm, rate, channels)) => match to_mono(&pcm, channels) {
            Ok(mono) => Ok((mono, rate)),
            Err(_) => Err(FileError::NoChannels),
        },
    }
}

/// Read an audio file (.wav or .mp3) into mono PCM16 LE and its sample rate.
pub fn read_audio_file(path: &str, data: Vec<u8>) -> (r: Result<(Vec<u8>, u32), FileError>)
    ensures
        audio_result(r) == audio_contents(path@, data@),
{
    let ext = extension(path).to_lowercase();
    match format_of(ext.as_str()) {
        AudioFormat::Wav => read_wav_mono(&data),
        AudioFormat::Mp3 => match read_mp3(data) {
            Ok(a) => Ok(a),
            Err(t) => Err(FileError::Mp3(t)),
        },
        AudioFormat::Other => Err(FileError::Unsupported(ext)),
    }
}

// ---------------------------------------------------------------------------
// What reading a file gives
// ---------------------------------------------------------------------------

proof fn lemma_frame_sums(pcm: Seq<u8>, channels: int, f: int, sums: Seq<int>, n: int)
    requires
        0 <= n <= channels,
        channels > 0,
        0 <= f < samples(pcm).len() as int / channels,
        sums.len() == channels + 1,
        sums[0] == 0,
        forall|c: int|
            0 <= c < channels ==> #[trigger] sums[c + 1] == sums[c] + samples(pcm)[f * channels + c],
    ensures
        frame_sum(pcm, channels, f, n) == sums[n],
    decreases n,
{
    if n > 0 {
        lemma_frame_sums(pcm, channels, f, sums, n - 1);
        let c = n - 1;
        assert(sums[c + 1] == sums[c] + samples(pcm)[f * channels + c]);
        assert(f * (2 * channels) + 2 * c == 2 * (f * channels + c)) by (nonlinear_arith);
        assert(0 <= f * channels + c < samples(pcm).len()) by (nonlinear_arith)
            requires
                0 <= f < samples(pcm).len() as int / channels,
                0 <= c < channels,
        ;
        assert(frame_sample(pcm, channels, f, c) == samples(pcm)[f * channels + c]);
    }
}

/// A sample of the mono form is the mean of its frame's samples, rounded toward
/// zero. `sums` are the running sums of the frame's samples.
pub proof fn mono_is_the_mean(pcm: Seq<u8>, channels: int, f: int, sums: Seq<int>)
    requires
        channels > 1,
        0 <= f < samples(pcm).len() as int / channels,
        sums.len() == channels + 1,
        sums[0] == 0,
        forall|c: int|
            0 <= c < channels ==> #[trigger] sums[c + 1] == sums[c] + samples(pcm)[f * channels + c],
        -32768 * channels <= sums[channels] <= 32767 * channels,
    ensures
        ({
            let m = samples(mono_of(pcm, channels))[f];
            let t = sums[channels];
            &&& samples(mono_of(pcm, channels)).len() == samples(pcm).len() as int / channels
            &&& t >= 0 ==> channels * m <= t < channels * (m + 1)
            &&& t < 0 ==> channels * (m - 1) < t <= channels * m
        }),
        mono_of(pcm, 1) == pcm,
{
    let n = samples(pcm).len() as int;
    let frames = frame_count(pcm, channels);
    assert(frames == n / channels) by (nonlinear_arith)
        requires
            n == pcm.len() as int / 2,
            frames == pcm.len() as int / (2 * channels),
            channels > 1,
    ;
    lemma_frame_sums(pcm, channels, f, sums, channels);
    let a = averages(pcm, channels);
    let t = sums[channels];
    let m = toward_zero(t, channels);
    assert(a[f] == m);
    lemma_average_bound(t, channels);
    lemma_sample_of(a, f);
    if t >= 0 {
        assert(channels * m <= t < channels * (m + 1)) by (nonlinear_arith)
            requires
                m == t / channels,
                channels > 1,
        ;
    } else {
        let k = (-t) / channels;
        assert(channels * (-k - 1) < t <= channels * (-k)) by (nonlinear_arith)
            requires
                k == (-t) / channels,
                channels > 1,
        ;
    }
}

proof fn lemma_sample_of(s: Seq<int>, i: int)
    requires
        0 <= i < s.len(),
        -0x8000 <= s[i] <= 0x7fff,
    ensures
        samples(pcm_of(s)).len() == s.len(),
        samples(pcm_of(s))[i] == s[i],
{
    let p = pcm_of(s);
    assert((2 * i) / 2 == i && (2 * i) % 2 == 0);
    assert((2 * i + 1) / 2 == i && (2 * i + 1) % 2 == 1);
    assert(p[2 * i] == sample_bytes(s[i])[0]);
    assert(p[2 * i + 1] == sample_bytes(s[i])[1]);
}

/// A mono recording that was written as a WAV file is read back as it was, with
/// its sample rate.
pub proof fn mono_recordings_read_back(path: Seq<char>, pcm: Seq<u8>, sample_rate: u32)
    requires
        36 + pcm.len() <= u32::MAX,
        0 < sample_rate,
        sample_rate * 2 <= u32::MAX,
        lowercase(extension_of(path)) == "wav"@,
    ensures
        audio_contents(path, wav_file(pcm, sample_rate as int, 1)) == Ok::<
            AudioView,
            FileErrorView,
        >((pcm, sample_rate as nat)),
{
    wav_round_trip(pcm, sample_rate, 1);
}

/// Files are read by their extension, in either case: WAV and MP3 files as such,
/// any other is refused with its extension.
pub proof fn other_extensions_are_refused(path: Seq<char>, data: Seq<u8>)
    ensures
        ({
            let ext = lowercase(extension_of(path));
            &&& ext != "wav"@ && ext != "mp3"@ ==> audio_contents(path, data) == Err::<
                AudioView,
                FileErrorView,
            >(FileErrorView::Unsupported(ext))
            &&& ext == "mp3"@ ==> (mp3_file(data) matches Ok(a) ==> audio_contents(path, data)
                == Ok::<AudioView, FileErrorView>(a))
            &&& ext == "wav"@ ==> (wav_contents(data) matches Err(e) ==> audio_contents(path, data)
                == Err::<AudioView, FileErrorView>(FileErrorView::Wav(e)))
        }),
{
    reveal_strlit("wav");
    reveal_strlit("mp3");
    assert("wav"@[0] == 'w' && "mp3"@[0] == 'm');
}

} // verus!
