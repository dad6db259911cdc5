//! Batch transcription by ElevenLabs Scribe, with quasi-live windows.
//!
//! Live mode: new audio is transcribed in windows cut at silence boundaries so
//! words stay whole, and delivered as it accumulates.
//!
//! Close pass:
//! - Stereo (channel-separated) recordings: the mic channel's "You" segments
//!   from the live windows are kept; only the un-transcribed tail plus a mono
//!   diarized pass over the remote channel are uploaded.
//! - Mono recordings: the whole recording is re-transcribed with diarization.
//!
//! Uploads are Ogg-Opus when the sample rate allows, falling back to WAV
//! otherwise.

use crate::audio::opus_enc::{is_opus_rate, opus_supports};
use crate::audio::pcm::{channel_of, peak, peak_of, samples, split_channel};
use crate::audio::wav::{wav_bytes, wav_file, wav_file_fits};
use super::utterances::{by_start, in_order, sort_segments, sorting_is_stable, sorting_keeps_all};
use super::{segment_views, Segment, SegmentView};
use crate::text::{
    concat2, concat3, decimal, decimal_string, opt_text, owned, parse_u64, parse_unsigned, same,
    texts,
};
use crate::time::{clamp, clamped};
use vstd::prelude::*;
use vstd::utf8::encode_utf8;

verus! {

broadcast use vstd::string::group_string_axioms;

// ---------------------------------------------------------------------------
// Where a live window ends
// ---------------------------------------------------------------------------

/// The number of consecutive quiet frames that count as a gap: 200 ms.
pub const QUIET_SPAN_FRAMES: u64 = 10;

/// The peak below which a frame is quiet, about 2.4% of full scale.
pub const QUIET_PEAK: i32 = 800;

/// How many of the last frames are searched for a gap: four seconds.
pub const SEARCH_FRAMES: u64 = 200;

/// The bytes of a 20 ms frame.
pub open spec fn frame_bytes(sample_rate: int, channels: int) -> int {
    sample_rate / 1000 * 20 * 2 * channels
}

/// Whether frame `i` of a recording is quiet.
pub open spec fn quiet(pcm: Seq<u8>, width: int, i: int) -> bool {
    peak_of(samples(pcm.subrange(i * width, (i + 1) * width))) < QUIET_PEAK
}

/// How many quiet frames in a row end with frame `i`, not counting frames
/// before `first`.
pub open spec fn quiet_run(pcm: Seq<u8>, width: int, first: int, i: int) -> int
    decreases i - first + 1,
{
    if i < first || !quiet(pcm, width, i) {
        0
    } else {
        1 + quiet_run(pcm, width, first, i - 1)
    }
}

/// The latest frame before `end` with which a gap ends; `first - 1` where no
/// gap lies between `first` and `end`.
pub open spec fn latest_gap(pcm: Seq<u8>, width: int, first: int, end: int) -> int
    decreases end - first,
{
    if end <= first {
        first - 1
    } else if quiet_run(pcm, width, first, end - 1) >= QUIET_SPAN_FRAMES {
        end - 1
    } else {
        latest_gap(pcm, width, first, end - 1)
    }
}

/// The first of the frames that are searched for a gap.
pub open spec fn search_from(pcm: Seq<u8>, width: int) -> int {
    let total = pcm.len() as int / width;
    if total > SEARCH_FRAMES {
        total - SEARCH_FRAMES
    } else {
        0
    }
}

/// Where the pending audio is cut: in the middle of the latest gap within its
/// last seconds, at its end where there is no gap.
pub open spec fn cut_point(pcm: Seq<u8>, sample_rate: int, channels: int) -> int {
    let width = frame_bytes(sample_rate, channels);
    if width == 0 || pcm.len() < width * QUIET_SPAN_FRAMES {
        pcm.len() as int
    } else {
        let first = search_from(pcm, width);
        let i = latest_gap(pcm, width, first, pcm.len() as int / width);
        if i < first {
            pcm.len() as int
        } else {
            (i + 1 - quiet_run(pcm, width, first, i) / 2) * width
        }
    }
}

proof fn lemma_quiet_run(pcm: Seq<u8>, width: int, first: int, i: int)
    requires
        first <= i + 1,
    ensures
        0 <= quiet_run(pcm, width, first, i) <= i - first + 1,
        forall|f: int|
            i - quiet_run(pcm, width, first, i) < f <= i ==> #[trigger] quiet(pcm, width, f),
    decreases i - first + 1,
{
    if i >= first && quiet(pcm, width, i) {
        lemma_quiet_run(pcm, width, first, i - 1);
    }
}

proof fn lemma_latest_gap(pcm: Seq<u8>, width: int, first: int, end: int)
    requires
        first <= end,
    ensures
        first - 1 <= latest_gap(pcm, width, first, end) < end || end == first,
        latest_gap(pcm, width, first, end) >= first ==> quiet_run(
            pcm,
            width,
            first,
            latest_gap(pcm, width, first, end),
        ) >= QUIET_SPAN_FRAMES,
    decreases end - first,
{
    if end > first {
        lemma_latest_gap(pcm, width, first, end - 1);
    }
}

/// The cut lies within the audio. Where it is not the end, it lies between two
/// frames, and the five frames before and behind it are quiet: no word is cut.
pub proof fn cut_is_in_a_gap(pcm: Seq<u8>, sample_rate: int, channels: int)
    requires
        sample_rate >= 0,
        channels >= 0,
    ensures
        ({
            let cut = cut_point(pcm, sample_rate, channels);
            let width = frame_bytes(sample_rate, channels);
            &&& 0 <= cut <= pcm.len()
            &&& cut < pcm.len() ==> {
                &&& width > 0
                &&& cut == cut / width * width
                &&& 0 < cut
                &&& forall|f: int|
                    cut / width - 5 <= f < cut / width + 5 ==> #[trigger] quiet(pcm, width, f)
            }
        }),
{
    let width = frame_bytes(sample_rate, channels);
    assert(width >= 0) by (nonlinear_arith)
        requires
            sample_rate >= 0,
            channels >= 0,
            width == sample_rate / 1000 * 20 * 2 * channels,
    ;
    if width != 0 && pcm.len() >= width * QUIET_SPAN_FRAMES {
        let total = pcm.len() as int / width;
        let first = search_from(pcm, width);
        assert(total >= 0 && total * width <= pcm.len()) by (nonlinear_arith)
            requires
                width > 0,
                total == pcm.len() as int / width,
        ;
        let i = latest_gap(pcm, width, first, total);
        lemma_latest_gap(pcm, width, first, total);
        if i >= first {
            let run = quiet_run(pcm, width, first, i);
            lemma_quiet_run(pcm, width, first, i);
            let c = i + 1 - run / 2;
            assert(0 < c <= total);
            let cut = c * width;
            assert(cut <= total * width) by (nonlinear_arith)
                requires
                    c <= total,
                    width > 0,
                    cut == c * width,
            ;
            assert(cut > 0 && cut / width == c) by (nonlinear_arith)
                requires
                    c > 0,
                    width > 0,
                    cut == c * width,
            ;
        }
    }
}

/// Find a frame-aligned cut point in the latest quiet spot of the final seconds
/// of the pending audio, so live windows don't slice words in half. Falls back
/// to the full length when speech is continuous.
pub fn silence_cut_point(pcm: &[u8], sample_rate: u32, channels: u16) -> (r: usize)
    ensures
        r == cut_point(pcm@, sample_rate as int, channels as int),
        r <= pcm@.len(),
{
    let per_channel: u64 = sample_rate as u64 / 1000 * 20 * 2;
    assert(per_channel * channels <= 171_798_680 * 65_535) by (nonlinear_arith)
        requires
            per_channel <= 171_798_680,
            channels <= 65_535,
    ;
    let wide: u64 = per_channel * channels as u64;
    assert(wide == frame_bytes(sample_rate as int, channels as int));
    proof {
        cut_is_in_a_gap(pcm@, sample_rate as int, channels as int);
    }
    if wide == 0 || (pcm.len() as u64) < wide * QUIET_SPAN_FRAMES {
        return pcm.len();
    }
    let width: usize = wide as usize;
    let total: usize = pcm.len() / width;
    let first: usize = if total as u64 > SEARCH_FRAMES {
        total - SEARCH_FRAMES as usize
    } else {
        0
    };
    let mut run: usize = 0;
    let mut gap: Option<(usize, usize)> = None;
    let mut i: usize = first;
    while i < total
        invariant
            first <= i <= total,
            width > 0,
            width == frame_bytes(sample_rate as int, channels as int),
            total == pcm.len() / width,
            run == quiet_run(pcm@, width as int, first as int, i - 1),
            run <= i - first,
            match gap {
                Some((at, n)) => {
                    &&& first <= at < i
                    &&& at == latest_gap(pcm@, width as int, first as int, i as int)
                    &&& n == quiet_run(pcm@, width as int, first as int, at as int)
                    &&& n <= at + 1
                },
                None => latest_gap(pcm@, width as int, first as int, i as int) < first,
            },
        decreases total - i,
    {
        assert((i + 1) * width <= pcm.len() && i * width >= 0 && i * width <= (i + 1) * width)
            by (nonlinear_arith)
            requires
                i < pcm.len() / width,
                width > 0,
        ;
        let frame = vstd::slice::slice_subrange(pcm, i * width, (i + 1) * width);
        if peak(frame) < QUIET_PEAK {
            run += 1;
            if run as u64 >= QUIET_SPAN_FRAMES {
                gap = Some((i, run));
            }
        } else {
            run = 0;
        }
        i += 1;
    }
    match gap {
        Some((at, n)) => {
            let c: usize = at + 1 - n / 2;
            assert(c * width <= pcm.len());
            c * width
        },
        None => pcm.len(),
    }
}

// ---------------------------------------------------------------------------
// Uploads
// ---------------------------------------------------------------------------

/// An audio file to upload.
#[derive(Debug)]
pub struct AudioPayload {
    pub bytes: Vec<u8>,
    pub filename: &'static str,
    pub mime: &'static str,
}

/// Whether a recording is uploaded as Ogg-Opus, given whether it could be
/// encoded.
pub open spec fn uploads_opus(sample_rate: int, channels: int, encoded: bool) -> bool {
    is_opus_rate(sample_rate) && channels <= 2 && encoded
}

/// Prefer Ogg-Opus (small); fall back to WAV for sample rates and channel
/// counts that Opus does not take, or where `opus`, the encoded recording, could
/// not be made.
pub fn audio_payload(
    pcm: &[u8],
    sample_rate: u32,
    channels: u16,
    opus: Option<Vec<u8>>,
) -> (r: AudioPayload)
    requires
        !uploads_opus(sample_rate as int, channels as int, opus is Some) ==> wav_file_fits(
            pcm@,
            sample_rate as int,
            channels as int,
        ),
    ensures
        uploads_opus(sample_rate as int, channels as int, opus is Some) ==> {
            &&& r.bytes@ == opus->0@
            &&& r.filename@ == "audio.ogg"@
            &&& r.mime@ == "audio/ogg"@
        },
        !uploads_opus(sample_rate as int, channels as int, opus is Some) ==> {
            &&& r.bytes@ == wav_file(pcm@, sample_rate as int, channels as int)
            &&& r.filename@ == "audio.wav"@
            &&& r.mime@ == "audio/wav"@
        },
{
    if opus_supports(sample_rate) && channels <= 2 {
        if let Some(bytes) = opus {
            return AudioPayload { bytes, filename: "audio.ogg", mime: "audio/ogg" };
        }
    }
    AudioPayload {
        bytes: wav_bytes(pcm, sample_rate, channels),
        filename: "audio.wav",
        mime: "audio/wav",
    }
}

/// What separates the parts of an upload.
pub open spec fn boundary() -> Seq<char> {
    "----yogurt-multipart-boundary"@
}

/// A text field of an upload.
pub open spec fn form_field(name: Seq<char>, value: Seq<char>) -> Seq<char> {
    "--"@ + boundary() + "\r\nContent-Disposition: form-data; name=\""@ + name + "\"\r\n\r\n"@
        + value + "\r\n"@
}

/// One field for each term that the transcription is biased toward.
pub open spec fn keyterm_fields(terms: Seq<Seq<char>>) -> Seq<char>
    decreases terms.len(),
{
    if terms.len() == 0 {
        seq![]
    } else {
        keyterm_fields(terms.drop_last()) + form_field("keyterms"@, terms.last())
    }
}

/// How the speakers are to be told apart: by channel, or by their voices.
pub open spec fn speaker_fields(multichannel: bool) -> Seq<char> {
    if multichannel {
        form_field("use_multi_channel"@, "true"@) + form_field(
            "multichannel_output_style"@,
            "combined"@,
        )
    } else {
        form_field("diarize"@, "true"@)
    }
}

/// The head of the part of an upload that holds the audio.
pub open spec fn file_head(filename: Seq<char>, mime: Seq<char>) -> Seq<char> {
    "--"@ + boundary() + "\r\nContent-Disposition: form-data; name=\"file\"; filename=\""@
        + filename + "\"\r\nContent-Type: "@ + mime + "\r\n\r\n"@
}

/// What ends an upload.
pub open spec fn form_end() -> Seq<char> {
    "\r\n--"@ + boundary() + "--\r\n"@
}

/// What stands before the audio in an upload.
pub open spec fn upload_head(
    model: Seq<char>,
    keyterms: Seq<Seq<char>>,
    multichannel: bool,
    filename: Seq<char>,
    mime: Seq<char>,
) -> Seq<char> {
    form_field("model_id"@, model) + speaker_fields(multichannel) + keyterm_fields(keyterms)
        + file_head(filename, mime)
}

fn push_field(out: &mut String, name: &str, value: &str)
    ensures
        final(out)@ == old(out)@ + form_field(name@, value@),
{
    out.append("--");
    out.append("----yogurt-multipart-boundary");
    out.append("\r\nContent-Disposition: form-data; name=\"");
    out.append(name);
    out.append("\"\r\n\r\n");
    out.append(value);
    out.append("\r\n");
    assert(out@ =~= old(out)@ + form_field(name@, value@));
}

/// The body of an upload: the model, how to tell the speakers apart, the terms
/// to bias toward, and the audio file.
pub fn upload_body(
    audio: &AudioPayload,
    model: &str,
    keyterms: &[String],
    multichannel: bool,
) -> (r: Vec<u8>)
    ensures
        r@ == encode_utf8(
            upload_head(model@, texts(keyterms@), multichannel, audio.filename@, audio.mime@),
        ) + audio.bytes@ + encode_utf8(form_end()),
{
    let mut head = String::new();
    push_field(&mut head, "model_id", model);
    assert(head@ =~= form_field("model_id"@, model@));
    let ghost named = head@;
    if multichannel {
        push_field(&mut head, "use_multi_channel", "true");
        push_field(&mut head, "multichannel_output_style", "combined");
    } else {
        push_field(&mut head, "diarize", "true");
    }
    assert(head@ =~= named + speaker_fields(multichannel));
    let ghost before = head@;
    let ghost terms = texts(keyterms@);
    let mut i: usize = 0;
    assert(terms.take(0) =~= Seq::<Seq<char>>::empty());
    assert(head@ =~= before + keyterm_fields(terms.take(0)));
    while i < keyterms.len()
        invariant
            i <= keyterms@.len(),
            terms == texts(keyterms@),
            head@ == before + keyterm_fields(terms.take(i as int)),
        decreases keyterms@.len() - i,
    {
        assert(terms.take(i + 1).drop_last() =~= terms.take(i as int));
        assert(terms.take(i + 1).last() == keyterms@[i as int]@);
        push_field(&mut head, "keyterms", keyterms[i].as_str());
        assert(head@ =~= before + keyterm_fields(terms.take(i + 1)));
        i += 1;
    }
    assert(terms.take(i as int) =~= terms);
    head.append("--");
    head.append("----yogurt-multipart-boundary");
    head.append("\r\nContent-Disposition: form-data; name=\"file\"; filename=\"");
    head.append(audio.filename);
    head.append("\"\r\nContent-Type: ");
    head.append(audio.mime);
    head.append("\r\n\r\n");
    assert(head@ =~= upload_head(
        model@,
        texts(keyterms@),
        multichannel,
        audio.filename@,
        audio.mime@,
    ));
    let end = concat3("\r\n--", "----yogurt-multipart-boundary", "--\r\n");
    let mut body = vstd::slice::slice_to_vec(head.as_str().as_bytes());
    body.extend_from_slice(audio.bytes.as_slice());
    body.extend_from_slice(end.as_str().as_bytes());
    assert(body@ =~= encode_utf8(head@) + audio.bytes@ + encode_utf8(form_end()));
    body
}

/// What a reply with a status other than success means.
pub open spec fn status_error(status: nat, text: Seq<char>) -> Seq<char> {
    "elevenlabs API error "@ + decimal(status) + ": "@ + text
}

/// A reply is read further only where its status is success.
pub fn check_status(status: u16, text: &str) -> (r: Result<(), String>)
    ensures
        r is Ok <==> status == 200,
        r matches Err(e) ==> e@ == status_error(status as nat, text@),
{
    if status == 200 {
        Ok(())
    } else {
        let mut e = concat2("elevenlabs API error ", decimal_string(status as u64).as_str());
        e.append(": ");
        e.append(text);
        assert(e@ =~= status_error(status as nat, text@));
        Err(e)
    }
}

// ---------------------------------------------------------------------------
// Live windows
// ---------------------------------------------------------------------------

/// Seconds between live windows, unless set otherwise.
pub const DEFAULT_LIVE_SECS: u64 = 10;

/// Don't bother transcribing live windows shorter than this.
pub const MIN_WINDOW_SECS: u64 = 2;

/// Failed live windows are rewound and retried in the next window, until the
/// backlog reaches this size: a long outage shouldn't re-upload an ever-growing
/// payload every interval.
pub const LIVE_RETRY_MAX_SECS: u64 = 120;

/// The state of live transcription. Times are milliseconds of a clock.
#[derive(Debug, Clone, Copy, PartialEq, Eq, Structural)]
pub struct LiveState {
    pub interval_secs: u64,
    pub last_flush: u64,
    /// How much of the audio live transcription has consumed, in bytes.
    pub consumed: usize,
    /// Whether a window is being transcribed.
    pub in_flight: bool,
    /// Whether any live window was delivered.
    pub delivered: bool,
}

/// Audio handed out for transcription.
#[derive(Debug)]
pub struct Window {
    /// Where the window starts in the recording, in bytes.
    pub start: usize,
    pub bytes: Vec<u8>,
}

/// What became of a live window.
#[derive(Debug)]
pub struct WindowOutcome {
    pub segments: Vec<Segment>,
    pub error: Option<String>,
}

/// What remains to be transcribed at the end.
#[derive(Debug)]
pub enum ClosePlan {
    /// Closed before.
    Closed,
    /// No audio was recorded.
    Nothing,
    /// Transcribe the whole recording; `replace` tells that segments were
    /// delivered live, which the result replaces.
    Mono { pcm: Vec<u8>, replace: bool },
    /// Transcribe the tail, if it is long enough, and the remote channel; `you`
    /// are the mic channel's segments so far.
    Stereo { tail: Option<Vec<u8>>, offset: i64, remote: Vec<u8>, you: Vec<Segment> },
}

/// How the segments of the close pass are delivered.
#[derive(Debug)]
pub enum Delivery {
    Nothing,
    /// One after the other, behind those delivered before.
    Each(Vec<Segment>),
    /// In place of all those delivered before.
    Replace(Vec<Segment>),
}

/// Bytes of audio in a second.
pub open spec fn byte_rate(sample_rate: int, channels: int) -> int {
    sample_rate * 2 * channels
}

/// When a position in the recording is reached, in microseconds.
pub open spec fn micros_at(bytes: int, rate: int) -> int {
    if rate == 0 {
        0
    } else {
        clamped(bytes * 1_000_000 / rate)
    }
}

/// Whether the interval since the last window has passed.
pub open spec fn due(live: LiveState, now: u64) -> bool {
    let elapsed = if now > live.last_flush {
        now - live.last_flush
    } else {
        0
    };
    elapsed / 1000 >= live.interval_secs
}

/// Where the next live window ends, if one is to be transcribed now: the
/// interval has passed, no window is being transcribed, and enough audio waits.
pub open spec fn window_end(
    live: LiveState,
    buf: Seq<u8>,
    sample_rate: int,
    channels: int,
    now: u64,
) -> Option<int> {
    if due(live, now) && !live.in_flight && live.consumed <= buf.len() && buf.len() - live.consumed
        >= MIN_WINDOW_SECS * byte_rate(sample_rate, channels) {
        Some(live.consumed + cut_point(buf.skip(live.consumed as int), sample_rate, channels))
    } else {
        None
    }
}

/// The state of live transcription after looking for a window.
pub open spec fn after_look(
    live: LiveState,
    buf: Seq<u8>,
    sample_rate: int,
    channels: int,
    now: u64,
) -> LiveState {
    if !due(live, now) {
        live
    } else {
        match window_end(live, buf, sample_rate, channels, now) {
            Some(end) => LiveState {
                last_flush: now,
                in_flight: true,
                consumed: end as usize,
                ..live
            },
            None => LiveState { last_flush: now, ..live },
        }
    }
}

/// A segment moved to a later time.
pub open spec fn shifted(seg: SegmentView, offset: int) -> SegmentView {
    SegmentView {
        start_time: clamped(seg.start_time + offset),
        end_time: clamped(seg.end_time + offset),
        ..seg
    }
}

/// A list of segments moved to a later time.
pub open spec fn all_shifted(segs: Seq<SegmentView>, offset: int) -> Seq<SegmentView> {
    segs.map_values(|s: SegmentView| shifted(s, offset))
}

/// The segments of the local user.
pub open spec fn yours(segs: Seq<SegmentView>) -> Seq<SegmentView>
    decreases segs.len(),
{
    if segs.len() == 0 {
        seq![]
    } else if segs.last().speaker == "You"@ {
        yours(segs.drop_last()).push(segs.last())
    } else {
        yours(segs.drop_last())
    }
}

/// A failed window of `len` bytes is tried again unless it is too long.
pub open spec fn retried(len: int, sample_rate: int, channels: int) -> bool {
    len <= LIVE_RETRY_MAX_SECS * byte_rate(sample_rate, channels)
}

fn rate_of(sample_rate: u32, channels: u16) -> (r: u64)
    ensures
        r == byte_rate(sample_rate as int, channels as int),
        r <= 562_941_363_486_720,
{
    assert(sample_rate * 2 * channels <= 4_294_967_295 * 2 * 65_535) by (nonlinear_arith)
        requires
            sample_rate <= 4_294_967_295,
            channels <= 65_535,
    ;
    sample_rate as u64 * 2 * channels as u64
}

fn time_at(bytes: usize, rate: u64) -> (r: i64)
    ensures
        r == micros_at(bytes as int, rate as int),
{
    if rate == 0 {
        0
    } else {
        let total: u128 = bytes as u128 * 1_000_000;
        let n: u128 = total / rate as u128;
        assert(n <= total) by (nonlinear_arith)
            requires
                n == total / (rate as u128),
                rate > 0,
        ;
        clamp(n as i128)
    }
}

fn shift(seg: &Segment, offset: i64) -> (r: Segment)
    ensures
        r@ == shifted(seg@, offset as int),
{
    let mut out = seg.copy();
    out.start_time = clamp(seg.start_time as i128 + offset as i128);
    out.end_time = clamp(seg.end_time as i128 + offset as i128);
    out
}

fn shift_all(segs: &[Segment], offset: i64) -> (r: Vec<Segment>)
    ensures
        segment_views(r@) == all_shifted(segment_views(segs@), offset as int),
{
    let ghost all = all_shifted(segment_views(segs@), offset as int);
    let mut out: Vec<Segment> = Vec::new();
    let mut i: usize = 0;
    while i < segs.len()
        invariant
            i <= segs@.len(),
            all == all_shifted(segment_views(segs@), offset as int),
            segment_views(out@) =~= all.take(i as int),
        decreases segs@.len() - i,
    {
        let ghost before = segment_views(out@);
        out.push(shift(&segs[i], offset));
        assert(segment_views(out@) =~= before.push(all[i as int]));
        i += 1;
    }
    out
}

fn push_yours(out: &mut Vec<Segment>, segs: &[Segment])
    ensures
        segment_views(final(out)@) == segment_views(old(out)@) + yours(segment_views(segs@)),
{
    let ghost start = segment_views(out@);
    let ghost all = segment_views(segs@);
    let mut i: usize = 0;
    assert(all.take(0) =~= Seq::<SegmentView>::empty());
    assert(start + yours(all.take(0)) =~= start);
    while i < segs.len()
        invariant
            i <= segs@.len(),
            all == segment_views(segs@),
            segment_views(out@) == start + yours(all.take(i as int)),
        decreases segs@.len() - i,
    {
        assert(all.take(i + 1).drop_last() =~= all.take(i as int));
        assert(all.take(i + 1).last() == segs@[i as int]@);
        if same(segs[i].speaker.as_str(), "You") {
            let ghost before = segment_views(out@);
            out.push(segs[i].copy());
            assert(segment_views(out@) =~= before.push(segs@[i as int]@));
            assert(start + yours(all.take(i + 1)) =~= (start + yours(all.take(i as int))).push(
                segs@[i as int]@,
            ));
        }
        i += 1;
    }
    assert(all.take(i as int) =~= all);
}

/// A transcription by ElevenLabs Scribe: the audio so far, and how much of it
/// was transcribed live.
#[derive(Debug)]
pub struct ElevenLabsClient {
    pub api_key: String,
    pub model: String,
    pub keyterms: Vec<String>,
    pub sample_rate: u32,
    pub channels: u16,
    pub audio_buf: Vec<u8>,
    pub closed: bool,
    pub live: Option<LiveState>,
    /// Mic-channel segments delivered by live windows (stereo only); they are
    /// authoritative and reused in the close pass.
    pub live_you: Vec<Segment>,
}

/// Whether two clients have the same settings.
pub open spec fn same_setup(a: ElevenLabsClient, b: ElevenLabsClient) -> bool {
    &&& a.api_key@ == b.api_key@
    &&& a.model@ == b.model@
    &&& texts(a.keyterms@) == texts(b.keyterms@)
    &&& a.sample_rate == b.sample_rate
    &&& a.channels == b.channels
}

/// The seconds between live windows that a setting gives; the default where it
/// gives no number.
pub open spec fn live_interval(setting: Option<Seq<char>>) -> nat {
    match setting {
        Some(t) => match parse_unsigned(t, u64::MAX as nat) {
            Some(n) => n,
            None => DEFAULT_LIVE_SECS as nat,
        },
        None => DEFAULT_LIVE_SECS as nat,
    }
}

impl ElevenLabsClient {
    /// A client with no audio yet. `live_secs` sets the seconds between live
    /// windows; zero turns live mode off.
    pub fn new(
        api_key: &str,
        sample_rate: u32,
        channels: u16,
        model: &str,
        keyterms: Vec<String>,
        live_secs: &Option<String>,
        now: u64,
    ) -> (r: ElevenLabsClient)
        ensures
            r.api_key@ == api_key@,
            r.sample_rate == sample_rate,
            r.channels == channels,
            r.model@ == (if model@.len() == 0 {
                "scribe_v1"@
            } else {
                model@
            }),
            r.keyterms == keyterms,
            r.audio_buf@.len() == 0,
            !r.closed,
            r.live_you@.len() == 0,
            r.live == (if live_interval(opt_text(*live_secs)) == 0 {
                None
            } else {
                Some(
                    LiveState {
                        interval_secs: live_interval(opt_text(*live_secs)) as u64,
                        last_flush: now,
                        consumed: 0,
                        in_flight: false,
                        delivered: false,
                    },
                )
            }),
    {
        let secs: u64 = match live_secs {
            Some(t) => match parse_u64(t.as_str()) {
                Some(n) => n,
                None => DEFAULT_LIVE_SECS,
            },
            None => DEFAULT_LIVE_SECS,
        };
        ElevenLabsClient {
            api_key: owned(api_key),
            model: if model.unicode_len() == 0 {
                owned("scribe_v1")
            } else {
                owned(model)
            },
            keyterms,
            sample_rate,
            channels,
            audio_buf: Vec::new(),
            closed: false,
            live: if secs == 0 {
                None
            } else {
                Some(
                    LiveState {
                        interval_secs: secs,
                        last_flush: now,
                        consumed: 0,
                        in_flight: false,
                        delivered: false,
                    },
                )
            },
            live_you: Vec::new(),
        }
    }

    /// Begins to count the time to the first live window.
    pub fn connect(&mut self, now: u64)
        ensures
            same_setup(*final(self), *old(self)),
            final(self).audio_buf == old(self).audio_buf,
            final(self).closed == old(self).closed,
            final(self).live_you == old(self).live_you,
            final(self).live == (match old(self).live {
                Some(l) => Some(LiveState { last_flush: now, ..l }),
                None => None,
            }),
    {
        if let Some(l) = self.live {
            self.live = Some(LiveState { last_flush: now, ..l });
        }
    }

    /// Takes in audio, and hands out a window for transcription where one is
    /// due.
    pub fn send_audio(&mut self, pcm: &[u8], now: u64) -> (r: Option<Window>)
        ensures
            same_setup(*final(self), *old(self)),
            final(self).audio_buf@ == old(self).audio_buf@ + pcm@,
            final(self).closed == old(self).closed,
            final(self).live_you == old(self).live_you,
            ({
                let buf = old(self).audio_buf@ + pcm@;
                let rate = old(self).sample_rate as int;
                let ch = old(self).channels as int;
                match old(self).live {
                    Some(l) => {
                        &&& final(self).live == Some(after_look(l, buf, rate, ch, now))
                        &&& r is Some <==> window_end(l, buf, rate, ch, now) is Some
                        &&& r matches Some(w) ==> {
                            &&& w.start == l.consumed
                            &&& w.bytes@ == buf.subrange(
                                l.consumed as int,
                                window_end(l, buf, rate, ch, now)->0,
                            )
                        }
                    },
                    None => final(self).live is None && r is None,
                }
            }),
    {
        self.audio_buf.extend_from_slice(pcm);
        assert(self.audio_buf@ =~= old(self).audio_buf@ + pcm@);
        self.maybe_flush_live(now)
    }

    /// Hands out the audio accumulated since the last window, if the interval
    /// elapsed and no window is being transcribed.
    pub fn maybe_flush_live(&mut self, now: u64) -> (r: Option<Window>)
        ensures
            same_setup(*final(self), *old(self)),
            final(self).audio_buf == old(self).audio_buf,
            final(self).closed == old(self).closed,
            final(self).live_you == old(self).live_you,
            ({
                let buf = old(self).audio_buf@;
                let rate = old(self).sample_rate as int;
                let ch = old(self).channels as int;
                match old(self).live {
                    Some(l) => {
                        &&& final(self).live == Some(after_look(l, buf, rate, ch, now))
                        &&& r is Some <==> window_end(l, buf, rate, ch, now) is Some
                        &&& r matches Some(w) ==> {
                            &&& w.start == l.consumed
                            &&& w.bytes@ == buf.subrange(
                                l.consumed as int,
                                window_end(l, buf, rate, ch, now)->0,
                            )
                        }
                    },
                    None => final(self).live is None && r is None,
                }
            }),
    {
        match self.live {
            None => None,
            Some(l) => {
                let elapsed: u64 = if now > l.last_flush {
                    now - l.last_flush
                } else {
                    0
                };
                if elapsed / 1000 < l.interval_secs {
                    return None;
                }
                let looked = LiveState { last_flush: now, ..l };
                self.live = Some(looked);
                if l.in_flight {
                    return None;
                }
                let least: u64 = MIN_WINDOW_SECS * rate_of(self.sample_rate, self.channels);
                let start = l.consumed;
                if start > self.audio_buf.len() || ((self.audio_buf.len() - start) as u64) < least {
                    return None;
                }
                let pending = vstd::slice::slice_subrange(
                    self.audio_buf.as_slice(),
                    start,
                    self.audio_buf.len(),
                );
                assert(pending@ =~= self.audio_buf@.skip(start as int));
                let cut = silence_cut_point(pending, self.sample_rate, self.channels);
                let bytes = vstd::slice::slice_to_vec(vstd::slice::slice_subrange(pending, 0, cut));
                assert(bytes@ =~= self.audio_buf@.subrange(start as int, start + cut));
                self.live = Some(LiveState { in_flight: true, consumed: start + cut, ..looked });
                Some(Window { start, bytes })
            },
        }
    }

    /// Takes in what became of the window of `len` bytes at `start`. Segments
    /// are moved to their place in the recording; a failed window is rewound so
    /// that the next one retries its audio, unless it is too long.
    pub fn window_done(
        &mut self,
        start: usize,
        len: usize,
        result: Result<Vec<Segment>, String>,
    ) -> (r: WindowOutcome)
        ensures
            same_setup(*final(self), *old(self)),
            final(self).audio_buf == old(self).audio_buf,
            final(self).closed == old(self).closed,
            ({
                let rate = old(self).sample_rate as int;
                let ch = old(self).channels as int;
                match result {
                    Ok(segs) => {
                        let placed = all_shifted(
                            segment_views(segs@),
                            micros_at(start as int, byte_rate(rate, ch)),
                        );
                        &&& segment_views(r.segments@) == placed
                        &&& r.error is None
                        &&& segment_views(final(self).live_you@) == segment_views(
                            old(self).live_you@,
                        ) + (if ch > 1 {
                            yours(placed)
                        } else {
                            seq![]
                        })
                        &&& final(self).live == (match old(self).live {
                            Some(l) => Some(
                                LiveState {
                                    in_flight: false,
                                    delivered: l.delivered || segs@.len() > 0,
                                    ..l
                                },
                            ),
                            None => None,
                        })
                    },
                    Err(e) => {
                        &&& r.segments@.len() == 0
                        &&& opt_text(r.error) == Some("live transcription failed: "@ + e@)
                        &&& final(self).live_you == old(self).live_you
                        &&& final(self).live == (match old(self).live {
                            Some(l) => Some(
                                LiveState {
                                    in_flight: false,
                                    consumed: if retried(len as int, rate, ch) {
                                        start
                                    } else {
                                        l.consumed
                                    },
                                    ..l
                                },
                            ),
                            None => None,
                        })
                    },
                }
            }),
    {
        let rate = rate_of(self.sample_rate, self.channels);
        match result {
            Ok(segs) => {
                let placed = shift_all(&segs, time_at(start, rate));
                if self.channels > 1 {
                    push_yours(&mut self.live_you, &placed);
                } else {
                    assert(segment_views(self.live_you@) + Seq::<SegmentView>::empty()
                        =~= segment_views(self.live_you@));
                }
                if let Some(l) = self.live {
                    self.live = Some(
                        LiveState {
                            in_flight: false,
                            delivered: l.delivered || segs.len() > 0,
                            ..l
                        },
                    );
                }
                WindowOutcome { segments: placed, error: None }
            },
            Err(e) => {
                if let Some(l) = self.live {
                    let rewound = if len as u64 <= LIVE_RETRY_MAX_SECS * rate {
                        start
                    } else {
                        l.consumed
                    };
                    self.live = Some(LiveState { in_flight: false, consumed: rewound, ..l });
                }
                WindowOutcome {
                    segments: Vec::new(),
                    error: Some(concat2("live transcription failed: ", e.as_str())),
                }
            },
        }
    }

    /// Ends the recording and tells what remains to be transcribed. The second
    /// time nothing does.
    pub fn close(&mut self) -> (r: ClosePlan)
        ensures
            same_setup(*final(self), *old(self)),
            final(self).closed,
            final(self).live == old(self).live,
            old(self).closed ==> {
                &&& r is Closed
                &&& final(self).audio_buf == old(self).audio_buf
                &&& final(self).live_you == old(self).live_you
            },
            !old(self).closed ==> {
                let buf = old(self).audio_buf@;
                let rate = byte_rate(old(self).sample_rate as int, old(self).channels as int);
                let consumed: int = match old(self).live {
                    Some(l) => l.consumed as int,
                    None => 0,
                };
                let tail = if consumed < buf.len() {
                    buf.skip(consumed)
                } else {
                    seq![]
                };
                &&& final(self).audio_buf@.len() == 0
                &&& buf.len() == 0 ==> r is Nothing && final(self).live_you == old(self).live_you
                &&& buf.len() > 0 && old(self).channels <= 1 ==> {
                    &&& final(self).live_you == old(self).live_you
                    &&& r matches ClosePlan::Mono { pcm, replace } && pcm@ == buf && replace == (
                    match old(self).live {
                        Some(l) => l.delivered,
                        None => false,
                    })
                }
                &&& buf.len() > 0 && old(self).channels > 1 ==> {
                    &&& final(self).live_you@.len() == 0
                    &&& r matches ClosePlan::Stereo { tail: t, offset, remote, you } && {
                        &&& t is Some <==> tail.len() >= rate / 2
                        &&& t is Some ==> t->0@ == tail
                        &&& offset == micros_at(consumed, rate)
                        &&& remote@ == channel_of(buf, 1, old(self).channels as int)
                        &&& segment_views(you@) == segment_views(old(self).live_you@)
                    }
                }
            },
    {
        if self.closed {
            return ClosePlan::Closed;
        }
        self.closed = true;
        let mut buf: Vec<u8> = Vec::new();
        std::mem::swap(&mut buf, &mut self.audio_buf);
        if buf.len() == 0 {
            return ClosePlan::Nothing;
        }
        if self.channels <= 1 {
            let replace = match self.live {
                Some(l) => l.delivered,
                None => false,
            };
            return ClosePlan::Mono { pcm: buf, replace };
        }
        let consumed: usize = match self.live {
            Some(l) => l.consumed,
            None => 0,
        };
        let rate = rate_of(self.sample_rate, self.channels);
        let at: usize = if consumed < buf.len() {
            consumed
        } else {
            buf.len()
        };
        let rest = vstd::slice::slice_subrange(buf.as_slice(), at, buf.len());
        assert(rest@ =~= (if consumed < buf@.len() {
            buf@.skip(consumed as int)
        } else {
            Seq::<u8>::empty()
        }));
        let tail = if rest.len() as u64 >= rate / 2 {
            Some(vstd::slice::slice_to_vec(rest))
        } else {
            None
        };
        let remote = split_channel(buf.as_slice(), 1, self.channels);
        let mut you: Vec<Segment> = Vec::new();
        std::mem::swap(&mut you, &mut self.live_you);
        ClosePlan::Stereo { tail, offset: time_at(consumed, rate), remote, you }
    }
}

/// The transcript of a stereo recording: the local user's segments, live and of
/// the tail, and those of the remote channel, by their start.
pub fn merge_channels(
    you: Vec<Segment>,
    offset: i64,
    tail: &[Segment],
    remote: Vec<Segment>,
) -> (r: Vec<Segment>)
    ensures
        segment_views(r@) == by_start(
            segment_views(you@) + yours(all_shifted(segment_views(tail@), offset as int))
                + segment_views(remote@),
        ),
{
    let mut merged = you;
    let placed = shift_all(tail, offset);
    push_yours(&mut merged, &placed);
    let ghost before = segment_views(merged@);
    let ghost more = segment_views(remote@);
    let mut rest = remote;
    merged.append(&mut rest);
    assert(segment_views(merged@) =~= before + more);
    sort_segments(merged)
}

/// How the segments of a close pass are delivered: for a stereo recording they
/// replace what was delivered live, unless there are none; for a mono recording
/// they do so only where something was delivered live.
pub fn deliver(segments: Vec<Segment>, stereo: bool, replace: bool) -> (r: Delivery)
    ensures
        stereo && segments@.len() == 0 ==> r is Nothing,
        (stereo && segments@.len() > 0) || (!stereo && replace) ==> r == Delivery::Replace(
            segments,
        ),
        !stereo && !replace ==> r == Delivery::Each(segments),
{
    if stereo {
        if segments.len() == 0 {
            Delivery::Nothing
        } else {
            Delivery::Replace(segments)
        }
    } else if replace {
        Delivery::Replace(segments)
    } else {
        Delivery::Each(segments)
    }
}

/// A live window starts where live transcription has come to and ends within
/// the audio, which is then where the next one starts; and no second window
/// starts while one is being transcribed. So no byte is skipped.
pub proof fn windows_skip_no_audio(
    live: LiveState,
    buf: Seq<u8>,
    sample_rate: int,
    channels: int,
    now: u64,
)
    requires
        sample_rate >= 0,
        channels >= 0,
        buf.len() <= usize::MAX,
    ensures
        live.in_flight ==> window_end(live, buf, sample_rate, channels, now) is None,
        window_end(live, buf, sample_rate, channels, now) matches Some(end) ==> {
            &&& live.consumed <= end <= buf.len()
            &&& after_look(live, buf, sample_rate, channels, now).consumed == end
            &&& after_look(live, buf, sample_rate, channels, now).in_flight
        },
        window_end(live, buf, sample_rate, channels, now) is None ==> after_look(
            live,
            buf,
            sample_rate,
            channels,
            now,
        ).consumed == live.consumed,
{
    if live.consumed <= buf.len() {
        cut_is_in_a_gap(buf.skip(live.consumed as int), sample_rate, channels);
    }
}

// ---------------------------------------------------------------------------
// What windows and uploads hold
// ---------------------------------------------------------------------------

/// A frame is quiet if and only if each of its samples lies between -800 and
/// 800.
pub proof fn quiet_frames_have_small_samples(pcm: Seq<u8>, width: int, i: int)
    ensures
        quiet(pcm, width, i) <==> forall|k: int|
            0 <= k < samples(pcm.subrange(i * width, (i + 1) * width)).len() ==> -800
                < #[trigger] samples(pcm.subrange(i * width, (i + 1) * width))[k] < 800,
{
    let s = samples(pcm.subrange(i * width, (i + 1) * width));
    crate::audio::pcm::lemma_peak(s);
    if quiet(pcm, width, i) {
        assert forall|k: int| 0 <= k < s.len() implies -800 < #[trigger] s[k] < 800 by {
            assert(crate::audio::pcm::abs(s[k]) <= peak_of(s));
        }
    }
}

/// Whether a gap ends with a frame: it and the nine frames before it are quiet,
/// and all of them are searched.
pub open spec fn gap_ends_at(pcm: Seq<u8>, width: int, first: int, e: int) -> bool {
    e - 9 >= first && forall|f: int| e - 9 <= f <= e ==> #[trigger] quiet(pcm, width, f)
}

proof fn lemma_run_holds_gap(pcm: Seq<u8>, width: int, first: int, e: int, n: int)
    requires
        e - n + 1 >= first,
        n >= 0,
        forall|f: int| e - n < f <= e ==> #[trigger] quiet(pcm, width, f),
    ensures
        quiet_run(pcm, width, first, e) >= n,
    decreases n,
{
    if n > 0 {
        assert(quiet(pcm, width, e));
        lemma_run_holds_gap(pcm, width, first, e - 1, n - 1);
    } else {
        lemma_quiet_run(pcm, width, first, e);
    }
}

proof fn lemma_gap_is_latest(pcm: Seq<u8>, width: int, first: int, end: int, e: int)
    requires
        first <= end,
        e < end,
        gap_ends_at(pcm, width, first, e),
    ensures
        latest_gap(pcm, width, first, end) >= e,
    decreases end - first,
{
    if e == end - 1 {
        lemma_run_holds_gap(pcm, width, first, e, 10);
    } else {
        lemma_gap_is_latest(pcm, width, first, end - 1, e);
    }
}

proof fn lemma_run_stops(pcm: Seq<u8>, width: int, first: int, i: int)
    requires
        first <= i + 1,
    ensures
        quiet_run(pcm, width, first, i) == i - first + 1 || !quiet(
            pcm,
            width,
            i - quiet_run(pcm, width, first, i),
        ),
    decreases i - first + 1,
{
    if i >= first && quiet(pcm, width, i) {
        lemma_run_stops(pcm, width, first, i - 1);
    }
}

/// Whether audio is cut in the middle of the quiet frames from `a` to `z`: these
/// are all quiet, no more frames before them are, a gap ends with the last one,
/// and no gap ends behind it.
pub open spec fn cut_within(
    pcm: Seq<u8>,
    width: int,
    first: int,
    total: int,
    cut: int,
    a: int,
    z: int,
) -> bool {
    &&& first <= a <= z < total
    &&& gap_ends_at(pcm, width, first, z)
    &&& forall|f: int| a <= f <= z ==> #[trigger] quiet(pcm, width, f)
    &&& a == first || !quiet(pcm, width, a - 1)
    &&& forall|e: int| z < e < total ==> !#[trigger] gap_ends_at(pcm, width, first, e)
    &&& cut == (z + 1 - (z + 1 - a) / 2) * width
}

/// The audio is cut in the middle of the latest gap: the last four seconds are
/// searched, and where there is a gap in them, no other gap ends behind the quiet
/// frames around the cut, of which as many lie before it as behind it, or one
/// more. Where there is no gap, nothing is cut. `total` is the number of whole
/// frames, `first` the first one of the last four seconds.
pub proof fn cut_is_in_the_latest_gap(
    pcm: Seq<u8>,
    sample_rate: int,
    channels: int,
    width: int,
    first: int,
    total: int,
)
    requires
        width == frame_bytes(sample_rate, channels),
        width > 0,
        pcm.len() >= width * 10,
        total == pcm.len() as int / width,
        total > 200 ==> first == total - 200,
        total <= 200 ==> first == 0,
    ensures
        (exists|e: int| e < total && #[trigger] gap_ends_at(pcm, width, first, e))
            ==> exists|a: int, z: int| #[trigger]
            cut_within(
                pcm,
                width,
                first,
                total,
                cut_point(pcm, sample_rate, channels),
                a,
                z,
            ),
        (forall|e: int| e < total ==> !#[trigger] gap_ends_at(pcm, width, first, e)) ==> cut_point(
            pcm,
            sample_rate,
            channels,
        ) == pcm.len(),
{
    let i = latest_gap(pcm, width, first, total);
    assert(total >= 10) by (nonlinear_arith)
        requires
            width > 0,
            total == pcm.len() as int / width,
            pcm.len() >= width * 10,
    ;
    assert(first == search_from(pcm, width));
    let cut = cut_point(pcm, sample_rate, channels);
    lemma_latest_gap(pcm, width, first, total);
    if i >= first {
        lemma_quiet_run(pcm, width, first, i);
        assert(gap_ends_at(pcm, width, first, i));
    }
    if exists|e: int| e < total && #[trigger] gap_ends_at(pcm, width, first, e) {
        let e = choose|e: int| e < total && #[trigger] gap_ends_at(pcm, width, first, e);
        lemma_gap_is_latest(pcm, width, first, total, e);
        let run = quiet_run(pcm, width, first, i);
        lemma_run_stops(pcm, width, first, i);
        let a = i + 1 - run;
        assert(a == first || !quiet(pcm, width, a - 1));
        assert forall|e: int| i < e < total implies !#[trigger] gap_ends_at(
            pcm,
            width,
            first,
            e,
        ) by {
            if gap_ends_at(pcm, width, first, e) {
                lemma_gap_is_latest(pcm, width, first, total, e);
            }
        }
        assert(cut_within(pcm, width, first, total, cut, a, i));
    }
}

/// A window is handed out exactly when the interval has passed since the last
/// look, no window is being transcribed, and two seconds of audio or more wait;
/// it is then cut where the waiting audio is to be cut.
pub proof fn windows_are_due_with_two_seconds(
    live: LiveState,
    buf: Seq<u8>,
    sample_rate: int,
    channels: int,
    now: u64,
)
    requires
        live.consumed <= buf.len(),
        live.interval_secs > 0,
    ensures
        window_end(live, buf, sample_rate, channels, now) is Some <==> {
            &&& now >= live.last_flush + 1000 * live.interval_secs
            &&& !live.in_flight
            &&& buf.len() - live.consumed >= 2 * (sample_rate * 2 * channels)
        },
        window_end(live, buf, sample_rate, channels, now) matches Some(end) ==> end
            == live.consumed + cut_point(buf.skip(live.consumed as int), sample_rate, channels),
        now < live.last_flush + 1000 * live.interval_secs ==> after_look(
            live,
            buf,
            sample_rate,
            channels,
            now,
        ) == live,
{
    let elapsed = now - live.last_flush;
    if elapsed > 0 {
        assert((elapsed / 1000 >= live.interval_secs) == (elapsed >= 1000 * live.interval_secs));
    }
}

/// A window's segments are moved by the time at which the window starts: by a
/// second for each second of audio before it. What a segment says does not
/// change.
pub proof fn window_segments_are_moved_by_their_start(
    segs: Seq<SegmentView>,
    seconds: nat,
    rate: int,
    i: int,
)
    requires
        0 <= i < segs.len(),
        rate > 0,
        seconds <= 1_000_000_000,
        -1_000_000_000_000_000 <= segs[i].start_time <= 1_000_000_000_000_000,
        -1_000_000_000_000_000 <= segs[i].end_time <= 1_000_000_000_000_000,
    ensures
        ({
            let placed = all_shifted(segs, micros_at(seconds * rate, rate));
            &&& placed.len() == segs.len()
            &&& placed[i].start_time == segs[i].start_time + 1_000_000 * seconds
            &&& placed[i].end_time == segs[i].end_time + 1_000_000 * seconds
            &&& placed[i].text == segs[i].text
            &&& placed[i].speaker == segs[i].speaker
            &&& placed[i].confidence == segs[i].confidence
            &&& placed[i].is_final == segs[i].is_final
            &&& placed[i].created_at == segs[i].created_at
        }),
{
    assert(seconds * rate * 1_000_000 / rate == seconds * 1_000_000) by (nonlinear_arith)
        requires
            rate > 0,
    ;
}

/// Of the segments, exactly those of the local user are kept, in order.
pub proof fn yours_are_filtered(segs: Seq<SegmentView>)
    ensures
        yours(segs) == segs.filter(|s: SegmentView| s.speaker == "You"@),
    decreases segs.len(),
{
    reveal(Seq::filter);
    if segs.len() > 0 {
        yours_are_filtered(segs.drop_last());
    }
}

/// The transcript of a stereo recording keeps all of the local user's segments
/// and all of the remote side's, no others, each once, and stands in the order of
/// their start.
pub proof fn merging_keeps_both_sides(
    you: Seq<SegmentView>,
    tail: Seq<SegmentView>,
    remote: Seq<SegmentView>,
)
    ensures
        ({
            let merged = by_start(you + yours(tail) + remote);
            &&& in_order(merged)
            &&& merged.to_multiset() == you.to_multiset().add(
                tail.filter(|s: SegmentView| s.speaker == "You"@).to_multiset(),
            ).add(remote.to_multiset())
            &&& forall|i: int|
                0 <= i < you.len() ==> merged.contains(#[trigger] you[i])
            &&& forall|i: int| 0 <= i < remote.len() ==> merged.contains(#[trigger] remote[i])
        }),
{
    broadcast use vstd::seq_lib::group_to_multiset_ensures;

    let all = you + yours(tail) + remote;
    yours_are_filtered(tail);
    sorting_is_stable(all);
    sorting_keeps_all(all);
    vstd::seq_lib::lemma_multiset_commutative(you, yours(tail));
    vstd::seq_lib::lemma_multiset_commutative(you + yours(tail), remote);
    let merged = by_start(all);
    assert forall|i: int| 0 <= i < you.len() implies merged.contains(#[trigger] you[i]) by {
        assert(all[i] == you[i]);
        assert(all.contains(you[i]));
        assert(all.to_multiset().count(you[i]) > 0);
    }
    assert forall|i: int| 0 <= i < remote.len() implies merged.contains(#[trigger] remote[i]) by {
        assert(all[you.len() + yours(tail).len() + i] == remote[i]);
        assert(all.contains(remote[i]));
        assert(all.to_multiset().count(remote[i]) > 0);
    }
}

/// Whether a text stands somewhere in another.
pub open spec fn holds_text(s: Seq<char>, part: Seq<char>) -> bool {
    exists|at: int|
        0 <= at && at + part.len() <= s.len() && #[trigger] s.subrange(at, at + part.len()) == part
}

proof fn lemma_holds(before: Seq<char>, part: Seq<char>, after: Seq<char>)
    ensures
        holds_text(before + part + after, part),
{
    let s = before + part + after;
    let at = before.len() as int;
    assert(s.subrange(at, at + part.len()) =~= part);
}

proof fn lemma_holds_more(before: Seq<char>, s: Seq<char>, after: Seq<char>, part: Seq<char>)
    requires
        holds_text(s, part),
    ensures
        holds_text(before + s + after, part),
{
    let at = choose|at: int|
        0 <= at && at + part.len() <= s.len() && #[trigger] s.subrange(at, at + part.len()) == part;
    let all = before + s + after;
    let moved = before.len() + at;
    assert(all.subrange(moved, moved + part.len()) =~= part);
}

proof fn lemma_keyterm_field(terms: Seq<Seq<char>>, i: int)
    requires
        0 <= i < terms.len(),
    ensures
        holds_text(keyterm_fields(terms), form_field("keyterms"@, terms[i])),
    decreases terms.len(),
{
    let front = keyterm_fields(terms.drop_last());
    let last = form_field("keyterms"@, terms.last());
    if i == terms.len() - 1 {
        lemma_holds(front, last, Seq::empty());
        assert(front + last + Seq::<char>::empty() =~= front + last);
    } else {
        lemma_keyterm_field(terms.drop_last(), i);
        assert(terms.drop_last()[i] == terms[i]);
        lemma_holds_more(Seq::empty(), front, last, form_field("keyterms"@, terms[i]));
        assert(Seq::<char>::empty() + front + last =~= front + last);
    }
}

/// The value of a form's field, as it stands in the form.
pub open spec fn named_value(name: Seq<char>, value: Seq<char>) -> Seq<char> {
    "name=\""@ + name + "\"\r\n\r\n"@ + value + "\r\n"@
}

proof fn lemma_disposition()
    ensures
        "\r\nContent-Disposition: form-data; name=\""@
            == "\r\nContent-Disposition: form-data; "@ + "name=\""@,
{
    reveal_strlit("\r\nContent-Disposition: form-data; name=\"");
    reveal_strlit("\r\nContent-Disposition: form-data; ");
    reveal_strlit("name=\"");
    assert("\r\nContent-Disposition: form-data; name=\""@
        =~= "\r\nContent-Disposition: form-data; "@ + "name=\""@);
}

proof fn lemma_field_holds_value(name: Seq<char>, value: Seq<char>)
    ensures
        holds_text(form_field(name, value), named_value(name, value)),
{
    lemma_disposition();
    let d = "\r\nContent-Disposition: form-data; "@;
    let n = "name=\""@;
    let a = "--"@ + boundary();
    let rest = name + "\"\r\n\r\n"@ + value + "\r\n"@;
    assert(named_value(name, value) =~= n + rest);
    assert(form_field(name, value) =~= a + (d + n) + rest);
    lemma_moved(a, d, n, rest);
    lemma_holds(a + d, n + rest, Seq::empty());
}

proof fn lemma_moved(a: Seq<char>, d: Seq<char>, n: Seq<char>, rest: Seq<char>)
    ensures
        a + (d + n) + rest == (a + d) + (n + rest) + Seq::<char>::empty(),
{
    assert(a + (d + n) + rest =~= (a + d) + (n + rest) + Seq::<char>::empty());
}

/// An upload names the model, every key term, and how the speakers are to be
/// told apart: by channel where there are several, else by their voices.
pub proof fn uploads_name_what_is_wanted(
    model: Seq<char>,
    terms: Seq<Seq<char>>,
    multichannel: bool,
    filename: Seq<char>,
    mime: Seq<char>,
)
    ensures
        ({
            let head = upload_head(model, terms, multichannel, filename, mime);
            &&& holds_text(head, named_value("model_id"@, model))
            &&& forall|i: int|
                0 <= i < terms.len() ==> holds_text(
                    head,
                    named_value("keyterms"@, #[trigger] terms[i]),
                )
            &&& multichannel ==> holds_text(head, named_value("use_multi_channel"@, "true"@))
            &&& !multichannel ==> holds_text(head, named_value("diarize"@, "true"@))
            &&& holds_text(head, "filename=\""@ + filename + "\"\r\nContent-Type: "@ + mime)
        }),
{
    let head = upload_head(model, terms, multichannel, filename, mime);
    let m = form_field("model_id"@, model);
    let sp = speaker_fields(multichannel);
    let ks = keyterm_fields(terms);
    let fh = file_head(filename, mime);
    let none = Seq::<char>::empty();
    lemma_field_holds_value("model_id"@, model);
    lemma_holds_more(none, m, sp + ks + fh, named_value("model_id"@, model));
    assert(none + m + (sp + ks + fh) =~= head);
    assert forall|i: int| 0 <= i < terms.len() implies holds_text(
        head,
        named_value("keyterms"@, #[trigger] terms[i]),
    ) by {
        let field = form_field("keyterms"@, terms[i]);
        lemma_keyterm_field(terms, i);
        lemma_field_holds_value("keyterms"@, terms[i]);
        lemma_holds_within(ks, field, named_value("keyterms"@, terms[i]));
        lemma_holds_more(m + sp, ks, fh, named_value("keyterms"@, terms[i]));
        assert((m + sp) + ks + fh =~= head);
    }
    if multichannel {
        let f = form_field("use_multi_channel"@, "true"@);
        let g = form_field("multichannel_output_style"@, "combined"@);
        lemma_field_holds_value("use_multi_channel"@, "true"@);
        lemma_holds_more(m, f, g + ks + fh, named_value("use_multi_channel"@, "true"@));
        assert(m + f + (g + ks + fh) =~= head);
    } else {
        lemma_field_holds_value("diarize"@, "true"@);
        lemma_holds_more(m, sp, ks + fh, named_value("diarize"@, "true"@));
        assert(m + sp + (ks + fh) =~= head);
    }
    lemma_file_head(filename, mime);
    let part = "filename=\""@ + filename + "\"\r\nContent-Type: "@ + mime;
    lemma_holds_more(m + sp + ks, fh, none, part);
    assert((m + sp + ks) + fh + none =~= head);
}

proof fn lemma_file_disposition()
    ensures
        "\r\nContent-Disposition: form-data; name=\"file\"; filename=\""@
            == "\r\nContent-Disposition: form-data; name=\"file\"; "@ + "filename=\""@,
{
    reveal_strlit("\r\nContent-Disposition: form-data; name=\"file\"; filename=\"");
    reveal_strlit("\r\nContent-Disposition: form-data; name=\"file\"; ");
    reveal_strlit("filename=\"");
    assert("\r\nContent-Disposition: form-data; name=\"file\"; filename=\""@
        =~= "\r\nContent-Disposition: form-data; name=\"file\"; "@ + "filename=\""@);
}

proof fn lemma_file_head(filename: Seq<char>, mime: Seq<char>)
    ensures
        holds_text(
            file_head(filename, mime),
            "filename=\""@ + filename + "\"\r\nContent-Type: "@ + mime,
        ),
{
    lemma_file_disposition();
    let d = "\r\nContent-Disposition: form-data; name=\"file\"; "@;
    let n = "filename=\""@;
    let part = n + filename + "\"\r\nContent-Type: "@ + mime;
    let before = "--"@ + boundary() + d;
    lemma_holds(before, part, "\r\n\r\n"@);
    assert(before + part + "\r\n\r\n"@ =~= "--"@ + boundary() + (d + n) + filename
        + "\"\r\nContent-Type: "@ + mime + "\r\n\r\n"@);
}

proof fn lemma_holds_within(s: Seq<char>, middle: Seq<char>, part: Seq<char>)
    requires
        holds_text(s, middle),
        holds_text(middle, part),
    ensures
        holds_text(s, part),
{
    let a = choose|at: int|
        0 <= at && at + middle.len() <= s.len() && #[trigger] s.subrange(at, at + middle.len())
            == middle;
    let b = choose|at: int|
        0 <= at && at + part.len() <= middle.len() && #[trigger] middle.subrange(
            at,
            at + part.len(),
        ) == part;
    assert(s.subrange(a + b, a + b + part.len()) =~= middle.subrange(b, b + part.len()));
}

/// A failed window is tried again as long as it holds two minutes of audio or
/// less.
pub proof fn two_minutes_are_tried_again(len: int, sample_rate: int, channels: int)
    ensures
        retried(len, sample_rate, channels) <==> len <= 120 * (sample_rate * 2 * channels),
{
}

/// A number sets how many seconds lie between live windows; anything else leaves
/// the ten that are usual.
pub proof fn windows_come_as_often_as_set(n: nat, other: Seq<char>)
    requires
        n <= u64::MAX,
        parse_unsigned(other, u64::MAX as nat) is None,
    ensures
        live_interval(Some(decimal(n))) == n,
        live_interval(Some(other)) == 10,
        live_interval(None) == 10,
{
    crate::text::numbers_are_read_back(n, u64::MAX as nat);
}

/// Mono and stereo audio is uploaded compressed at every rate that the codec
/// takes, where it could be encoded; any other audio is uploaded as it is.
pub proof fn uploads_are_compressed_where_possible(sample_rate: int, channels: int)
    requires
        channels > 0,
    ensures
        uploads_opus(sample_rate, channels, true) <==> (sample_rate == 8000 || sample_rate == 12000
            || sample_rate == 16000 || sample_rate == 24000 || sample_rate == 48000) && (channels
            == 1 || channels == 2),
        !uploads_opus(sample_rate, channels, false),
{
}

/// What the service answers to a request that fails is told, behind its status.
pub proof fn refusals_are_told(status: nat, text: Seq<char>)
    ensures
        status_error(status, text) == status_error(status, seq![]) + text,
        status_error(status, text).take(21 + decimal(status).len() as int).skip(21) == decimal(
            status,
        ),
{
    reveal_strlit("elevenlabs API error ");
    assert("elevenlabs API error "@.len() == 21);
    let e = status_error(status, text);
    assert(e =~= status_error(status, seq![]) + text);
    assert(e.take(21 + decimal(status).len() as int).skip(21) =~= decimal(status));
}

/// Whenever a window was due, the next one is due a whole interval later, whether
/// there was enough audio or not; before that nothing changes.
pub proof fn each_look_starts_an_interval(
    live: LiveState,
    buf: Seq<u8>,
    sample_rate: int,
    channels: int,
    now: u64,
)
    ensures
        ({
            let next = after_look(live, buf, sample_rate, channels, now);
            let due_now = (if now > live.last_flush {
                now - live.last_flush
            } else {
                0
            }) / 1000 >= live.interval_secs;
            &&& due_now ==> next.last_flush == now && next.interval_secs == live.interval_secs
            &&& !due_now ==> next == live
        }),
{
}

} // verus!
