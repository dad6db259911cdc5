//! Ogg-Opus files for STT uploads (RFC 7845): framing of the samples for the
//! encoder, and the file that carries its packets.

use super::pcm::{samples, to_samples};
use super::wav::{four_bytes, four_chars, le16, le32, push_u16, push_u32, two_bytes};
use crate::text;
use ogg::writing::{PacketWriteEndInfo, PacketWriter};
use vstd::prelude::*;

verus! {

broadcast use vstd::string::group_string_axioms;

/// The serial number of the logical stream: "ygrt".
pub const OGG_SERIAL: u32 = 0x79677274;

/// The length of a frame in 48 kHz samples: 20 ms.
pub const GRANULES_PER_FRAME: u64 = 960;

/// The room that the encoder is given for one packet, in bytes.
pub const MAX_PACKET: usize = 4000;

/// Sample rates that Opus takes as input.
pub open spec fn is_opus_rate(sample_rate: int) -> bool {
    sample_rate == 8000 || sample_rate == 12000 || sample_rate == 16000 || sample_rate == 24000
        || sample_rate == 48000
}

/// Sample rates that Opus takes as input.
pub fn opus_supports(sample_rate: u32) -> (r: bool)
    ensures
        r == is_opus_rate(sample_rate as int),
{
    sample_rate == 8000 || sample_rate == 12000 || sample_rate == 16000 || sample_rate == 24000
        || sample_rate == 48000
}

/// Why a recording cannot be encoded as Opus.
#[derive(Debug, Clone, Copy, PartialEq, Eq, Structural)]
pub enum OpusError {
    UnsupportedRate(u32),
    UnsupportedChannels(u16),
}

/// The notice for an [`OpusError`].
pub open spec fn opus_error_text(e: OpusError) -> Seq<char> {
    match e {
        OpusError::UnsupportedRate(n) => "opus does not support "@ + text::decimal(n as nat)
            + "Hz input"@,
        OpusError::UnsupportedChannels(n) => "unsupported channel count "@ + text::decimal(n as nat)
            + " for opus"@,
    }
}

impl OpusError {
    /// The notice for this error.
    pub fn message(&self) -> (r: String)
        ensures
            r@ == opus_error_text(*self),
    {
        match self {
            OpusError::UnsupportedRate(n) => text::concat3(
                "opus does not support ",
                text::decimal_string(*n as u64).as_str(),
                "Hz input",
            ),
            OpusError::UnsupportedChannels(n) => text::concat3(
                "unsupported channel count ",
                text::decimal_string(*n as u64).as_str(),
                " for opus",
            ),
        }
    }
}

/// What the encoder is to be given: its bit rate, and the samples in frames.
#[derive(Debug)]
pub struct OpusPlan {
    pub bitrate: i32,
    pub frames: Vec<Vec<i16>>,
}

/// The number of interleaved samples in a 20 ms frame.
pub open spec fn frame_values(sample_rate: int, channels: int) -> int {
    sample_rate / 1000 * 20 * channels
}

/// The number of frames that hold `n` samples, the last one filled up.
pub open spec fn frames_for(n: int, width: int) -> int {
    if n % width == 0 {
        n / width
    } else {
        n / width + 1
    }
}

/// Frame `f`: its samples, then silence after the last one.
pub open spec fn padded_frame(s: Seq<int>, width: int, f: int) -> Seq<int> {
    Seq::new(
        width as nat,
        |k: int|
            if f * width + k < s.len() {
                s[f * width + k]
            } else {
                0
            },
    )
}

/// The samples in frames of `width`, the last one filled up with silence.
pub open spec fn padded_frames(s: Seq<int>, width: int) -> Seq<Seq<int>> {
    Seq::new(frames_for(s.len() as int, width) as nat, |f: int| padded_frame(s, width, f))
}

/// The values of 16-bit samples.
pub open spec fn values(v: Seq<i16>) -> Seq<int> {
    v.map_values(|x: i16| x as int)
}

/// The values of a list of frames.
pub open spec fn frame_lists(v: Seq<Vec<i16>>) -> Seq<Seq<int>> {
    v.map_values(|f: Vec<i16>| values(f@))
}

/// Cuts interleaved PCM16 LE into the frames that the encoder takes, or says
/// why Opus cannot carry it: an unsupported rate comes before an unsupported
/// channel count.
pub fn plan_opus(pcm: &[u8], sample_rate: u32, channels: u16) -> (r: Result<OpusPlan, OpusError>)
    ensures
        match r {
            Ok(plan) => {
                &&& is_opus_rate(sample_rate as int)
                &&& channels == 1 || channels == 2
                &&& plan.bitrate == (if channels == 1 {
                    24_000int
                } else {
                    40_000int
                })
                &&& frame_lists(plan.frames@) == padded_frames(
                    samples(pcm@),
                    frame_values(sample_rate as int, channels as int),
                )
            },
            Err(OpusError::UnsupportedRate(n)) => n == sample_rate && !is_opus_rate(
                sample_rate as int,
            ),
            Err(OpusError::UnsupportedChannels(n)) => n == channels && is_opus_rate(
                sample_rate as int,
            ) && channels != 1 && channels != 2,
        },
{
    if !opus_supports(sample_rate) {
        return Err(OpusError::UnsupportedRate(sample_rate));
    }
    if channels != 1 && channels != 2 {
        return Err(OpusError::UnsupportedChannels(channels));
    }
    let bitrate: i32 = if channels == 1 {
        24_000
    } else {
        40_000
    };
    let per_channel: usize = sample_rate as usize / 1000 * 20;
    let width: usize = if channels == 1 {
        per_channel
    } else {
        per_channel * 2
    };
    assert(width == frame_values(sample_rate as int, channels as int) && width >= 160) by {
        if channels == 1 {
            assert(per_channel * 1int == per_channel);
        }
    }
    let s = to_samples(pcm);
    let ghost all = samples(pcm@);
    assert(all == values(s@));
    let n = s.len();
    assert(n as int / width as int <= n as int / 2) by (nonlinear_arith)
        requires
            width >= 160,
    ;
    let count = if n % width == 0 {
        n / width
    } else {
        n / width + 1
    };
    let mut frames: Vec<Vec<i16>> = Vec::new();
    let mut f: usize = 0;
    let mut base: usize = 0;
    while f < count
        invariant
            width > 0,
            n == s@.len(),
            all == values(s@),
            count == frames_for(n as int, width as int),
            f <= count,
            f < count ==> base == f * width,
            frames@.len() == f,
            forall|k: int|
                0 <= k < f ==> values(#[trigger] frames@[k]@) == padded_frame(all, width as int, k),
        decreases count - f,
    {
        let mut frame: Vec<i16> = Vec::new();
        let mut k: usize = 0;
        proof {
            lemma_frame_start(n as int, width as int, f as int);
        }
        while k < width
            invariant
                n == s@.len(),
                all == values(s@),
                base == f * width,
                base <= n,
                k <= width,
                frame@.len() == k,
                forall|j: int|
                    0 <= j < k ==> frame@[j] == padded_frame(all, width as int, f as int)[j],
            decreases width - k,
        {
            let v: i16 = if k < n - base {
                s[base + k]
            } else {
                0
            };
            frame.push(v);
            k += 1;
        }
        assert(values(frame@) =~= padded_frame(all, width as int, f as int));
        frames.push(frame);
        proof {
            if f + 1 < count {
                lemma_frame_start(n as int, width as int, f + 1);
            }
            assert((f + 1) * width == f * width + width) by (nonlinear_arith);
        }
        if n - base >= width {
            base = base + width;
        }
        f += 1;
    }
    assert(frame_lists(frames@) =~= padded_frames(all, width as int));
    Ok(OpusPlan { bitrate, frames })
}

/// A frame that is written begins within the samples.
proof fn lemma_frame_start(n: int, width: int, f: int)
    requires
        width > 0,
        n >= 0,
        0 <= f < frames_for(n, width),
    ensures
        0 <= f * width < n,
{
    assert(0 <= f * width < n) by (nonlinear_arith)
        requires
            width > 0,
            n >= 0,
            0 <= f,
            f < n / width || (n % width != 0 && f <= n / width),
    ;
}

/// The frames hold the samples, in order, followed by less than one frame of
/// silence: nothing is lost, moved or added.
pub proof fn frames_hold_the_samples(s: Seq<int>, width: int, i: int)
    requires
        width > 0,
        0 <= i,
    ensures
        i < s.len() ==> i / width < padded_frames(s, width).len() && padded_frames(s, width)[i
            / width][i % width] == s[i],
        s.len() <= padded_frames(s, width).len() * width < s.len() + width,
{
    let n = s.len() as int;
    let count = frames_for(n, width);
    assert(count >= 0 && n <= count * width < n + width) by (nonlinear_arith)
        requires
            width > 0,
            n >= 0,
            count == (if n % width == 0 {
                n / width
            } else {
                n / width + 1
            }),
    ;
    if i < n {
        assert(0 <= i / width && (i / width) * width + i % width == i && 0 <= i % width < width)
            by (nonlinear_arith)
            requires
                width > 0,
                0 <= i,
        ;
        assert(i / width < count) by (nonlinear_arith)
            requires
                width > 0,
                0 <= i < n,
                n <= count * width,
                (i / width) * width <= i,
        ;
    }
}

/// The pre-skip of a stream in 48 kHz samples, from the encoder's lookahead in
/// samples of the input rate; its field is 16 bits wide.
pub fn pre_skip(lookahead: u32, sample_rate: u32) -> (r: u16)
    requires
        sample_rate > 0,
    ensures
        r == (lookahead * 48000 / sample_rate as int) % 0x1_0000,
{
    ((lookahead as u64 * 48000 / sample_rate as u64) % 0x1_0000) as u16
}

pub open spec fn opus_head_tag() -> Seq<u8> {
    seq![0x4fu8, 0x70u8, 0x75u8, 0x73u8, 0x48u8, 0x65u8, 0x61u8, 0x64u8]
}

pub open spec fn opus_tags_tag() -> Seq<u8> {
    seq![0x4fu8, 0x70u8, 0x75u8, 0x73u8, 0x54u8, 0x61u8, 0x67u8, 0x73u8]
}

/// The identification header of a stream.
pub open spec fn opus_head_of(channels: int, skip: int, sample_rate: int) -> Seq<u8> {
    opus_head_tag() + seq![1u8, (channels % 256) as u8] + le16(skip) + le32(sample_rate) + le16(0)
        + seq![0u8]
}

/// The comment header of a stream: the vendor "yogurt" and no comments.
pub open spec fn opus_tags_of() -> Seq<u8> {
    opus_tags_tag() + le32(6) + seq![0x79u8, 0x6fu8, 0x67u8, 0x75u8, 0x72u8, 0x74u8] + le32(0)
}

/// The identification header of a stream.
pub fn opus_head(channels: u16, skip: u16, sample_rate: u32) -> (r: Vec<u8>)
    ensures
        r@ == opus_head_of(channels as int, skip as int, sample_rate as int),
        r@.len() == 19,
{
    let mut head: Vec<u8> = vec![0x4f, 0x70, 0x75, 0x73, 0x48, 0x65, 0x61, 0x64];
    head.push(1);
    head.push((channels % 256) as u8);
    assert(head@ =~= opus_head_tag() + seq![1u8, (channels % 256) as u8]);
    push_u16(&mut head, skip);
    push_u32(&mut head, sample_rate);
    push_u16(&mut head, 0);
    head.push(0);
    assert(head@ =~= opus_head_of(channels as int, skip as int, sample_rate as int));
    head
}

/// The comment header of a stream.
pub fn opus_tags() -> (r: Vec<u8>)
    ensures
        r@ == opus_tags_of(),
        r@.len() == 22,
{
    let mut tags: Vec<u8> = vec![0x4f, 0x70, 0x75, 0x73, 0x54, 0x61, 0x67, 0x73];
    assert(tags@ =~= opus_tags_tag());
    push_u32(&mut tags, 6);
    let vendor: Vec<u8> = vec![0x79, 0x6f, 0x67, 0x75, 0x72, 0x74];
    tags.extend_from_slice(vendor.as_slice());
    push_u32(&mut tags, 0);
    assert(tags@ =~= opus_tags_of());
    tags
}

// ---------------------------------------------------------------------------
// The Ogg container
// ---------------------------------------------------------------------------

/// Whether a packet ends its page or the whole stream.
#[derive(Debug, Clone, Copy, PartialEq, Eq, Structural)]
pub enum PacketEnd {
    Normal,
    Page,
    Stream,
}

/// A packet as handed to the Ogg writer.
pub struct OggPacket {
    pub data: Seq<u8>,
    pub serial: u32,
    pub end: PacketEnd,
    pub granule: u64,
}

/// An Ogg stream under construction in memory.
#[verifier::external_body]
pub struct OggWriter {
    inner: PacketWriter<'static, Vec<u8>>,
}

/// The packets that an Ogg writer was given, in order.
pub uninterp spec fn ogg_packets(w: OggWriter) -> Seq<OggPacket>;

/// The bytes that the `ogg` crate writes for a list of packets.
pub uninterp spec fn ogg_stream(packets: Seq<OggPacket>) -> Seq<u8>;

/// `std::io::Error`, which the Ogg writer passes on.
#[verifier::external_type_specification]
#[verifier::external_body]
pub struct ExIoError(std::io::Error);

/// `PacketWriter::new` starts an empty stream.
#[verifier::external_body]
fn ogg_start() -> (r: OggWriter)
    ensures
        ogg_packets(r) == Seq::<OggPacket>::empty(),
{
    OggWriter { inner: PacketWriter::new(Vec::new()) }
}

/// `PacketWriter::write_packet` takes in one more packet of a logical stream.
/// The writer counts pages in 32 bits; the bounds keep that count in range. It
/// fails only where the writing under it does, and writing to memory does not.
#[verifier::external_body]
fn ogg_write(w: &mut OggWriter, data: Vec<u8>, serial: u32, end: PacketEnd, granule: u64) -> (r:
    Result<(), std::io::Error>)
    requires
        data@.len() <= 4000,
        ogg_packets(*old(w)).len() < 0x8000_0010,
    ensures
        r is Ok,
        ogg_packets(*final(w)) == ogg_packets(*old(w)).push(
            (OggPacket { data: data@, serial, end, granule }),
        ),
{
    let info = match end {
        PacketEnd::Normal => PacketWriteEndInfo::NormalPacket,
        PacketEnd::Page => PacketWriteEndInfo::EndPage,
        PacketEnd::Stream => PacketWriteEndInfo::EndStream,
    };
    w.inner.write_packet(data, serial, info, granule)
}

/// `PacketWriter::into_inner` hands out the bytes written. A first packet of
/// fewer than 255 bytes that ends its page stands in a page of its own: the
/// capture pattern "OggS" begins it, and the packet follows its 28-byte head.
#[verifier::external_body]
fn ogg_finish(w: OggWriter) -> (r: Vec<u8>)
    ensures
        r@ == ogg_stream(ogg_packets(w)),
        ({
            let p = ogg_packets(w);
            p.len() > 0 && p[0].end != PacketEnd::Normal && p[0].data.len() < 255 ==> {
                &&& r@.len() >= 28 + p[0].data.len()
                &&& r@.take(4) == seq![0x4fu8, 0x67u8, 0x67u8, 0x53u8]
                &&& r@.subrange(28, 28 + p[0].data.len() as int) == p[0].data
            }
        }),
{
    w.inner.into_inner()
}

/// The position after audio packet `i`, in 48 kHz samples.
pub open spec fn granule_after(skip: int, i: int) -> int {
    skip + (i + 1) * GRANULES_PER_FRAME
}

/// Audio packet `i` of `data`.
pub open spec fn audio_packet(data: Seq<Seq<u8>>, skip: int, i: int) -> OggPacket {
    OggPacket {
        data: data[i],
        serial: OGG_SERIAL,
        end: if i + 1 == data.len() {
            PacketEnd::Stream
        } else {
            PacketEnd::Normal
        },
        granule: granule_after(skip, i) as u64,
    }
}

/// A header packet, on a page of its own.
pub open spec fn header_packet(data: Seq<u8>) -> OggPacket {
    OggPacket { data, serial: OGG_SERIAL, end: PacketEnd::Page, granule: 0 }
}

/// The packets of an Ogg-Opus file: both headers, then the audio; the last
/// audio packet ends the stream.
pub open spec fn opus_packets(
    data: Seq<Seq<u8>>,
    skip: int,
    sample_rate: int,
    channels: int,
) -> Seq<OggPacket> {
    seq![
        header_packet(opus_head_of(channels, skip, sample_rate)),
        header_packet(opus_tags_of()),
    ] + Seq::new(data.len(), |i: int| audio_packet(data, skip, i))
}

/// The Ogg writer failed.
#[derive(Debug, Clone, Copy, PartialEq, Eq, Structural)]
pub struct OggError;

/// The buffers of a list, by their bytes.
pub open spec fn packet_bytes(v: Seq<Vec<u8>>) -> Seq<Seq<u8>> {
    v.map_values(|b: Vec<u8>| b@)
}

/// The Ogg-Opus file that carries the encoder's packets: identification header,
/// comment header, and one packet per frame with its granule position.
pub fn ogg_opus_file(packets: &Vec<Vec<u8>>, skip: u16, sample_rate: u32, channels: u16) -> (r:
    Result<Vec<u8>, OggError>)
    requires
        packets@.len() < 0x8000_0000,
        forall|i: int| 0 <= i < packets@.len() ==> (#[trigger] packets@[i])@.len() <= MAX_PACKET,
    ensures
        r matches Ok(bytes) && {
            &&& bytes@ == ogg_stream(
                opus_packets(
                    packet_bytes(packets@),
                    skip as int,
                    sample_rate as int,
                    channels as int,
                ),
            )
            &&& bytes@.len() >= 47
            &&& bytes@.take(4) == seq![0x4fu8, 0x67u8, 0x67u8, 0x53u8]
            &&& bytes@.subrange(28, 47) == opus_head_of(
                channels as int,
                skip as int,
                sample_rate as int,
            )
        },
{
    let ghost data = packet_bytes(packets@);
    let ghost head = header_packet(
        opus_head_of(channels as int, skip as int, sample_rate as int),
    );
    let ghost tags = header_packet(opus_tags_of());
    let ghost audio = Seq::new(data.len(), |i: int| audio_packet(data, skip as int, i));
    let mut w = ogg_start();
    if ogg_write(
        &mut w,
        opus_head(channels, skip, sample_rate),
        OGG_SERIAL,
        PacketEnd::Page,
        0,
    ).is_err() {
        return Err(OggError);
    }
    if ogg_write(&mut w, opus_tags(), OGG_SERIAL, PacketEnd::Page, 0).is_err() {
        return Err(OggError);
    }
    assert(ogg_packets(w) =~= seq![head, tags] + audio.take(0));
    let mut i: usize = 0;
    while i < packets.len()
        invariant
            packets@.len() < 0x8000_0000,
            forall|i: int|
                0 <= i < packets@.len() ==> (#[trigger] packets@[i])@.len() <= MAX_PACKET,
            i <= packets@.len(),
            data == packet_bytes(packets@),
            audio == Seq::new(data.len(), |i: int| audio_packet(data, skip as int, i)),
            ogg_packets(w) == seq![head, tags] + audio.take(i as int),
        decreases packets@.len() - i,
    {
        let end = if i + 1 == packets.len() {
            PacketEnd::Stream
        } else {
            PacketEnd::Normal
        };
        let granule: u64 = skip as u64 + (i as u64 + 1) * GRANULES_PER_FRAME;
        let copy = vstd::slice::slice_to_vec(packets[i].as_slice());
        assert(data[i as int] == copy@);
        let ghost before = ogg_packets(w);
        if ogg_write(&mut w, copy, OGG_SERIAL, end, granule).is_err() {
            return Err(OggError);
        }
        proof {
            assert(audio[i as int] == audio_packet(data, skip as int, i as int));
            assert(audio.take(i + 1) =~= audio.take(i as int).push(audio[i as int]));
            assert(seq![head, tags] + audio.take(i + 1) =~= before.push(audio[i as int]));
        }
        i += 1;
    }
    assert(audio.take(i as int) =~= audio);
    assert(ogg_packets(w)[0] == head);
    assert(head.data.len() == 19);
    Ok(ogg_finish(w))
}

/// Granule positions grow from packet to packet by one frame, and the last one
/// covers every frame.
pub proof fn granules_count_frames(data: Seq<Seq<u8>>, skip: u16, i: int)
    requires
        0 <= i < data.len() < 0x8000_0000,
    ensures
        audio_packet(data, skip as int, i).granule == skip + (i + 1) * 960,
        (audio_packet(data, skip as int, i).end == PacketEnd::Stream) == (i + 1 == data.len()),
        i > 0 ==> audio_packet(data, skip as int, i).granule == audio_packet(
            data,
            skip as int,
            i - 1,
        ).granule + 960,
{
}

/// An Ogg-Opus file carries the identification header, the comment header, and
/// then every packet of the encoder as it is, in order.
pub proof fn files_carry_every_packet(
    data: Seq<Seq<u8>>,
    skip: int,
    sample_rate: int,
    channels: int,
    i: int,
)
    requires
        0 <= i < data.len(),
    ensures
        opus_packets(data, skip, sample_rate, channels).len() == data.len() + 2,
        opus_packets(data, skip, sample_rate, channels)[i + 2].data == data[i],
        opus_packets(data, skip, sample_rate, channels)[0].data.take(8) == opus_head_tag(),
        opus_packets(data, skip, sample_rate, channels)[1].data.take(8) == opus_tags_tag(),
        opus_packets(data, skip, sample_rate, channels)[0].granule == 0,
        opus_packets(data, skip, sample_rate, channels)[1].granule == 0,
{
    let p = opus_packets(data, skip, sample_rate, channels);
    assert(p[0].data.take(8) =~= opus_head_tag());
    assert(p[1].data.take(8) =~= opus_tags_tag());
}

/// The identification header says `OpusHead`, its version, how many channels
/// there are, how many samples are skipped, and the sample rate of the input,
/// each where a reader looks for it.
pub proof fn opus_heads_describe_the_stream(channels: u8, skip: u16, sample_rate: u32)
    ensures
        ({
            let h = opus_head_of(channels as int, skip as int, sample_rate as int);
            &&& h.len() == 19
            &&& four_chars(h, 0, 'O', 'p', 'u', 's')
            &&& four_chars(h, 4, 'H', 'e', 'a', 'd')
            &&& h[8] == 1
            &&& h[9] == channels
            &&& two_bytes(h, 10) == skip
            &&& four_bytes(h, 12) == sample_rate
            &&& h[16] == 0 && h[17] == 0 && h[18] == 0
        }),
{
    let h = opus_head_of(channels as int, skip as int, sample_rate as int);
    assert(h =~= opus_head_tag() + seq![1u8, channels] + le16(skip as int) + le32(
        sample_rate as int,
    ) + le16(0) + seq![0u8]);
    assert(h[10] == le16(skip as int)[0] && h[11] == le16(skip as int)[1]);
    let r = le32(sample_rate as int);
    assert(h[12] == r[0] && h[13] == r[1] && h[14] == r[2] && h[15] == r[3]);
    assert(h[16] == le16(0)[0] && h[17] == le16(0)[1]);
}

/// The rates that Opus takes are those of speech and of full sound: eight,
/// twelve, sixteen, twenty-four and forty-eight thousand samples a second; and a
/// frame of one of them lasts a fiftieth of a second.
pub proof fn frames_last_a_fiftieth_of_a_second(sample_rate: int, channels: int)
    requires
        channels > 0,
    ensures
        is_opus_rate(sample_rate) ==> 50 * frame_values(sample_rate, channels) == sample_rate
            * channels,
        is_opus_rate(sample_rate) <==> sample_rate == 8000 || sample_rate == 12000 || sample_rate
            == 16000 || sample_rate == 24000 || sample_rate == 48000,
{
    if is_opus_rate(sample_rate) {
        let per = sample_rate / 1000 * 20;
        assert(50 * per == sample_rate);
        assert(50 * (per * channels) == (50 * per) * channels) by (nonlinear_arith);
    }
}

} // verus!
