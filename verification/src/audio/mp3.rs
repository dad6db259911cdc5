//! MP3 files: the packets of the container, and the samples of the packets.

use super::files::{mono_of, to_mono};
use super::pcm::{lemma_pcm_push, pcm_of, push_sample};
use crate::text::{concat2, owned};
use vstd::prelude::*;

verus! {

broadcast use vstd::string::group_string_axioms;

// ---------------------------------------------------------------------------
// Packets and frames
// ---------------------------------------------------------------------------

/// A packet of an encoded stream.
#[derive(Debug)]
pub struct Mp3Packet {
    pub track_id: u32,
    pub ts: u64,
    pub dur: u64,
    pub trim_start: u32,
    pub trim_end: u32,
    pub data: Vec<u8>,
}

/// The contents of an [`Mp3Packet`].
pub struct PacketView {
    pub track_id: nat,
    pub ts: nat,
    pub dur: nat,
    pub trim_start: nat,
    pub trim_end: nat,
    pub data: Seq<u8>,
}

impl View for Mp3Packet {
    type V = PacketView;

    open spec fn view(&self) -> PacketView {
        PacketView {
            track_id: self.track_id as nat,
            ts: self.ts as nat,
            dur: self.dur as nat,
            trim_start: self.trim_start as nat,
            trim_end: self.trim_end as nat,
            data: self.data@,
        }
    }
}

/// What a packet decodes to: interleaved samples, their rate and the number of
/// channels.
#[derive(Debug)]
pub struct Frame {
    pub rate: u32,
    pub channels: u16,
    pub samples: Vec<i16>,
}

/// The contents of a [`Frame`].
pub struct FrameView {
    pub rate: nat,
    pub channels: nat,
    pub samples: Seq<int>,
}

impl View for Frame {
    type V = FrameView;

    open spec fn view(&self) -> FrameView {
        FrameView {
            rate: self.rate as nat,
            channels: self.channels as nat,
            samples: self.samples@.map_values(|v: i16| v as int),
        }
    }
}

/// Why a packet did not decode.
#[derive(Debug)]
pub enum FrameError {
    /// The frame is damaged; the next may be sound.
    Damaged,
    /// Decoding cannot go on.
    Failed(String),
}

/// The contents of a [`FrameError`].
pub enum FrameErrorView {
    Damaged,
    Failed(Seq<char>),
}

impl View for FrameError {
    type V = FrameErrorView;

    open spec fn view(&self) -> FrameErrorView {
        match self {
            FrameError::Damaged => FrameErrorView::Damaged,
            FrameError::Failed(t) => FrameErrorView::Failed(t@),
        }
    }
}

/// The contents of the result of decoding a packet.
pub open spec fn frame_result(r: Result<Frame, FrameError>) -> Result<FrameView, FrameErrorView> {
    match r {
        Ok(f) => Ok(f@),
        Err(e) => Err(e@),
    }
}

// ---------------------------------------------------------------------------
// The `symphonia` crate
// ---------------------------------------------------------------------------

/// How far the probe looks for the next marker, in bytes.
pub const PROBE_LIMIT: usize = 0x10_0000;

/// Whether an MPEG audio frame may begin at `i`: the two bytes by which the
/// probe knows one.
pub open spec fn mpeg_mark_at(data: Seq<u8>, i: int) -> bool {
    data[i] == 0xff && (0xe2 <= data[i + 1] <= 0xe7 || 0xf2 <= data[i + 1] <= 0xf7 || 0xfa
        <= data[i + 1])
}

/// Whether an ID3v2 tag begins at `i`.
pub open spec fn tag_mark_at(data: Seq<u8>, i: int) -> bool {
    data[i] == 0x49 && data[i + 1] == 0x44 && data[i + 2] == 0x33
}

/// The bytes of the tag at `i` after its header.
pub open spec fn tag_size_at(data: Seq<u8>, i: int) -> int {
    (data[i + 6] % 128) * 0x20_0000 + (data[i + 7] % 128) * 0x4000 + (data[i + 8] % 128) * 0x80 + (
    data[i + 9] % 128)
}

/// Whether the header of the tag at `i` is of a version that is read.
pub open spec fn tag_known_at(data: Seq<u8>, i: int) -> bool {
    &&& 2 <= data[i + 3] <= 4
    &&& data[i + 4] != 0xff
    &&& data[i + 3] == 2 ==> data[i + 5] & 0x40 == 0
}

/// Where the restrictions of the extended header of the tag at `i` begin, by its
/// flags: behind the fields that tell of an update and of a checksum.
pub open spec fn restrictions_at(data: Seq<u8>, i: int) -> int {
    i + 16 + (if data[i + 15] & 0x40 != 0 {
        1int
    } else {
        0
    }) + (if data[i + 15] & 0x20 != 0 {
        6int
    } else {
        0
    })
}

/// Whether the tag at `i` is of version 2.4 and has an extended header that
/// restricts the encoding of texts.
pub open spec fn restricted_tag_at(data: Seq<u8>, i: int) -> bool {
    let at = restrictions_at(data, i);
    &&& tag_mark_at(data, i)
    &&& data[i + 3] == 4
    &&& data[i + 4] != 0xff
    &&& data[i + 5] & 0x40 != 0
    &&& data[i + 14] == 1
    &&& data[i + 15] & 0x40 != 0 ==> data[i + 16] == 1
    &&& data[i + 15] & 0x20 != 0 ==> data[at - 6] == 5
    &&& data[i + 15] & 0x10 != 0
    &&& at + 2 <= data.len()
    &&& at + 2 <= i + 10 + tag_size_at(data, i)
    &&& data[at] == 1
    &&& data[at + 1] & 0x40 != 0
}

/// Whether the probe, which began to look at `from` and has come to `at`, comes
/// upon a tag with restricted texts before it finds an MPEG audio frame. A tag
/// is passed over as a whole.
pub open spec fn meets_restricted_tag(data: Seq<u8>, from: int, at: int) -> bool
    decreases data.len() - at,
{
    if at + 16 > data.len() || at + 2 > from + PROBE_LIMIT || mpeg_mark_at(data, at) {
        false
    } else if tag_mark_at(data, at) {
        let next = at + 10 + tag_size_at(data, at);
        restricted_tag_at(data, at) || (tag_known_at(data, at) && next <= data.len()
            && meets_restricted_tag(data, next, next))
    } else {
        meets_restricted_tag(data, from, at + 1)
    }
}

/// What a container holds: the first track, if there is one, and whether its
/// codec is MPEG layer 3; the packets in order; and how the stream ends, with
/// the end of the data or with an error.
pub struct Mp3Source {
    pub track: Option<(nat, bool)>,
    pub packets: Seq<PacketView>,
    pub end: Result<(), Seq<char>>,
}

/// A container that was recognised, and its reader.
#[verifier::external_type_specification]
#[verifier::external_body]
pub struct ExProbeResult(symphonia::core::probe::ProbeResult);

/// A decoder of MPEG audio.
#[verifier::external_type_specification]
#[verifier::external_body]
pub struct ExMpaDecoder(symphonia::default::codecs::MpaDecoder);

/// What the `symphonia` crate finds in the bytes of a file, or why it does not
/// recognise them.
pub uninterp spec fn mp3_source(data: Seq<u8>) -> Result<Mp3Source, Seq<char>>;

/// What a reader has yet to give.
pub uninterp spec fn source_left(reader: symphonia::core::probe::ProbeResult) -> Mp3Source;

/// The packets that a decoder was given.
pub uninterp spec fn decoder_fed(decoder: symphonia::default::codecs::MpaDecoder) -> Seq<PacketView>;

/// What a decoder of the `symphonia` crate makes of a packet after the packets
/// that it was given before.
pub uninterp spec fn mp3_frame(fed: Seq<PacketView>, packet: PacketView) -> Result<
    FrameView,
    FrameErrorView,
>;

/// What a file was opened as.
pub open spec fn opened_source(r: Result<symphonia::core::probe::ProbeResult, String>) -> Result<
    Mp3Source,
    Seq<char>,
> {
    match r {
        Ok(reader) => Ok(source_left(reader)),
        Err(t) => Err(t@),
    }
}

/// `symphonia::core::probe::Probe::format`, of the probe with the formats that
/// are compiled in, recognises the container of a file; what the reader then
/// gives, or the error's text, is named by [`mp3_source`]. The hint it is given
/// plays no part. On the way to an MPEG audio frame it reads ID3v2 tags, and
/// panics at one that restricts the encoding of texts.
#[verifier::external_body]
fn open_source(data: Vec<u8>) -> (r: Result<symphonia::core::probe::ProbeResult, String>)
    requires
        !meets_restricted_tag(data@, 0, 0),
    ensures
        opened_source(r) == mp3_source(data@),
{
    let bytes = Box::new(std::io::Cursor::new(data));
    let stream = symphonia::core::io::MediaSourceStream::new(bytes, Default::default());
    let mut hint = symphonia::core::probe::Hint::new();
    hint.with_extension("mp3");
    let formats = symphonia::default::get_probe();
    formats.format(&hint, stream, &Default::default(), &Default::default()).map_err(|e| e.to_string())
}

/// `symphonia::core::formats::FormatReader::default_track` gives the first track
/// of a container, if it has one.
#[verifier::external_body]
fn first_track(reader: &symphonia::core::probe::ProbeResult) -> (r: Option<u32>)
    ensures
        match source_left(*reader).track {
            Some((id, _)) => r is Some && r->0 == id,
            None => r is None,
        },
{
    reader.format.default_track().map(|t| t.id)
}

/// `symphonia::core::codecs::CodecRegistry::make`, of the registry with the codecs
/// that are compiled in, finds a decoder for the codec of the first track; it
/// knows MPEG layer 3 alone.
#[verifier::external_body]
fn find_codec(reader: &symphonia::core::probe::ProbeResult) -> (r: Result<(), String>)
    requires
        source_left(*reader).track is Some,
    ensures
        r is Ok <==> source_left(*reader).track->Some_0.1,
        r matches Err(t) ==> t@ == "unsupported feature: core (codec):unsupported codec"@,
{
    let track = reader.format.default_track().unwrap();
    let made = symphonia::default::get_codecs().make(&track.codec_params, &Default::default());
    made.map(|_| ()).map_err(|e| e.to_string())
}

/// `symphonia::core::codecs::Decoder::try_new` makes a decoder for the codec of
/// the first track, where that is MPEG layer 3.
#[verifier::external_body]
fn new_decoder(reader: &symphonia::core::probe::ProbeResult) -> (r:
    symphonia::default::codecs::MpaDecoder)
    requires
        source_left(*reader).track is Some,
        source_left(*reader).track->Some_0.1,
    ensures
        decoder_fed(r) == Seq::<PacketView>::empty(),
{
    let track = reader.format.default_track().unwrap();
    symphonia::core::codecs::Decoder::try_new(&track.codec_params, &Default::default()).unwrap()
}

/// `symphonia::core::formats::FormatReader::next_packet` gives the next packet,
/// an error of the kind `UnexpectedEof` at the end of the data, or another
/// error where the stream cannot be read on.
#[verifier::external_body]
fn next_packet(reader: &mut symphonia::core::probe::ProbeResult) -> (r: Result<
    Option<Mp3Packet>,
    String,
>)
    ensures
        source_left(*old(reader)).packets.len() > 0 ==> {
            &&& r matches Ok(Some(p)) && p@ == source_left(*old(reader)).packets[0]
            &&& source_left(*final(reader)) == (Mp3Source {
                packets: source_left(*old(reader)).packets.drop_first(),
                ..source_left(*old(reader))
            })
        },
        source_left(*old(reader)).packets.len() == 0 ==> match source_left(*old(reader)).end {
            Ok(_) => r matches Ok(None),
            Err(t) => r matches Err(e) && e@ == t,
        },
{
    match reader.format.next_packet() {
        Ok(p) => {
            let (ts, dur, trim_start, trim_end) = (p.ts, p.dur, p.trim_start, p.trim_end);
            let track_id = p.track_id();
            Ok(Some(Mp3Packet { track_id, ts, dur, trim_start, trim_end, data: p.data.into_vec() }))
        },
        Err(symphonia::core::errors::Error::IoError(e)) if e.kind()
            == std::io::ErrorKind::UnexpectedEof => Ok(None),
        Err(e) => Err(e.to_string()),
    }
}

/// `symphonia::core::codecs::Decoder::decode` decodes a packet; what comes of
/// it is named by [`mp3_frame`]. An error that the crate calls a decode error is
/// one of this packet alone. `SampleBuffer::copy_interleaved_ref` turns the
/// samples to sixteen bits.
#[verifier::external_body]
fn decode_packet(decoder: &mut symphonia::default::codecs::MpaDecoder, p: &Mp3Packet) -> (r: Result<
    Frame,
    FrameError,
>)
    ensures
        frame_result(r) == mp3_frame(decoder_fed(*old(decoder)), p@),
        decoder_fed(*final(decoder)) == decoder_fed(*old(decoder)).push(p@),
{
    let packet = symphonia::core::formats::Packet::new_trimmed_from_slice(
        p.track_id, p.ts, p.dur, p.trim_start, p.trim_end, &p.data);
    match symphonia::core::codecs::Decoder::decode(decoder, &packet) {
        Ok(d) => {
            let spec = *d.spec();
            let mut buf = symphonia::core::audio::SampleBuffer::<i16>::new(d.capacity() as u64, spec);
            buf.copy_interleaved_ref(d);
            let channels = spec.channels.count() as u16;
            Ok(Frame { rate: spec.rate, channels, samples: buf.samples().to_vec() })
        },
        Err(symphonia::core::errors::Error::DecodeError(_)) => Err(FrameError::Damaged),
        Err(e) => Err(FrameError::Failed(e.to_string())),
    }
}

// ---------------------------------------------------------------------------
// Collecting the samples
// ---------------------------------------------------------------------------

/// Mono samples as PCM16 LE, and their rate.
pub type AudioView = (Seq<u8>, nat);

/// The samples decoded so far; the rate is zero before the first frame.
#[derive(Debug)]
pub struct Mp3Sink {
    pub rate: u32,
    pub channels: u16,
    pub pcm: Vec<u8>,
}

/// The contents of an [`Mp3Sink`].
pub struct SinkView {
    pub rate: nat,
    pub channels: nat,
    pub pcm: Seq<u8>,
}

impl View for Mp3Sink {
    type V = SinkView;

    open spec fn view(&self) -> SinkView {
        SinkView { rate: self.rate as nat, channels: self.channels as nat, pcm: self.pcm@ }
    }
}

/// Nothing decoded yet.
pub open spec fn empty_sink() -> SinkView {
    SinkView { rate: 0, channels: 0, pcm: seq![] }
}

/// What decoding a packet adds: a frame's samples, nothing for a damaged frame.
pub open spec fn sunk(s: SinkView, decoded: Result<FrameView, FrameErrorView>) -> Result<
    SinkView,
    Seq<char>,
> {
    match decoded {
        Ok(f) => Ok(
            SinkView { rate: f.rate, channels: f.channels, pcm: s.pcm + pcm_of(f.samples) },
        ),
        Err(FrameErrorView::Damaged) => Ok(s),
        Err(FrameErrorView::Failed(t)) => Err("decode mp3: "@ + t),
    }
}

/// The samples in mono, and their rate.
pub open spec fn drained(s: SinkView) -> Result<AudioView, Seq<char>> {
    if s.rate == 0 {
        Err("no decodable audio in mp3"@)
    } else if s.channels == 0 {
        Err("invalid channel count 0"@)
    } else {
        Ok((mono_of(s.pcm, s.channels as int), s.rate))
    }
}

/// The contents of the result of reading a file.
pub open spec fn mp3_result(r: Result<(Vec<u8>, u32), String>) -> Result<AudioView, Seq<char>> {
    match r {
        Ok((pcm, rate)) => Ok((pcm@, rate as nat)),
        Err(t) => Err(t@),
    }
}

fn append_samples(pcm: &mut Vec<u8>, samples: &Vec<i16>)
    ensures
        final(pcm)@ == old(pcm)@ + pcm_of(samples@.map_values(|v: i16| v as int)),
{
    let ghost before = pcm@;
    let ghost all = samples@.map_values(|v: i16| v as int);
    let mut i: usize = 0;
    assert(before + pcm_of(all.take(0)) =~= before);
    while i < samples.len()
        invariant
            i <= samples@.len(),
            all == samples@.map_values(|v: i16| v as int),
            pcm@ == before + pcm_of(all.take(i as int)),
        decreases samples@.len() - i,
    {
        push_sample(pcm, samples[i]);
        proof {
            lemma_pcm_push(all.take(i as int), all[i as int]);
            assert(all.take(i + 1) =~= all.take(i as int).push(all[i as int]));
            assert(pcm@ =~= before + pcm_of(all.take(i + 1)));
        }
        i += 1;
    }
    assert(all.take(i as int) =~= all);
}

impl Mp3Sink {
    /// Nothing decoded yet.
    pub fn new() -> (r: Mp3Sink)
        ensures
            r@ == empty_sink(),
    {
        let pcm: Vec<u8> = Vec::new();
        assert(pcm@ =~= Seq::<u8>::empty());
        Mp3Sink { rate: 0, channels: 0, pcm }
    }

    /// Takes what came of decoding a packet; a damaged frame is skipped.
    pub fn take(&mut self, decoded: Result<Frame, FrameError>) -> (r: Result<(), String>)
        ensures
            r is Ok <==> sunk(old(self)@, frame_result(decoded)) is Ok,
            r is Ok ==> final(self)@ == sunk(old(self)@, frame_result(decoded))->Ok_0,
            r matches Err(t) ==> t@ == sunk(old(self)@, frame_result(decoded))->Err_0,
            r is Err ==> final(self)@ == old(self)@,
    {
        match decoded {
            Ok(f) => {
                self.rate = f.rate;
                self.channels = f.channels;
                append_samples(&mut self.pcm, &f.samples);
                Ok(())
            },
            Err(FrameError::Damaged) => Ok(()),
            Err(FrameError::Failed(t)) => Err(concat2("decode mp3: ", t.as_str())),
        }
    }

    /// All samples in mono, and their rate.
    pub fn finish(&self) -> (r: Result<(Vec<u8>, u32), String>)
        ensures
            mp3_result(r) == drained(self@),
    {
        if self.rate == 0 {
            return Err(owned("no decodable audio in mp3"));
        }
        match to_mono(&self.pcm, self.channels) {
            Ok(mono) => Ok((mono, self.rate)),
            Err(_) => Err(owned("invalid channel count 0")),
        }
    }
}

// ---------------------------------------------------------------------------
// Reading a file
// ---------------------------------------------------------------------------

/// What decoding the packets of one track in order adds.
pub open spec fn decoded_packets(
    packets: Seq<PacketView>,
    track: nat,
    fed: Seq<PacketView>,
    s: SinkView,
) -> Result<SinkView, Seq<char>>
    decreases packets.len(),
{
    if packets.len() == 0 {
        Ok(s)
    } else if packets[0].track_id != track {
        decoded_packets(packets.drop_first(), track, fed, s)
    } else {
        match sunk(s, mp3_frame(fed, packets[0])) {
            Ok(t) => decoded_packets(packets.drop_first(), track, fed.push(packets[0]), t),
            Err(e) => Err(e),
        }
    }
}

/// What a file holds, by what is found in it: the samples of the first track in
/// mono, and their rate.
pub open spec fn mp3_contents(source: Result<Mp3Source, Seq<char>>) -> Result<AudioView, Seq<char>> {
    match source {
        Err(t) => Err("probe mp3: "@ + t),
        Ok(s) => match s.track {
            None => Err("no audio track in mp3"@),
            Some((track, known)) => if !known {
                Err("create mp3 decoder: "@ + "unsupported feature: core (codec):unsupported codec"@)
            } else {
                match decoded_packets(s.packets, track, seq![], empty_sink()) {
                    Err(t) => Err(t),
                    Ok(sink) => match s.end {
                        Err(t) => Err("read mp3 packet: "@ + t),
                        Ok(_) => drained(sink),
                    },
                }
            },
        },
    }
}

/// What a file holds. One with a tag that cannot be read is refused.
pub open spec fn mp3_file(data: Seq<u8>) -> Result<AudioView, Seq<char>> {
    if meets_restricted_tag(data, 0, 0) {
        Err("probe mp3: ID3v2 tag with restricted texts"@)
    } else {
        mp3_contents(mp3_source(data))
    }
}

fn is_restricted_tag(data: &[u8], i: usize) -> (r: bool)
    requires
        i + 16 <= data.len(),
        tag_mark_at(data@, i as int),
    ensures
        r == restricted_tag_at(data@, i as int),
{
    let len = data.len();
    if data[i + 3] != 4 || data[i + 4] == 0xff || data[i + 5] & 0x40 == 0 || data[i + 14] != 1 {
        return false;
    }
    let flags = data[i + 15];
    let size = tag_size(data, i);
    if flags & 0x10 == 0 || len - i < 18 || size < 8 {
        return false;
    }
    let mut at: usize = i + 16;
    if flags & 0x40 != 0 {
        if data[at] != 1 {
            return false;
        }
        at = at + 1;
    }
    if flags & 0x20 != 0 {
        if data[at] != 5 {
            return false;
        }
        if len - at < 8 {
            return false;
        }
        at = at + 6;
    }
    len - at >= 2 && at - i - 8 <= size && data[at] == 1 && data[at + 1] & 0x40 != 0
}

fn tag_size(data: &[u8], i: usize) -> (r: usize)
    requires
        i + 10 <= data.len(),
    ensures
        r == tag_size_at(data@, i as int),
        r < 0x1000_0000,
{
    (data[i + 6] % 128) as usize * 0x20_0000 + (data[i + 7] % 128) as usize * 0x4000 + (data[i + 8]
        % 128) as usize * 0x80 + (data[i + 9] % 128) as usize
}

fn finds_restricted_tag(data: &[u8]) -> (r: bool)
    ensures
        r == meets_restricted_tag(data@, 0, 0),
{
    let len = data.len();
    let mut from: usize = 0;
    let mut at: usize = 0;
    while at < len
        invariant
            len == data@.len(),
            from <= at <= len,
            meets_restricted_tag(data@, 0, 0) == meets_restricted_tag(
                data@,
                from as int,
                at as int,
            ),
        decreases len - at,
    {
        if len - at < 16 || at - from > PROBE_LIMIT - 2 {
            return false;
        }
        let (a, b, c) = (data[at], data[at + 1], data[at + 2]);
        if a == 0xff && (0xe2 <= b && b <= 0xe7 || 0xf2 <= b && b <= 0xf7 || 0xfa <= b) {
            return false;
        }
        if a == 0x49 && b == 0x44 && c == 0x33 {
            if is_restricted_tag(data, at) {
                return true;
            }
            let version = data[at + 3];
            if version < 2 || version > 4 || data[at + 4] == 0xff || (version == 2 && data[at + 5]
                & 0x40 != 0) {
                return false;
            }
            let size = tag_size(data, at);
            if size > len - at - 10 {
                return false;
            }
            at = at + 10 + size;
            from = at;
        } else {
            at = at + 1;
        }
    }
    false
}

/// Read an MP3 file into mono PCM16 LE and its sample rate.
pub fn read_mp3(data: Vec<u8>) -> (r: Result<(Vec<u8>, u32), String>)
    ensures
        mp3_result(r) == mp3_file(data@),
{
    if finds_restricted_tag(&data) {
        return Err(owned("probe mp3: ID3v2 tag with restricted texts"));
    }
    let ghost found = mp3_source(data@);
    let mut reader = match open_source(data) {
        Ok(p) => p,
        Err(t) => return Err(concat2("probe mp3: ", t.as_str())),
    };
    let ghost source = source_left(reader);
    let track = match first_track(&reader) {
        Some(id) => id,
        None => return Err(owned("no audio track in mp3")),
    };
    if let Err(t) = find_codec(&reader) {
        return Err(concat2("create mp3 decoder: ", t.as_str()));
    }
    let mut decoder = new_decoder(&reader);
    let mut sink = Mp3Sink::new();
    let ghost whole = decoded_packets(source.packets, track as nat, seq![], empty_sink());
    loop
        invariant_except_break
            !meets_restricted_tag(data@, 0, 0),
            found == mp3_source(data@),
            found == Ok::<Mp3Source, Seq<char>>(source),
            source.track == Some((track as nat, true)),
            source_left(reader).track == source.track,
            source_left(reader).end == source.end,
            whole == decoded_packets(source.packets, track as nat, seq![], empty_sink()),
            whole == decoded_packets(
                source_left(reader).packets,
                track as nat,
                decoder_fed(decoder),
                sink@,
            ),
        ensures
            !meets_restricted_tag(data@, 0, 0),
            found == mp3_source(data@),
            found == Ok::<Mp3Source, Seq<char>>(source),
            source.track == Some((track as nat, true)),
            whole == decoded_packets(source.packets, track as nat, seq![], empty_sink()),
            source.end is Ok,
            whole == Ok::<SinkView, Seq<char>>(sink@),
        decreases source_left(reader).packets.len(),
    {
        let packet = match next_packet(&mut reader) {
            Ok(Some(p)) => p,
            Ok(None) => break,
            Err(t) => return Err(concat2("read mp3 packet: ", t.as_str())),
        };
        if packet.track_id == track {
            if let Err(t) = sink.take(decode_packet(&mut decoder, &packet)) {
                return Err(t);
            }
        }
    }
    sink.finish()
}

/// The packets of other tracks play no part: with one of them left out, the file
/// decodes to the same.
pub proof fn other_tracks_are_skipped(
    before: Seq<PacketView>,
    other: PacketView,
    after: Seq<PacketView>,
    track: nat,
    fed: Seq<PacketView>,
    s: SinkView,
)
    requires
        other.track_id != track,
    ensures
        decoded_packets(before + seq![other] + after, track, fed, s) == decoded_packets(
            before + after,
            track,
            fed,
            s,
        ),
    decreases before.len(),
{
    let with = before + seq![other] + after;
    if before.len() == 0 {
        assert(with.drop_first() =~= before + after);
    } else {
        let rest = before.drop_first();
        assert(with.drop_first() =~= rest + seq![other] + after);
        assert((before + after).drop_first() =~= rest + after);
        other_tracks_are_skipped(rest, other, after, track, fed, s);
        if let Ok(t) = sunk(s, mp3_frame(fed, before[0])) {
            other_tracks_are_skipped(rest, other, after, track, fed.push(before[0]), t);
        }
    }
}

/// Where no frame of the first track decodes, the file is refused; where one
/// does and the stream ends well, it is read.
pub proof fn files_need_a_frame(s: Mp3Source)
    requires
        s.end is Ok,
        s.track matches Some((_, known)) && known,
        decoded_packets(s.packets, s.track->Some_0.0, seq![], empty_sink()) is Ok,
    ensures
        ({
            let sink = decoded_packets(s.packets, s.track->Some_0.0, seq![], empty_sink())->Ok_0;
            mp3_contents(Ok(s)) is Ok <==> sink.rate != 0 && sink.channels != 0
        }),
{
}

proof fn lemma_sound_grows(
    packets: Seq<PacketView>,
    track: nat,
    fed: Seq<PacketView>,
    s: SinkView,
)
    ensures
        decoded_packets(packets, track, fed, s) matches Ok(t) ==> s.pcm.is_prefix_of(t.pcm),
    decreases packets.len(),
{
    if packets.len() > 0 {
        if packets[0].track_id != track {
            lemma_sound_grows(packets.drop_first(), track, fed, s);
        } else if let Ok(t) = sunk(s, mp3_frame(fed, packets[0])) {
            lemma_sound_grows(packets.drop_first(), track, fed.push(packets[0]), t);
        }
    }
}

/// A packet of the track adds the samples of its frame behind those before, and
/// nothing where its frame is damaged; one that cannot be decoded otherwise ends
/// the reading. The last frame tells the rate.
pub proof fn frames_sound_in_order(
    p: PacketView,
    rest: Seq<PacketView>,
    fed: Seq<PacketView>,
    s: SinkView,
)
    ensures
        ({
            let all = decoded_packets(seq![p] + rest, p.track_id, fed, s);
            &&& mp3_frame(fed, p) matches Ok(f) ==> (all matches Ok(t) ==> (s.pcm + pcm_of(
                f.samples,
            )).is_prefix_of(t.pcm))
            &&& (mp3_frame(fed, p) is Ok && rest.len() == 0) ==> {
                &&& all is Ok
                &&& all->Ok_0.pcm == s.pcm + pcm_of(mp3_frame(fed, p)->Ok_0.samples)
                &&& all->Ok_0.rate == mp3_frame(fed, p)->Ok_0.rate
                &&& all->Ok_0.channels == mp3_frame(fed, p)->Ok_0.channels
            }
            &&& (mp3_frame(fed, p) is Err && mp3_frame(fed, p)->Err_0 is Damaged) ==> all
                == decoded_packets(rest, p.track_id, fed.push(p), s)
            &&& (mp3_frame(fed, p) is Err && mp3_frame(fed, p)->Err_0 is Failed) ==> all is Err
        }),
{
    let packets = seq![p] + rest;
    assert(packets.drop_first() =~= rest);
    if let Ok(t) = sunk(s, mp3_frame(fed, p)) {
        lemma_sound_grows(rest, p.track_id, fed.push(p), t);
    }
}

} // verus!
