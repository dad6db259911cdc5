//! The WAV container: canonical header writing and tolerant chunk-scan reading.

use crate::text;
use vstd::prelude::*;

verus! {

broadcast use vstd::string::group_string_axioms;

// ---------------------------------------------------------------------------
// Little-endian numbers
// ---------------------------------------------------------------------------

/// The two bytes of a number, low byte first.
pub open spec fn le16(n: int) -> Seq<u8> {
    seq![(n % 256) as u8, (n / 256 % 256) as u8]
}

/// The four bytes of a number, low byte first.
pub open spec fn le32(n: int) -> Seq<u8> {
    seq![
        (n % 256) as u8,
        (n / 256 % 256) as u8,
        (n / 0x1_0000 % 256) as u8,
        (n / 0x100_0000 % 256) as u8,
    ]
}

/// The number held by the two bytes at `at`.
pub open spec fn le16_at(d: Seq<u8>, at: int) -> int {
    d[at] + 256 * d[at + 1]
}

/// The number held by the four bytes at `at`.
pub open spec fn le32_at(d: Seq<u8>, at: int) -> int {
    d[at] + 256 * d[at + 1] + 0x1_0000 * d[at + 2] + 0x100_0000 * d[at + 3]
}

/// Appends the two bytes of a number.
pub fn push_u16(out: &mut Vec<u8>, n: u16)
    ensures
        final(out)@ == old(out)@ + le16(n as int),
{
    out.push((n % 256) as u8);
    out.push((n / 256 % 256) as u8);
    assert(out@ =~= old(out)@ + le16(n as int));
}

/// Appends the four bytes of a number.
pub fn push_u32(out: &mut Vec<u8>, n: u32)
    ensures
        final(out)@ == old(out)@ + le32(n as int),
{
    out.push((n % 256) as u8);
    out.push((n / 256 % 256) as u8);
    out.push((n / 0x1_0000 % 256) as u8);
    out.push((n / 0x100_0000 % 256) as u8);
    assert(out@ =~= old(out)@ + le32(n as int));
}

/// Appends four bytes.
pub fn push_tag(out: &mut Vec<u8>, a: u8, b: u8, c: u8, d: u8)
    ensures
        final(out)@ == old(out)@ + seq![a, b, c, d],
{
    out.push(a);
    out.push(b);
    out.push(c);
    out.push(d);
    assert(out@ =~= old(out)@ + seq![a, b, c, d]);
}

// ---------------------------------------------------------------------------
// Writing
// ---------------------------------------------------------------------------

pub open spec fn riff_tag() -> Seq<u8> {
    seq![0x52u8, 0x49u8, 0x46u8, 0x46u8]
}

pub open spec fn wave_tag() -> Seq<u8> {
    seq![0x57u8, 0x41u8, 0x56u8, 0x45u8]
}

pub open spec fn fmt_tag() -> Seq<u8> {
    seq![0x66u8, 0x6du8, 0x74u8, 0x20u8]
}

pub open spec fn data_tag() -> Seq<u8> {
    seq![0x64u8, 0x61u8, 0x74u8, 0x61u8]
}

/// The canonical 44-byte header of a 16-bit PCM WAV file: the RIFF/WAVE form, a
/// 16-byte `fmt ` chunk, and the head of the `data` chunk.
#[verifier::opaque]
pub open spec fn header_of(data_len: int, sample_rate: int, channels: int) -> Seq<u8> {
    riff_tag() + le32(36 + data_len) + wave_tag() + fmt_tag() + le32(16) + le16(1) + le16(channels)
        + le32(sample_rate) + le32(sample_rate * (channels * 2)) + le16(channels * 2) + le16(16)
        + data_tag() + le32(data_len)
}

/// Whether the sizes that a WAV header records fit in their fields.
pub open spec fn header_fits(data_len: int, sample_rate: int, channels: int) -> bool {
    36 + data_len <= u32::MAX && sample_rate * (channels * 2) <= u32::MAX
}

/// The canonical 44-byte WAV header. The block alignment is recorded modulo
/// 2^16, the width of its field.
pub fn wav_header(data_len: u32, sample_rate: u32, channels: u16) -> (r: Vec<u8>)
    requires
        header_fits(data_len as int, sample_rate as int, channels as int),
    ensures
        r@ == header_of(data_len as int, sample_rate as int, channels as int),
        r@.len() == 44,
{
    proof {
        reveal(header_of);
    }
    let block_align: u32 = channels as u32 * 2;
    let byte_rate: u32 = sample_rate * block_align;
    let mut header: Vec<u8> = Vec::with_capacity(44);
    push_tag(&mut header, 0x52, 0x49, 0x46, 0x46);
    assert(header@ =~= riff_tag());
    assert(le16((block_align % 0x1_0000) as int) =~= le16(channels * 2));
    push_u32(&mut header, 36 + data_len);
    push_tag(&mut header, 0x57, 0x41, 0x56, 0x45);
    push_tag(&mut header, 0x66, 0x6d, 0x74, 0x20);
    push_u32(&mut header, 16);
    push_u16(&mut header, 1);
    push_u16(&mut header, channels);
    push_u32(&mut header, sample_rate);
    push_u32(&mut header, byte_rate);
    push_u16(&mut header, (block_align % 0x1_0000) as u16);
    push_u16(&mut header, 16);
    push_tag(&mut header, 0x64, 0x61, 0x74, 0x61);
    push_u32(&mut header, data_len);
    header
}

/// A whole WAV file: the header, then the samples. The header records the data
/// length modulo 2^32, the width of its field.
pub open spec fn wav_file(pcm: Seq<u8>, sample_rate: int, channels: int) -> Seq<u8> {
    header_of(pcm.len() as int % 0x1_0000_0000, sample_rate, channels) + pcm
}

/// Whether a WAV file can be written for a buffer.
pub open spec fn wav_file_fits(pcm: Seq<u8>, sample_rate: int, channels: int) -> bool {
    header_fits(pcm.len() as int % 0x1_0000_0000, sample_rate, channels)
}

/// Whether a WAV file can be written for a buffer of `len` bytes.
pub fn fits_wav(len: usize, sample_rate: u32, channels: u16) -> (r: bool)
    ensures
        r == header_fits(len as int % 0x1_0000_0000, sample_rate as int, channels as int),
{
    let data: u64 = len as u64 % 0x1_0000_0000;
    let block: u64 = channels as u64 * 2;
    assert(sample_rate * block <= 0xffff_ffff * 0x1_fffe) by (nonlinear_arith)
        requires
            sample_rate <= 0xffff_ffff,
            block <= 0x1_fffe,
    ;
    let rate: u64 = sample_rate as u64 * block;
    data + 36 <= 0xffff_ffff && rate <= 0xffff_ffff
}

/// The bytes of a canonical WAV file.
pub fn wav_bytes(pcm: &[u8], sample_rate: u32, channels: u16) -> (r: Vec<u8>)
    requires
        wav_file_fits(pcm@, sample_rate as int, channels as int),
    ensures
        r@ == wav_file(pcm@, sample_rate as int, channels as int),
{
    let data_len: u32 = (pcm.len() as u64 % 0x1_0000_0000) as u32;
    let mut bytes = wav_header(data_len, sample_rate, channels);
    bytes.extend_from_slice(pcm);
    assert(bytes@ =~= wav_file(pcm@, sample_rate as int, channels as int));
    bytes
}

// ---------------------------------------------------------------------------
// Reading
// ---------------------------------------------------------------------------

/// Why a file was not read as WAV audio.
#[derive(Debug, Clone, Copy, PartialEq, Eq, Structural)]
pub enum WavError {
    NotWav,
    FmtTooSmall,
    FmtMissing,
    DataMissing,
    /// The bits per sample that the file declares.
    NotSixteenBit(u16),
}

/// The notice for a [`WavError`].
pub open spec fn wav_error_text(e: WavError) -> Seq<char> {
    match e {
        WavError::NotWav => "not a WAV file (missing RIFF/WAVE header)"@,
        WavError::FmtTooSmall => "WAV fmt chunk too small"@,
        WavError::FmtMissing => "WAV fmt chunk not found"@,
        WavError::DataMissing => "WAV data chunk not found"@,
        WavError::NotSixteenBit(bits) => "only 16-bit WAV supported (got "@ + text::decimal(
            bits as nat,
        ) + "-bit)"@,
    }
}

impl WavError {
    /// The notice for this error.
    pub fn message(&self) -> (r: String)
        ensures
            r@ == wav_error_text(*self),
    {
        match self {
            WavError::NotWav => text::owned("not a WAV file (missing RIFF/WAVE header)"),
            WavError::FmtTooSmall => text::owned("WAV fmt chunk too small"),
            WavError::FmtMissing => text::owned("WAV fmt chunk not found"),
            WavError::DataMissing => text::owned("WAV data chunk not found"),
            WavError::NotSixteenBit(bits) => text::concat3(
                "only 16-bit WAV supported (got ",
                text::decimal_string(*bits as u64).as_str(),
                "-bit)",
            ),
        }
    }
}

/// A chunk of a RIFF file: its tag, the size that it declares, and the part of
/// the file that holds its body, cut off at the end of the file.
pub struct Chunk {
    pub tag: Seq<u8>,
    pub size: int,
    pub start: int,
    pub end: int,
}

/// The chunk whose head begins at `pos`.
pub open spec fn chunk_at(d: Seq<u8>, pos: int) -> Chunk {
    let size = le32_at(d, pos + 4);
    Chunk {
        tag: d.subrange(pos, pos + 4),
        size,
        start: pos + 8,
        end: if pos + 8 + size < d.len() {
            pos + 8 + size
        } else {
            d.len() as int
        },
    }
}

/// Where the chunk after the one at `pos` begins: chunks are word-aligned.
pub open spec fn next_chunk(d: Seq<u8>, pos: int) -> int {
    chunk_at(d, pos).end + chunk_at(d, pos).size % 2
}

/// The chunks of a file from `pos` on.
pub open spec fn chunks_from(d: Seq<u8>, pos: int) -> Seq<Chunk>
    decreases
            if pos <= d.len() {
                d.len() - pos
            } else {
                0
            },
{
    if 0 <= pos && pos + 8 <= d.len() {
        seq![chunk_at(d, pos)] + chunks_from(d, next_chunk(d, pos))
    } else {
        seq![]
    }
}

/// The last chunk with the given tag.
pub open spec fn last_chunk(cs: Seq<Chunk>, tag: Seq<u8>) -> Option<Chunk>
    decreases cs.len(),
{
    if cs.len() == 0 {
        None
    } else if cs.last().tag == tag {
        Some(cs.last())
    } else {
        last_chunk(cs.drop_last(), tag)
    }
}

/// Whether some `fmt ` chunk holds fewer bytes than its fields take: it declares
/// fewer, or the file ends inside them.
pub open spec fn has_small_fmt(cs: Seq<Chunk>) -> bool {
    exists|i: int|
        0 <= i < cs.len() && (#[trigger] cs[i]).tag == fmt_tag() && cs[i].end - cs[i].start < 16
}

/// Whether a file begins with the RIFF/WAVE form.
pub open spec fn is_wave(d: Seq<u8>) -> bool {
    d.len() >= 12 && d.subrange(0, 4) == riff_tag() && d.subrange(8, 12) == wave_tag()
}

/// The declared sample rate: that of the last `fmt ` chunk, zero without one.
pub open spec fn fmt_rate(d: Seq<u8>, cs: Seq<Chunk>) -> int {
    match last_chunk(cs, fmt_tag()) {
        Some(c) => le32_at(d, c.start + 4),
        None => 0,
    }
}

/// The declared channel count, zero without a `fmt ` chunk.
pub open spec fn fmt_channels(d: Seq<u8>, cs: Seq<Chunk>) -> int {
    match last_chunk(cs, fmt_tag()) {
        Some(c) => le16_at(d, c.start + 2),
        None => 0,
    }
}

/// The declared bits per sample, zero without a `fmt ` chunk.
pub open spec fn fmt_bits(d: Seq<u8>, cs: Seq<Chunk>) -> int {
    match last_chunk(cs, fmt_tag()) {
        Some(c) => le16_at(d, c.start + 14),
        None => 0,
    }
}

/// The body of the last `data` chunk.
pub open spec fn data_body(d: Seq<u8>, cs: Seq<Chunk>) -> Option<Seq<u8>> {
    match last_chunk(cs, data_tag()) {
        Some(c) => Some(d.subrange(c.start, c.end)),
        None => None,
    }
}

/// What a WAV file holds: the samples, the sample rate and the channel count.
pub open spec fn wav_contents(d: Seq<u8>) -> Result<(Seq<u8>, int, int), WavError> {
    let cs = chunks_from(d, 12);
    if !is_wave(d) {
        Err(WavError::NotWav)
    } else if has_small_fmt(cs) {
        Err(WavError::FmtTooSmall)
    } else if fmt_rate(d, cs) == 0 {
        Err(WavError::FmtMissing)
    } else {
        match data_body(d, cs) {
            None => Err(WavError::DataMissing),
            Some(body) => if fmt_bits(d, cs) != 16 {
                Err(WavError::NotSixteenBit(fmt_bits(d, cs) as u16))
            } else {
                Ok((body, fmt_rate(d, cs), fmt_channels(d, cs)))
            },
        }
    }
}

fn u16_at(d: &[u8], at: usize) -> (r: u16)
    requires
        at + 2 <= d@.len(),
    ensures
        r == le16_at(d@, at as int),
{
    d[at] as u16 + 256 * (d[at + 1] as u16)
}

fn u32_at(d: &[u8], at: usize) -> (r: u32)
    requires
        at + 4 <= d@.len(),
    ensures
        r == le32_at(d@, at as int),
{
    d[at] as u32 + 256 * (d[at + 1] as u32) + 0x1_0000 * (d[at + 2] as u32) + 0x100_0000 * (
    d[at + 3] as u32)
}

fn tag_is(d: &[u8], at: usize, a: u8, b: u8, c: u8, e: u8) -> (r: bool)
    requires
        at + 4 <= d@.len(),
    ensures
        r == (d@.subrange(at as int, at + 4) == seq![a, b, c, e]),
{
    let r = d[at] == a && d[at + 1] == b && d[at + 2] == c && d[at + 3] == e;
    proof {
        let t = d@.subrange(at as int, at + 4);
        if r {
            assert(t =~= seq![a, b, c, e]);
        } else {
            assert(t[0] == d@[at as int] && t[1] == d@[at + 1] && t[2] == d@[at + 2] && t[3]
                == d@[at + 3]);
            assert(seq![a, b, c, e][0] == a && seq![a, b, c, e][1] == b && seq![a, b, c, e][2] == c
                && seq![a, b, c, e][3] == e);
        }
    }
    r
}

/// What a WAV file holds, by its view.
pub open spec fn wav_view(r: Result<(Vec<u8>, u32, u16), WavError>) -> Result<
    (Seq<u8>, int, int),
    WavError,
> {
    match r {
        Ok((pcm, rate, channels)) => Ok((pcm@, rate as int, channels as int)),
        Err(e) => Err(e),
    }
}

/// Parse a WAV file into (interleaved PCM16 LE, sample rate, channels).
/// Tolerant chunk scan; 16-bit PCM only.
pub fn read_wav(data: &[u8]) -> (r: Result<(Vec<u8>, u32, u16), WavError>)
    ensures
        wav_view(r) == wav_contents(data@),
{
    let len = data.len();
    if len < 12 || !tag_is(data, 0, 0x52, 0x49, 0x46, 0x46) || !tag_is(
        data,
        8,
        0x57,
        0x41,
        0x56,
        0x45,
    ) {
        return Err(WavError::NotWav);
    }
    let ghost all = chunks_from(data@, 12);
    let ghost mut done: Seq<Chunk> = Seq::empty();
    assert(done + chunks_from(data@, 12) =~= all);
    let mut pos: usize = 12;
    let mut sample_rate: u32 = 0;
    let mut channels: u16 = 0;
    let mut bits: u16 = 0;
    let mut pcm: Option<Vec<u8>> = None;
    while pos <= len && len - pos >= 8
        invariant
            is_wave(data@),
            len == data.len(),
            12 <= pos,
            all == chunks_from(data@, 12),
            all == done + chunks_from(data@, pos as int),
            !has_small_fmt(done),
            sample_rate == fmt_rate(data@, done),
            channels == fmt_channels(data@, done),
            bits == fmt_bits(data@, done),
            (match pcm {
                Some(v) => Some(v@),
                None => None,
            }) == data_body(data@, done),
        decreases len - pos,
    {
        let ghost c = chunk_at(data@, pos as int);
        let ghost rest = chunks_from(data@, next_chunk(data@, pos as int));
        let ghost before = done;
        let size = u32_at(data, pos + 4) as usize;
        let start = pos + 8;
        let end = if size < len - start {
            start + size
        } else {
            len
        };
        proof {
            assert(chunks_from(data@, pos as int) == seq![c] + rest);
            assert(all =~= done.push(c) + rest);
            assert(all[done.len() as int] == c);
            done = done.push(c);
            assert(done.drop_last() =~= before);
            assert forall|i: int| 0 <= i < done.len() implies #[trigger] done[i] == (if i
                < before.len() {
                before[i]
            } else {
                c
            }) by {}
        }
        if tag_is(data, pos, 0x66, 0x6d, 0x74, 0x20) {
            if end - start < 16 {
                assert(has_small_fmt(all));
                return Err(WavError::FmtTooSmall);
            }
            channels = u16_at(data, start + 2);
            sample_rate = u32_at(data, start + 4);
            bits = u16_at(data, start + 14);
            assert(fmt_tag() != data_tag()) by {
                assert(fmt_tag()[0] != data_tag()[0]);
            }
        } else if tag_is(data, pos, 0x64, 0x61, 0x74, 0x61) {
            pcm =
            Some(vstd::slice::slice_to_vec(vstd::slice::slice_subrange(data, start, end)));
        }
        proof {
            if next_chunk(data@, pos as int) >= data@.len() {
                assert(rest =~= Seq::<Chunk>::empty());
            }
        }
        pos = if end >= len {
            len
        } else {
            end + size % 2
        };
    }
    proof {
        assert(chunks_from(data@, pos as int) =~= Seq::<Chunk>::empty());
        assert(all =~= done);
    }
    if sample_rate == 0 {
        return Err(WavError::FmtMissing);
    }
    match pcm {
        None => Err(WavError::DataMissing),
        Some(body) => {
            if bits != 16 {
                Err(WavError::NotSixteenBit(bits))
            } else {
                Ok((body, sample_rate, channels))
            }
        },
    }
}

/// Reading the WAV file written for a recording gives the recording back: its
/// samples, its sample rate and its channel count.
pub proof fn wav_round_trip(pcm: Seq<u8>, sample_rate: u32, channels: u16)
    requires
        36 + pcm.len() <= u32::MAX,
        header_fits(pcm.len() as int, sample_rate as int, channels as int),
        sample_rate > 0,
    ensures
        wav_contents(wav_file(pcm, sample_rate as int, channels as int)) == Ok::<
            (Seq<u8>, int, int),
            WavError,
        >((pcm, sample_rate as int, channels as int)),
{
    let n = pcm.len() as int;
    let h = header_of(n, sample_rate as int, channels as int);
    let d = wav_file(pcm, sample_rate as int, channels as int);
    lemma_header_len(n, sample_rate as int, channels as int);
    lemma_front(h, pcm);
    assert(d == h + pcm);
    lemma_header_fields(d, n, sample_rate as int, channels as int);
    lemma_fields_read(d, n, sample_rate as int, channels as int);
}

/// A file whose fields stand where a header puts them reads as those fields.
proof fn lemma_fields_read(d: Seq<u8>, n: int, rate: int, ch: int)
    requires
        d.len() == 44 + n,
        0 <= n <= u32::MAX,
        0 < rate <= u32::MAX,
        0 <= ch <= u16::MAX,
        d.subrange(0, 4) == riff_tag(),
        d.subrange(8, 12) == wave_tag(),
        d.subrange(12, 16) == fmt_tag(),
        d.subrange(16, 20) == le32(16),
        d.subrange(22, 24) == le16(ch),
        d.subrange(24, 28) == le32(rate),
        d.subrange(34, 36) == le16(16),
        d.subrange(36, 40) == data_tag(),
        d.subrange(40, 44) == le32(n),
    ensures
        wav_contents(d) == Ok::<(Seq<u8>, int, int), WavError>((d.skip(44), rate, ch)),
{
    lemma_le32_at(d, 16, 16);
    lemma_le16_at(d, 22, ch);
    lemma_le32_at(d, 24, rate);
    lemma_le16_at(d, 34, 16);
    lemma_le32_at(d, 40, n);
    let f = chunk_at(d, 12);
    let b = chunk_at(d, 36);
    assert(f.tag == fmt_tag() && f.size == 16 && f.start == 20 && f.end == 36);
    assert(b.tag == data_tag() && b.size == n && b.start == 44 && b.end == 44 + n);
    assert(d.subrange(44, 44 + n) =~= d.skip(44));
    let tail = chunks_from(d, next_chunk(d, 36));
    assert(tail =~= Seq::<Chunk>::empty());
    assert(chunks_from(d, 36) =~= seq![b]);
    let cs = chunks_from(d, 12);
    assert(cs =~= seq![f, b]);
    assert(fmt_tag() != data_tag()) by {
        assert(fmt_tag()[0] != data_tag()[0]);
    }
    assert(cs.last() == b);
    assert(last_chunk(cs, data_tag()) == Some(b));
    assert(cs.drop_last() =~= seq![f]);
    assert(cs.drop_last().last() == f);
    assert(last_chunk(cs.drop_last(), fmt_tag()) == Some(f));
    assert(last_chunk(cs, fmt_tag()) == Some(f));
    assert(!has_small_fmt(cs));
}

/// The header is 44 bytes long.
proof fn lemma_header_len(n: int, rate: int, ch: int)
    ensures
        header_of(n, rate, ch).len() == 44,
{
    reveal(header_of);
}

proof fn lemma_front(h: Seq<u8>, rest: Seq<u8>)
    ensures
        (h + rest).take(h.len() as int) == h,
        (h + rest).skip(h.len() as int) == rest,
{
    assert((h + rest).take(h.len() as int) =~= h);
    assert((h + rest).skip(h.len() as int) =~= rest);
}

/// The fields of a header stand where a reader looks for them.
proof fn lemma_header_fields(d: Seq<u8>, n: int, rate: int, ch: int)
    requires
        d.len() >= 44,
        d.take(44) == header_of(n, rate, ch),
    ensures
        d.subrange(0, 4) == riff_tag(),
        d.subrange(4, 8) == le32(36 + n),
        d.subrange(8, 12) == wave_tag(),
        d.subrange(12, 16) == fmt_tag(),
        d.subrange(16, 20) == le32(16),
        d.subrange(20, 22) == le16(1),
        d.subrange(22, 24) == le16(ch),
        d.subrange(24, 28) == le32(rate),
        d.subrange(28, 32) == le32(rate * (ch * 2)),
        d.subrange(32, 34) == le16(ch * 2),
        d.subrange(34, 36) == le16(16),
        d.subrange(36, 40) == data_tag(),
        d.subrange(40, 44) == le32(n),
{
    reveal(header_of);
    let p1 = riff_tag();
    let p2 = p1 + le32(36 + n);
    let p3 = p2 + wave_tag();
    let p4 = p3 + fmt_tag();
    let p5 = p4 + le32(16);
    let p6 = p5 + le16(1);
    let p7 = p6 + le16(ch);
    let p8 = p7 + le32(rate);
    let p9 = p8 + le32(rate * (ch * 2));
    let p10 = p9 + le16(ch * 2);
    let p11 = p10 + le16(16);
    let p12 = p11 + data_tag();
    let p13 = p12 + le32(n);
    lemma_split(d, p12, le32(n));
    lemma_split(d, p11, data_tag());
    lemma_split(d, p10, le16(16));
    lemma_split(d, p9, le16(ch * 2));
    lemma_split(d, p8, le32(rate * (ch * 2)));
    lemma_split(d, p7, le32(rate));
    lemma_split(d, p6, le16(ch));
    lemma_split(d, p5, le16(1));
    lemma_split(d, p4, le32(16));
    lemma_split(d, p3, fmt_tag());
    lemma_split(d, p2, wave_tag());
    lemma_split(d, p1, le32(36 + n));
    assert(d.take(4) =~= d.subrange(0, 4));
}

/// A known front part that ends in `q` shows what stands before `q` and `q` itself.
proof fn lemma_split(d: Seq<u8>, p: Seq<u8>, q: Seq<u8>)
    requires
        p.len() + q.len() <= d.len(),
        d.take((p.len() + q.len()) as int) == p + q,
    ensures
        d.take(p.len() as int) == p,
        d.subrange(p.len() as int, (p.len() + q.len()) as int) == q,
{
    let t = d.take((p.len() + q.len()) as int);
    assert forall|i: int| 0 <= i < p.len() implies d[i] == p[i] by {
        assert(t[i] == (p + q)[i]);
    }
    assert forall|i: int| 0 <= i < q.len() implies d[p.len() + i] == q[i] by {
        assert(t[p.len() + i] == (p + q)[p.len() + i]);
    }
    assert(d.take(p.len() as int) =~= p);
    assert(d.subrange(p.len() as int, (p.len() + q.len()) as int) =~= q);
}

proof fn lemma_le32_at(d: Seq<u8>, at: int, n: int)
    requires
        0 <= at,
        at + 4 <= d.len(),
        0 <= n <= u32::MAX,
        d.subrange(at, at + 4) == le32(n),
    ensures
        le32_at(d, at) == n,
{
    let s = d.subrange(at, at + 4);
    assert(s[0] == d[at] && s[1] == d[at + 1] && s[2] == d[at + 2] && s[3] == d[at + 3]);
    assert(s[0] == (n % 256) as u8 && s[1] == (n / 256 % 256) as u8 && s[2] == (n / 0x1_0000
        % 256) as u8 && s[3] == (n / 0x100_0000 % 256) as u8);
}

proof fn lemma_le16_at(d: Seq<u8>, at: int, n: int)
    requires
        0 <= at,
        at + 2 <= d.len(),
        0 <= n <= u16::MAX,
        d.subrange(at, at + 2) == le16(n),
    ensures
        le16_at(d, at) == n,
{
    let s = d.subrange(at, at + 2);
    assert(s[0] == d[at] && s[1] == d[at + 1]);
    assert(s[0] == (n % 256) as u8 && s[1] == (n / 256 % 256) as u8);
}

// ---------------------------------------------------------------------------
// Chunks that are not looked at
// ---------------------------------------------------------------------------

/// A chunk with a tag and a body, padded to whole words with some byte.
pub open spec fn chunk_bytes(tag: Seq<u8>, body: Seq<u8>, pad: u8) -> Seq<u8> {
    tag + le32(body.len() as int) + body + (if body.len() % 2 == 0 {
        seq![]
    } else {
        seq![pad]
    })
}

/// Whether one comes to `at` by going from chunk to chunk, beginning at `pos`,
/// over chunks that the file holds whole.
pub open spec fn between_chunks(d: Seq<u8>, pos: int, at: int) -> bool
    decreases
            if pos <= at {
                at - pos
            } else {
                0
            },
{
    if pos >= at {
        pos == at
    } else {
        let size = le32_at(d, pos + 4);
        pos + 8 <= at && between_chunks(d, pos + 8 + size + size % 2, at)
    }
}

/// A file with something put in at a place.
pub open spec fn with_inserted(d: Seq<u8>, at: int, x: Seq<u8>) -> Seq<u8> {
    d.take(at) + x + d.skip(at)
}

spec fn chunks_between(d: Seq<u8>, pos: int, at: int) -> Seq<Chunk>
    decreases
            if pos <= at {
                at - pos
            } else {
                0
            },
{
    if pos >= at || pos + 8 > at {
        seq![]
    } else {
        let size = le32_at(d, pos + 4);
        seq![chunk_at(d, pos)] + chunks_between(d, pos + 8 + size + size % 2, at)
    }
}

spec fn moved_chunk(c: Chunk, k: int) -> Chunk {
    Chunk { start: c.start + k, end: c.end + k, ..c }
}

spec fn moved(cs: Seq<Chunk>, k: int) -> Seq<Chunk> {
    cs.map_values(|c: Chunk| moved_chunk(c, k))
}

proof fn lemma_chunks_split(d: Seq<u8>, e: Seq<u8>, pos: int, at: int)
    requires
        0 <= pos,
        between_chunks(d, pos, at),
        at <= d.len(),
        at <= e.len(),
        e.take(at) == d.take(at),
    ensures
        chunks_from(e, pos) == chunks_between(d, pos, at) + chunks_from(e, at),
        forall|i: int|
            0 <= i < chunks_between(d, pos, at).len() ==> 0 <= (#[trigger] chunks_between(
                d,
                pos,
                at,
            )[i]).start <= chunks_between(d, pos, at)[i].end <= at,
    decreases at - pos,
{
    if pos < at {
        let size = le32_at(d, pos + 4);
        let next = pos + 8 + size + size % 2;
        lemma_between_le(d, next, at);
        assert forall|i: int| 0 <= i < at implies #[trigger] d[i] == e[i] by {
            assert(d.take(at)[i] == d[i] && e.take(at)[i] == e[i]);
        }
        assert(d.subrange(pos, pos + 4) =~= e.subrange(pos, pos + 4));
        assert(chunk_at(e, pos) == chunk_at(d, pos));
        lemma_chunks_split(d, e, next, at);
        assert(next_chunk(e, pos) == next);
        let rest = chunks_between(d, next, at);
        assert(chunks_between(d, pos, at) == seq![chunk_at(d, pos)] + rest);
        assert(chunks_from(e, pos) =~= chunks_between(d, pos, at) + chunks_from(e, at));
        assert forall|i: int| 0 <= i < chunks_between(d, pos, at).len() implies 0 <= (
        #[trigger] chunks_between(d, pos, at)[i]).start <= chunks_between(d, pos, at)[i].end
            <= at by {
            if i > 0 {
                assert(chunks_between(d, pos, at)[i] == rest[i - 1]);
            }
        }
    } else {
        assert(chunks_from(e, pos) =~= chunks_between(d, pos, at) + chunks_from(e, at));
    }
}

proof fn lemma_between_le(d: Seq<u8>, pos: int, at: int)
    requires
        between_chunks(d, pos, at),
    ensures
        pos <= at,
{
}

proof fn lemma_chunks_moved(d: Seq<u8>, e: Seq<u8>, pos: int, k: int)
    requires
        0 <= pos,
        0 <= k,
        e.len() == d.len() + k,
        forall|i: int| pos <= i < d.len() ==> #[trigger] e[i + k] == d[i],
    ensures
        chunks_from(e, pos + k) == moved(chunks_from(d, pos), k),
        forall|i: int|
            0 <= i < chunks_from(d, pos).len() ==> pos <= (#[trigger] chunks_from(d, pos)[i]).start
                <= chunks_from(d, pos)[i].end <= d.len(),
    decreases
            if pos <= d.len() {
                d.len() - pos
            } else {
                0
            },
{
    if pos + 8 <= d.len() {
        assert(d.subrange(pos, pos + 4) =~= e.subrange(pos + k, pos + k + 4)) by {
            assert(e[pos + k] == d[pos] && e[pos + 1 + k] == d[pos + 1] && e[pos + 2 + k]
                == d[pos + 2] && e[pos + 3 + k] == d[pos + 3]);
        }
        assert(e[pos + 4 + k] == d[pos + 4] && e[pos + 5 + k] == d[pos + 5] && e[pos + 6 + k]
            == d[pos + 6] && e[pos + 7 + k] == d[pos + 7]);
        assert(le32_at(e, pos + k + 4) == le32_at(d, pos + 4));
        assert(chunk_at(e, pos + k) == moved_chunk(chunk_at(d, pos), k));
        let next = next_chunk(d, pos);
        assert(next_chunk(e, pos + k) == next + k);
        assert forall|i: int| next <= i < d.len() implies #[trigger] e[i + k] == d[i] by {}
        lemma_chunks_moved(d, e, next, k);
        let rest = chunks_from(d, next);
        assert(chunks_from(d, pos) == seq![chunk_at(d, pos)] + rest);
        assert(chunks_from(e, pos + k) == seq![chunk_at(e, pos + k)] + chunks_from(e, next + k));
        assert(chunks_from(e, pos + k) =~= moved(chunks_from(d, pos), k));
        assert forall|i: int| 0 <= i < chunks_from(d, pos).len() implies pos <= (
        #[trigger] chunks_from(d, pos)[i]).start <= chunks_from(d, pos)[i].end <= d.len() by {
            if i > 0 {
                assert(chunks_from(d, pos)[i] == rest[i - 1]);
            }
        }
    } else {
        assert(chunks_from(e, pos + k) =~= moved(chunks_from(d, pos), k));
    }
}

proof fn lemma_last_chunk_add(a: Seq<Chunk>, b: Seq<Chunk>, tag: Seq<u8>)
    ensures
        last_chunk(a + b, tag) == (match last_chunk(b, tag) {
            Some(c) => Some(c),
            None => last_chunk(a, tag),
        }),
        last_chunk(b, tag) matches Some(c) ==> b.contains(c) && c.tag == tag,
    decreases b.len(),
{
    if b.len() == 0 {
        assert(a + b =~= a);
    } else {
        assert((a + b).drop_last() =~= a + b.drop_last());
        assert((a + b).last() == b.last());
        lemma_last_chunk_add(a, b.drop_last(), tag);
        if b.last().tag == tag {
            assert(b[b.len() - 1] == b.last());
        } else if let Some(c) = last_chunk(b, tag) {
            let i = choose|i: int| 0 <= i < b.drop_last().len() && b.drop_last()[i] == c;
            assert(b[i] == c);
        }
    }
}

proof fn lemma_last_chunk_moved(cs: Seq<Chunk>, k: int, tag: Seq<u8>)
    ensures
        last_chunk(moved(cs, k), tag) == (match last_chunk(cs, tag) {
            Some(c) => Some(moved_chunk(c, k)),
            None => None,
        }),
    decreases cs.len(),
{
    if cs.len() > 0 {
        assert(moved(cs, k).drop_last() =~= moved(cs.drop_last(), k));
        lemma_last_chunk_moved(cs.drop_last(), k, tag);
    }
}

/// A chunk with another tag than those that are looked for changes nothing of
/// what a file holds, wherever it is put in between the chunks.
pub proof fn other_chunks_are_skipped(
    d: Seq<u8>,
    at: int,
    tag: Seq<u8>,
    body: Seq<u8>,
    pad: u8,
)
    requires
        is_wave(d),
        at <= d.len(),
        between_chunks(d, 12, at),
        tag.len() == 4,
        tag != fmt_tag(),
        tag != data_tag(),
        body.len() <= u32::MAX,
    ensures
        wav_contents(with_inserted(d, at, chunk_bytes(tag, body, pad))) == wav_contents(d),
{
    let x = chunk_bytes(tag, body, pad);
    let e = with_inserted(d, at, x);
    let k = x.len() as int;
    lemma_between_le(d, 12, at);
    let before = chunks_between(d, 12, at);
    let after = chunks_from(d, at);
    assert(e.take(at) =~= d.take(at));
    lemma_chunks_split(d, d, 12, at);
    lemma_chunks_split(d, e, 12, at);
    assert forall|i: int| at <= i < d.len() implies #[trigger] e[i + k] == d[i] by {}
    lemma_chunks_moved(d, e, at, k);
    assert(e.subrange(at, at + 4) =~= tag);
    assert(e.subrange(at + 4, at + 8) =~= le32(body.len() as int));
    lemma_le32_at(e, at + 4, body.len() as int);
    let c = chunk_at(e, at);
    assert(c.tag == tag && c.start == at + 8 && c.end == at + 8 + body.len());
    assert(next_chunk(e, at) == at + k);
    assert(chunks_from(e, at) == seq![c] + moved(after, k));
    let cd = chunks_from(d, 12);
    let ce = chunks_from(e, 12);
    assert(cd == before + after);
    assert(ce =~= (before + seq![c]) + moved(after, k));
    assert(is_wave(e)) by {
        assert(e.subrange(0, 4) =~= d.subrange(0, 4));
        assert(e.subrange(8, 12) =~= d.subrange(8, 12));
    }
    lemma_small_fmt(before, c, after, k);
    lemma_same_field(d.len() as int, at, k, before, c, after, fmt_tag());
    lemma_same_field(d.len() as int, at, k, before, c, after, data_tag());
    if let Some(f) = last_chunk(cd, fmt_tag()) {
        let g = last_chunk(ce, fmt_tag())->0;
        lemma_same_bytes(d, at, x, f, g);
        if !has_small_fmt(cd) {
            let i = choose|i: int| 0 <= i < cd.len() && cd[i] == f;
            assert(cd[i].end - cd[i].start >= 16);
            lemma_same_fields(d, e, f, g);
        }
    }
    if let Some(f) = last_chunk(cd, data_tag()) {
        lemma_same_bytes(d, at, x, f, last_chunk(ce, data_tag())->0);
    }
}

proof fn lemma_same_bytes(d: Seq<u8>, at: int, x: Seq<u8>, f: Chunk, g: Chunk)
    requires
        0 <= at <= d.len(),
        0 <= f.start <= f.end <= d.len(),
        (g == f && f.end <= at) || (g == moved_chunk(f, x.len() as int) && f.start >= at),
    ensures
        with_inserted(d, at, x).subrange(g.start, g.end) == d.subrange(f.start, f.end),
{
    assert(with_inserted(d, at, x).subrange(g.start, g.end) =~= d.subrange(f.start, f.end));
}

proof fn lemma_same_fields(d: Seq<u8>, e: Seq<u8>, f: Chunk, g: Chunk)
    requires
        0 <= f.start,
        f.start + 16 <= f.end <= d.len(),
        0 <= g.start,
        g.end - g.start == f.end - f.start,
        g.end <= e.len(),
        e.subrange(g.start, g.end) == d.subrange(f.start, f.end),
    ensures
        le16_at(e, g.start + 2) == le16_at(d, f.start + 2),
        le32_at(e, g.start + 4) == le32_at(d, f.start + 4),
        le16_at(e, g.start + 14) == le16_at(d, f.start + 14),
{
    let a = d.subrange(f.start, f.end);
    let b = e.subrange(g.start, g.end);
    assert(a[2] == d[f.start + 2] && a[3] == d[f.start + 3] && a[4] == d[f.start + 4] && a[5]
        == d[f.start + 5] && a[6] == d[f.start + 6] && a[7] == d[f.start + 7] && a[14]
        == d[f.start + 14] && a[15] == d[f.start + 15]);
    assert(b[2] == e[g.start + 2] && b[3] == e[g.start + 3] && b[4] == e[g.start + 4] && b[5]
        == e[g.start + 5] && b[6] == e[g.start + 6] && b[7] == e[g.start + 7] && b[14]
        == e[g.start + 14] && b[15] == e[g.start + 15]);
}

/// A chunk with another tag, before the first chunk or the last one of the WAV
/// file written for a recording, changes nothing: the file still reads as the
/// recording.
pub proof fn recordings_keep_with_other_chunks(
    pcm: Seq<u8>,
    sample_rate: u32,
    channels: u16,
    tag: Seq<u8>,
    body: Seq<u8>,
    pad: u8,
)
    requires
        36 + pcm.len() <= u32::MAX,
        header_fits(pcm.len() as int, sample_rate as int, channels as int),
        sample_rate > 0,
        tag.len() == 4,
        tag != fmt_tag(),
        tag != data_tag(),
        body.len() <= u32::MAX,
    ensures
        ({
            let w = wav_file(pcm, sample_rate as int, channels as int);
            let x = chunk_bytes(tag, body, pad);
            let recording = Ok::<(Seq<u8>, int, int), WavError>(
                (pcm, sample_rate as int, channels as int),
            );
            &&& wav_contents(with_inserted(w, 12, x)) == recording
            &&& wav_contents(with_inserted(w, 36, x)) == recording
        }),
{
    let w = wav_file(pcm, sample_rate as int, channels as int);
    let n = pcm.len() as int;
    let h = header_of(n, sample_rate as int, channels as int);
    wav_round_trip(pcm, sample_rate, channels);
    lemma_header_len(n, sample_rate as int, channels as int);
    lemma_front(h, pcm);
    lemma_header_fields(w, n, sample_rate as int, channels as int);
    lemma_le32_at(w, 16, 16);
    assert(between_chunks(w, 12, 12));
    assert(between_chunks(w, 36, 36));
    assert(between_chunks(w, 12, 36));
    other_chunks_are_skipped(w, 12, tag, body, pad);
    other_chunks_are_skipped(w, 36, tag, body, pad);
}

/// A chunk that is looked for stands in both files, before the place or moved.
proof fn lemma_same_field(
    len: int,
    at: int,
    k: int,
    before: Seq<Chunk>,
    c: Chunk,
    after: Seq<Chunk>,
    tag: Seq<u8>,
)
    requires
        c.tag != tag,
        0 <= at <= len,
        forall|i: int|
            0 <= i < before.len() ==> 0 <= (#[trigger] before[i]).start <= before[i].end <= at,
        forall|i: int|
            0 <= i < after.len() ==> at <= (#[trigger] after[i]).start <= after[i].end <= len,
    ensures
        ({
            let f = last_chunk(before + after, tag);
            let g = last_chunk(before + seq![c] + moved(after, k), tag);
            &&& f is Some <==> g is Some
            &&& f is Some ==> {
                &&& (before + after).contains(f->0)
                &&& f->0.tag == tag
                &&& 0 <= f->0.start <= f->0.end <= len
                &&& (g->0 == f->0 && f->0.end <= at) || (g->0 == moved_chunk(f->0, k) && f->0.start
                    >= at)
            }
        }),
{
    lemma_last_chunk_add(before, after, tag);
    lemma_last_chunk_add(before + seq![c], moved(after, k), tag);
    lemma_last_chunk_add(before, seq![c], tag);
    assert(seq![c].drop_last() =~= Seq::<Chunk>::empty());
    assert(last_chunk(seq![c], tag) is None);
    lemma_last_chunk_moved(after, k, tag);
    lemma_last_chunk_add(seq![], before, tag);
    if let Some(f) = last_chunk(after, tag) {
        let i = choose|i: int| 0 <= i < after.len() && after[i] == f;
        assert((before + after)[before.len() + i] == f);
    } else if let Some(f) = last_chunk(before, tag) {
        assert(Seq::<Chunk>::empty() + before =~= before);
        let i = choose|i: int| 0 <= i < before.len() && before[i] == f;
        assert((before + after)[i] == f);
    }
}

proof fn lemma_small_fmt(before: Seq<Chunk>, c: Chunk, after: Seq<Chunk>, k: int)
    requires
        c.tag != fmt_tag(),
    ensures
        has_small_fmt(before + seq![c] + moved(after, k)) == has_small_fmt(before + after),
{
    let x = before + after;
    let y = before + seq![c] + moved(after, k);
    if has_small_fmt(x) {
        let i = choose|i: int|
            0 <= i < x.len() && (#[trigger] x[i]).tag == fmt_tag() && x[i].end - x[i].start < 16;
        if i < before.len() {
            assert(y[i] == x[i]);
        } else {
            assert(y[i + 1] == moved_chunk(x[i], k));
        }
    }
    if has_small_fmt(y) {
        let i = choose|i: int|
            0 <= i < y.len() && (#[trigger] y[i]).tag == fmt_tag() && y[i].end - y[i].start < 16;
        if i < before.len() {
            assert(y[i] == x[i]);
        } else {
            assert(i != before.len());
            assert(y[i] == moved_chunk(x[i - 1], k));
        }
    }
}

/// The number that two bytes of a file hold, low byte first.
pub open spec fn two_bytes(d: Seq<u8>, at: int) -> int {
    d[at] as int + (d[at + 1] as int) * 256
}

/// The number that four bytes of a file hold, low byte first.
pub open spec fn four_bytes(d: Seq<u8>, at: int) -> int {
    d[at] as int + (d[at + 1] as int) * 256 + (d[at + 2] as int) * 65536 + (d[at + 3] as int)
        * 16777216
}

/// The four bytes at a place.
pub open spec fn four_chars(d: Seq<u8>, at: int, a: char, b: char, c: char, e: char) -> bool {
    d[at] == a as u8 && d[at + 1] == b as u8 && d[at + 2] == c as u8 && d[at + 3] == e as u8
}

/// The fields of a WAV file stand where every reader looks for them: the tags
/// `RIFF`, `WAVE`, `fmt ` and `data`, the length of what follows, the format of
/// uncompressed samples of 16 bits, channels, sample rate, bytes in a second and
/// in a frame, and the length of the samples; then the samples.
pub proof fn wav_fields_stand_in_place(pcm: Seq<u8>, sample_rate: u32, channels: u16)
    requires
        36 + pcm.len() <= u32::MAX,
        sample_rate * (channels * 2) <= u32::MAX,
        channels < 0x8000,
    ensures
        ({
            let d = wav_file(pcm, sample_rate as int, channels as int);
            &&& d.len() == 44 + pcm.len()
            &&& d.skip(44) == pcm
            &&& four_chars(d, 0, 'R', 'I', 'F', 'F')
            &&& four_bytes(d, 4) == 36 + pcm.len()
            &&& four_chars(d, 8, 'W', 'A', 'V', 'E')
            &&& four_chars(d, 12, 'f', 'm', 't', ' ')
            &&& four_bytes(d, 16) == 16
            &&& two_bytes(d, 20) == 1
            &&& two_bytes(d, 22) == channels
            &&& four_bytes(d, 24) == sample_rate
            &&& four_bytes(d, 28) == sample_rate * (channels * 2)
            &&& two_bytes(d, 32) == channels * 2
            &&& two_bytes(d, 34) == 16
            &&& four_chars(d, 36, 'd', 'a', 't', 'a')
            &&& four_bytes(d, 40) == pcm.len()
        }),
{
    let n = pcm.len() as int;
    let rate = sample_rate as int;
    let ch = channels as int;
    let d = wav_file(pcm, rate, ch);
    let h = header_of(n, rate, ch);
    lemma_header_len(n, rate, ch);
    lemma_front(h, pcm);
    assert(d == h + pcm);
    assert(d.skip(44) =~= pcm);
    assert(rate * (ch * 2) >= 0) by (nonlinear_arith)
        requires
            rate >= 0,
            ch >= 0,
    ;
    lemma_header_fields(d, n, rate, ch);
    lemma_four(d, 4, 36 + n);
    lemma_four(d, 16, 16);
    lemma_two(d, 20, 1);
    lemma_two(d, 22, ch);
    lemma_four(d, 24, rate);
    lemma_four(d, 28, rate * (ch * 2));
    lemma_two(d, 32, ch * 2);
    lemma_two(d, 34, 16);
    lemma_four(d, 40, n);
    lemma_tag(d, 0, riff_tag());
    lemma_tag(d, 8, wave_tag());
    lemma_tag(d, 12, fmt_tag());
    lemma_tag(d, 36, data_tag());
}

proof fn lemma_four(d: Seq<u8>, at: int, n: int)
    requires
        0 <= at,
        at + 4 <= d.len(),
        0 <= n <= u32::MAX,
        d.subrange(at, at + 4) == le32(n),
    ensures
        four_bytes(d, at) == n,
{
    let p = d.subrange(at, at + 4);
    assert(p[0] == d[at] && p[1] == d[at + 1] && p[2] == d[at + 2] && p[3] == d[at + 3]);
}

proof fn lemma_two(d: Seq<u8>, at: int, n: int)
    requires
        0 <= at,
        at + 2 <= d.len(),
        0 <= n <= u16::MAX,
        d.subrange(at, at + 2) == le16(n),
    ensures
        two_bytes(d, at) == n,
{
    let p = d.subrange(at, at + 2);
    assert(p[0] == d[at] && p[1] == d[at + 1]);
}

proof fn lemma_tag(d: Seq<u8>, at: int, tag: Seq<u8>)
    requires
        0 <= at,
        at + 4 <= d.len(),
        d.subrange(at, at + 4) == tag,
        tag.len() == 4,
    ensures
        d[at] == tag[0] && d[at + 1] == tag[1] && d[at + 2] == tag[2] && d[at + 3] == tag[3],
{
    let p = d.subrange(at, at + 4);
    assert(p[0] == d[at] && p[1] == d[at + 1] && p[2] == d[at + 2] && p[3] == d[at + 3]);
}

/// What is no WAV file is refused as such, and so are samples of another width.
pub proof fn other_files_are_refused(d: Seq<u8>)
    ensures
        d.len() < 12 ==> wav_contents(d) is Err && wav_contents(d)->Err_0 is NotWav,
        d.len() >= 12 && !(four_chars(d, 0, 'R', 'I', 'F', 'F') && four_chars(
            d,
            8,
            'W',
            'A',
            'V',
            'E',
        )) ==> wav_contents(d) is Err && wav_contents(d)->Err_0 is NotWav,
        wav_contents(d) is Ok ==> fmt_bits(d, chunks_from(d, 12)) == 16,
{
    if d.len() >= 12 && is_wave(d) {
        lemma_tag(d, 0, riff_tag());
        lemma_tag(d, 8, wave_tag());
    }
}

} // verus!
