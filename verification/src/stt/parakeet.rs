//! Local batch transcription with Parakeet models.

use super::local::{local_segment, make_local_segment, LocalBuffer, LOCAL_RATE};
use super::{segment_views, Segment, SegmentView};
use crate::paths::{join_path, path_join};
use crate::text::{after_prefix, concat3, decimal, decimal_string, owned, same, strip_prefix, texts};
use crate::time::{clamp, clamped, Stamp};
use vstd::prelude::*;

verus! {

broadcast use vstd::string::group_string_axioms;

/// The seconds of audio that a model is given at once.
pub const CHUNK_SECONDS: u64 = 240;

/// The samples that a model is given at once.
pub const CHUNK_SAMPLES: u64 = 3_840_000;

/// Where a model lies: `path:` gives the directory itself, a name one below the
/// home directory; no name and `v3` mean the default model.
pub open spec fn model_path(model: Seq<char>, home: Seq<char>) -> Seq<char> {
    match after_prefix(model, "path:"@) {
        Some(p) => p,
        None => path_join(
            path_join(path_join(home, ".yogurt"@), "parakeet"@),
            if model.len() == 0 || model == "v3"@ {
                "parakeet-tdt-0.6b-v3"@
            } else {
                model
            },
        ),
    }
}

/// Where a model lies.
pub fn resolve_model(model: &str, home: &str) -> (r: String)
    ensures
        r@ == model_path(model@, home@),
{
    match strip_prefix(model, "path:") {
        Some(p) => p,
        None => {
            let name = if model.unicode_len() == 0 || same(model, "v3") {
                owned("parakeet-tdt-0.6b-v3")
            } else {
                owned(model)
            };
            let dir = join_path(join_path(home, ".yogurt").as_str(), "parakeet");
            join_path(dir.as_str(), name.as_str())
        },
    }
}

/// Whether a file may hold a model's encoder.
pub open spec fn is_encoder(name: Seq<char>) -> bool {
    name == "encoder-model.onnx"@ || name == "encoder.onnx"@ || name == "encoder-model.int8.onnx"@
}

/// Whether a file may hold a model's decoder.
pub open spec fn is_decoder(name: Seq<char>) -> bool {
    name == "decoder_joint-model.onnx"@ || name == "decoder_joint-model.int8.onnx"@ || name
        == "decoder_joint.onnx"@ || name == "decoder-model.onnx"@
}

/// What keeps a model from being used, given the names of the files in its
/// directory, if it is one.
pub open spec fn parakeet_error(
    path: Seq<char>,
    files: Option<Seq<Seq<char>>>,
    sample_rate: nat,
) -> Option<Seq<char>> {
    let complete = match files {
        Some(names) => (exists|i: int| 0 <= i < names.len() && is_encoder(#[trigger] names[i])) && (
        exists|i: int| 0 <= i < names.len() && is_decoder(#[trigger] names[i])),
        None => false,
    };
    if !complete {
        Some(
            "parakeet model directory not found at "@ + path
                + " \u{2014} run: make setup-parakeet"@,
        )
    } else if sample_rate != LOCAL_RATE {
        Some("parakeet requires 16kHz audio (got "@ + decimal(sample_rate) + "Hz)"@)
    } else {
        None
    }
}

fn encoder_name(name: &str) -> (r: bool)
    ensures
        r == is_encoder(name@),
{
    same(name, "encoder-model.onnx") || same(name, "encoder.onnx") || same(
        name,
        "encoder-model.int8.onnx",
    )
}

fn decoder_name(name: &str) -> (r: bool)
    ensures
        r == is_decoder(name@),
{
    same(name, "decoder_joint-model.onnx") || same(name, "decoder_joint-model.int8.onnx") || same(
        name,
        "decoder_joint.onnx",
    ) || same(name, "decoder-model.onnx")
}

fn complete_model(files: &[String]) -> (r: bool)
    ensures
        r == ((exists|i: int|
            0 <= i < texts(files@).len() && is_encoder(#[trigger] texts(files@)[i])) && (exists|
            i: int,
        |
            0 <= i < texts(files@).len() && is_decoder(#[trigger] texts(files@)[i]))),
{
    let ghost names = texts(files@);
    let mut encoder = false;
    let mut decoder = false;
    let mut i: usize = 0;
    while i < files.len()
        invariant
            i <= files@.len(),
            names == texts(files@),
            encoder == exists|k: int| 0 <= k < i && is_encoder(#[trigger] names[k]),
            decoder == exists|k: int| 0 <= k < i && is_decoder(#[trigger] names[k]),
        decreases files@.len() - i,
    {
        let e = encoder_name(files[i].as_str());
        let d = decoder_name(files[i].as_str());
        assert(names[i as int] == files@[i as int]@);
        encoder = encoder || e;
        decoder = decoder || d;
        i += 1;
    }
    encoder && decoder
}

/// Whether a model can be used: its directory holds an encoder and a decoder,
/// and the audio has the rate that it takes. `files` are the names of the files
/// in the directory, if it is one.
pub fn check_parakeet(path: &str, files: &Option<Vec<String>>, sample_rate: u32) -> (r: Result<
    (),
    String,
>)
    ensures
        ({
            let names = match *files {
                Some(f) => Some(texts(f@)),
                None => None,
            };
            let e = parakeet_error(path@, names, sample_rate as nat);
            &&& r is Ok <==> e is None
            &&& r matches Err(t) ==> t@ == e->0
        }),
{
    let complete = match files {
        Some(f) => complete_model(f),
        None => false,
    };
    if !complete {
        Err(
            concat3(
                "parakeet model directory not found at ",
                path,
                " \u{2014} run: make setup-parakeet",
            ),
        )
    } else if sample_rate != LOCAL_RATE {
        Err(
            concat3(
                "parakeet requires 16kHz audio (got ",
                decimal_string(sample_rate as u64).as_str(),
                "Hz)",
            ),
        )
    } else {
        Ok(())
    }
}

/// The samples of chunk `i` of a recording: its first and the one behind its
/// last.
pub open spec fn chunk_range(total: int, i: int) -> (int, int) {
    (
        i * CHUNK_SAMPLES,
        if (i + 1) * CHUNK_SAMPLES < total {
            (i + 1) * CHUNK_SAMPLES
        } else {
            total
        },
    )
}

/// The number of chunks that a recording takes.
pub open spec fn chunk_count(total: int) -> int {
    (total + CHUNK_SAMPLES - 1) / CHUNK_SAMPLES as int
}

/// The chunks that a recording of `total` samples is given to the model in, as
/// ranges of samples.
pub fn chunk_ranges(total: usize) -> (r: Vec<(usize, usize)>)
    ensures
        r@.len() == chunk_count(total as int),
        forall|i: int|
            0 <= i < r@.len() ==> ((#[trigger] r@[i]).0 as int, r@[i].1 as int) == chunk_range(
                total as int,
                i,
            ),
{
    let mut out: Vec<(usize, usize)> = Vec::new();
    let mut at: u64 = 0;
    let n: u64 = total as u64;
    while at < n
        invariant
            n == total,
            at <= n,
            at == out@.len() * CHUNK_SAMPLES || at == n,
            at == n ==> out@.len() == chunk_count(total as int),
            at < n ==> at == out@.len() * CHUNK_SAMPLES,
            forall|i: int|
                0 <= i < out@.len() ==> ((#[trigger] out@[i]).0 as int, out@[i].1 as int)
                    == chunk_range(total as int, i),
        decreases n - at,
    {
        let end: u64 = if n - at > CHUNK_SAMPLES {
            at + CHUNK_SAMPLES
        } else {
            n
        };
        out.push((at as usize, end as usize));
        at = end;
    }
    out
}

/// The chunks cover the recording without gap or overlap, each holds something
/// and none more than a model is given at once.
pub proof fn chunks_cover(total: int, i: int)
    requires
        0 <= i < chunk_count(total),
    ensures
        i == 0 ==> chunk_range(total, i).0 == 0,
        i + 1 < chunk_count(total) ==> chunk_range(total, i).1 == chunk_range(total, i + 1).0,
        i + 1 == chunk_count(total) ==> chunk_range(total, i).1 == total,
        0 < chunk_range(total, i).1 - chunk_range(total, i).0 <= CHUNK_SAMPLES,
{
}

/// The segments of the chunks' texts: each from its chunk's start to its end;
/// blank ones are left out.
pub open spec fn chunk_segments(chunks: Seq<(Seq<char>, nat)>, now: Stamp) -> Seq<SegmentView>
    decreases chunks.len(),
{
    if chunks.len() == 0 {
        seq![]
    } else {
        let before = chunk_segments(chunks.drop_last(), now);
        let start = (chunks.len() - 1) * CHUNK_SECONDS * 1_000_000;
        let (text, samples) = chunks.last();
        match local_segment(
            text,
            clamped(start),
            clamped(start + samples as int * 1_000_000 / LOCAL_RATE as int),
            now,
        ) {
            Some(s) => before.push(s),
            None => before,
        }
    }
}

/// The texts of the chunks of a recording, with the number of samples of each.
pub open spec fn chunk_views(chunks: Seq<(String, u32)>) -> Seq<(Seq<char>, nat)> {
    chunks.map_values(|c: (String, u32)| (c.0@, c.1 as nat))
}

/// The segments of the chunks' texts.
pub fn parakeet_segments(chunks: &[(String, u32)], now: Stamp) -> (r: Vec<Segment>)
    ensures
        segment_views(r@) == chunk_segments(chunk_views(chunks@), now),
{
    let ghost views = chunk_views(chunks@);
    let mut out: Vec<Segment> = Vec::new();
    let mut i: usize = 0;
    assert(views.take(0) =~= Seq::<(Seq<char>, nat)>::empty());
    assert(segment_views(out@) =~= Seq::<SegmentView>::empty());
    while i < chunks.len()
        invariant
            i <= chunks@.len(),
            views == chunk_views(chunks@),
            segment_views(out@) == chunk_segments(views.take(i as int), now),
        decreases chunks@.len() - i,
    {
        assert(views.take(i + 1).drop_last() =~= views.take(i as int));
        assert(views.take(i + 1).last() == (chunks@[i as int].0@, chunks@[i as int].1 as nat));
        let from: i128 = i as i128 * CHUNK_SECONDS as i128 * 1_000_000;
        let to: i128 = from + (chunks[i].1 as u64 * 1_000_000 / LOCAL_RATE as u64) as i128;
        let start = clamp(from);
        let end = clamp(to);
        let ghost before = segment_views(out@);
        if let Some(s) = make_local_segment(chunks[i].0.as_str(), start, end, now) {
            let ghost v = s@;
            out.push(s);
            assert(segment_views(out@) =~= before.push(v));
        }
        i += 1;
    }
    assert(views.take(i as int) =~= views);
    out
}

/// A client of a local model: audio is kept until it is closed.
#[derive(Debug)]
pub struct ParakeetClient {
    pub sample_rate: u32,
    pub model_path: String,
    pub buffer: LocalBuffer,
}

impl ParakeetClient {
    /// A client without audio.
    pub fn new(sample_rate: u32, model: &str, home: &str) -> (r: ParakeetClient)
        ensures
            r.sample_rate == sample_rate,
            r.model_path@ == model_path(model@, home@),
            r.buffer.audio_buf@.len() == 0,
            !r.buffer.closed,
    {
        ParakeetClient {
            sample_rate,
            model_path: resolve_model(model, home),
            buffer: LocalBuffer::new(),
        }
    }

    /// Whether the model can be used; `files` tells the names of the files in the directory, if it is one.
    pub fn connect(&self, files: &Option<Vec<String>>) -> (r: Result<(), String>)
        ensures
            ({
                let names = match *files {
                    Some(f) => Some(texts(f@)),
                    None => None,
                };
                let e = parakeet_error(self.model_path@, names, self.sample_rate as nat);
                &&& r is Ok <==> e is None
                &&& r matches Err(t) ==> t@ == e->0
            }),
    {
        check_parakeet(self.model_path.as_str(), files, self.sample_rate)
    }
}

/// Each chunk whose text is not blank becomes a segment, in order. A chunk starts
/// four minutes after the one before it, and lasts as long as its samples do, of
/// which there are 16000 in a second.
pub proof fn chunks_become_segments_in_order(
    chunks: Seq<(Seq<char>, nat)>,
    text: Seq<char>,
    seconds: nat,
    now: Stamp,
)
    requires
        chunks.len() <= 1_000_000,
        seconds <= 1_000_000,
    ensures
        chunk_segments(seq![], now) == Seq::<SegmentView>::empty(),
        crate::text::trimmed(text).len() == 0 ==> chunk_segments(
            chunks.push((text, 16000 * seconds)),
            now,
        ) == chunk_segments(chunks, now),
        crate::text::trimmed(text).len() > 0 ==> {
            let all = chunk_segments(chunks.push((text, 16000 * seconds)), now);
            &&& all.len() == chunk_segments(chunks, now).len() + 1
            &&& all.drop_last() == chunk_segments(chunks, now)
            &&& all.last().text == crate::text::trimmed(text)
            &&& all.last().start_time == 240_000_000 * chunks.len()
            &&& all.last().end_time == 240_000_000 * chunks.len() + 1_000_000 * seconds
        },
{
    let c = chunks.push((text, 16000 * seconds));
    assert(c.drop_last() =~= chunks);
    assert((16000 * seconds) as int * 1_000_000 / 16000 == 1_000_000 * seconds);
    if crate::text::trimmed(text).len() > 0 {
        assert(chunk_segments(c, now).drop_last() =~= chunk_segments(chunks, now));
    }
}

proof fn lemma_complete_model(path: Seq<char>, files: Seq<Seq<char>>)
    requires
        files.contains("encoder.onnx"@),
        files.contains("decoder_joint.onnx"@),
    ensures
        parakeet_error(path, Some(files), 16000) is None,
{
    let i = choose|i: int| 0 <= i < files.len() && files[i] == "encoder.onnx"@;
    let k = choose|k: int| 0 <= k < files.len() && files[k] == "decoder_joint.onnx"@;
    let found = Some(files);
    assert(is_encoder(found->0[i]));
    assert(is_decoder(found->0[k]));
    assert(match found {
        Some(names) => (exists|i: int| 0 <= i < names.len() && is_encoder(#[trigger] names[i])) && (
        exists|i: int| 0 <= i < names.len() && is_decoder(#[trigger] names[i])),
        None => false,
    });
    assert(parakeet_error(path, found, 16000) is None);
}

/// A model that is given by a path is taken from there; no name and `v3` stand
/// for the same model. It can be used if and only if an encoder and a decoder are
/// there and the audio has 16000 samples a second.
pub proof fn models_are_found_by_path_or_name(
    path: Seq<char>,
    home: Seq<char>,
    files: Seq<Seq<char>>,
    rate: nat,
)
    ensures
        model_path("path:"@ + path, home) == path,
        model_path(seq![], home) == model_path("v3"@, home),
        parakeet_error(path, None, rate) is Some,
        parakeet_error(path, Some(files), rate) is None ==> rate == 16000 && files.len() > 0,
        rate == 16000 && files.contains("encoder.onnx"@) && files.contains("decoder_joint.onnx"@)
            ==> parakeet_error(path, Some(files), rate) is None,
{
    let s = "path:"@ + path;
    reveal_strlit("path:");
    reveal_strlit("v3");
    assert(s.take("path:"@.len() as int) =~= "path:"@);
    assert(s.skip("path:"@.len() as int) =~= path);
    assert(!crate::text::starts_with("v3"@, "path:"@));
    assert(!crate::text::starts_with(Seq::<char>::empty(), "path:"@));
    if files.contains("encoder.onnx"@) && files.contains("decoder_joint.onnx"@) {
        lemma_complete_model(path, files);
    }
}

} // verus!
