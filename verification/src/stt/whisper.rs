//! Local batch transcription with whisper models.

use super::local::{local_segment, make_local_segment, LocalBuffer, LOCAL_RATE};
use super::{segment_views, Segment, SegmentView};
use crate::paths::{join_path, path_join};
use crate::text::{after_prefix, concat3, decimal, decimal_string, owned, strip_prefix};
use crate::time::{clamp, clamped, Stamp};
use vstd::prelude::*;

verus! {

broadcast use vstd::string::group_string_axioms;

/// Where a model lies: `path:` gives the place itself, a name one below the
/// home directory.
pub open spec fn model_path(model: Seq<char>, home: Seq<char>) -> Seq<char> {
    match after_prefix(model, "path:"@) {
        Some(p) => p,
        None => path_join(
            path_join(path_join(home, ".yogurt"@), "whisper"@),
            "ggml-"@ + (if model.len() == 0 {
                "base"@
            } else {
                model
            }) + ".bin"@,
        ),
    }
}

/// Where a model lies.
pub fn resolve_model(model: &str, home: &str) -> (r: String)
    ensures
        r@ == model_path(model@, home@),
{
    match strip_prefix(model, "path:") {
        Some(p) => p,
        None => {
            let name = if model.unicode_len() == 0 {
                owned("base")
            } else {
                owned(model)
            };
            let dir = join_path(join_path(home, ".yogurt").as_str(), "whisper");
            join_path(dir.as_str(), concat3("ggml-", name.as_str(), ".bin").as_str())
        },
    }
}

/// What keeps a model from being used.
pub open spec fn whisper_error(path: Seq<char>, exists: bool, sample_rate: nat) -> Option<
    Seq<char>,
> {
    if !exists {
        Some(
            "whisper model not found at "@ + path + " \u{2014} run: make setup MODEL=<name>"@,
        )
    } else if sample_rate != LOCAL_RATE {
        Some("whisper requires 16kHz audio (got "@ + decimal(sample_rate) + "Hz)"@)
    } else {
        None
    }
}

/// Whether a model can be used: its file exists, and the audio has the rate that
/// it takes.
pub fn check_whisper(path: &str, exists: bool, sample_rate: u32) -> (r: Result<(), String>)
    ensures
        r is Ok <==> whisper_error(path@, exists, sample_rate as nat) is None,
        r matches Err(e) ==> e@ == whisper_error(path@, exists, sample_rate as nat)->0,
{
    if !exists {
        Err(concat3("whisper model not found at ", path, " \u{2014} run: make setup MODEL=<name>"))
    } else if sample_rate != LOCAL_RATE {
        Err(
            concat3(
                "whisper requires 16kHz audio (got ",
                decimal_string(sample_rate as u64).as_str(),
                "Hz)",
            ),
        )
    } else {
        Ok(())
    }
}

/// A piece of a transcription; its times are in hundredths of a second.
#[derive(Debug)]
pub struct WhisperPiece {
    pub text: String,
    pub t0: i64,
    pub t1: i64,
}

/// The segments of a transcription; blank pieces are left out.
pub open spec fn whisper_pieces(pieces: Seq<WhisperPiece>, now: Stamp) -> Seq<SegmentView>
    decreases pieces.len(),
{
    if pieces.len() == 0 {
        seq![]
    } else {
        let before = whisper_pieces(pieces.drop_last(), now);
        let p = pieces.last();
        match local_segment(p.text@, clamped(p.t0 * 10_000), clamped(p.t1 * 10_000), now) {
            Some(s) => before.push(s),
            None => before,
        }
    }
}

/// The segments of a transcription; blank pieces are left out.
pub fn whisper_segments(pieces: &[WhisperPiece], now: Stamp) -> (r: Vec<Segment>)
    ensures
        segment_views(r@) == whisper_pieces(pieces@, now),
{
    let mut out: Vec<Segment> = Vec::new();
    let mut i: usize = 0;
    assert(pieces@.take(0) =~= Seq::<WhisperPiece>::empty());
    assert(segment_views(out@) =~= Seq::<SegmentView>::empty());
    while i < pieces.len()
        invariant
            i <= pieces@.len(),
            segment_views(out@) == whisper_pieces(pieces@.take(i as int), now),
        decreases pieces@.len() - i,
    {
        assert(pieces@.take(i + 1).drop_last() =~= pieces@.take(i as int));
        let p = &pieces[i];
        let ghost before = segment_views(out@);
        let start = clamp(p.t0 as i128 * 10_000);
        let end = clamp(p.t1 as i128 * 10_000);
        if let Some(s) = make_local_segment(p.text.as_str(), start, end, now) {
            let ghost v = s@;
            out.push(s);
            assert(segment_views(out@) =~= before.push(v));
        }
        i += 1;
    }
    assert(pieces@.take(i as int) =~= pieces@);
    out
}

/// A client of a local model: audio is kept until it is closed.
#[derive(Debug)]
pub struct WhisperClient {
    pub sample_rate: u32,
    pub model_path: String,
    pub buffer: LocalBuffer,
}

impl WhisperClient {
    /// A client without audio.
    pub fn new(sample_rate: u32, model: &str, home: &str) -> (r: WhisperClient)
        ensures
            r.sample_rate == sample_rate,
            r.model_path@ == model_path(model@, home@),
            r.buffer.audio_buf@.len() == 0,
            !r.buffer.closed,
    {
        WhisperClient {
            sample_rate,
            model_path: resolve_model(model, home),
            buffer: LocalBuffer::new(),
        }
    }

    /// Whether the model can be used; `exists` tells whether the file is there.
    pub fn connect(&self, exists: bool) -> (r: Result<(), String>)
        ensures
            r is Ok <==> whisper_error(self.model_path@, exists, self.sample_rate as nat) is None,
            r matches Err(e) ==> e@ == whisper_error(
                self.model_path@,
                exists,
                self.sample_rate as nat,
            )->0,
    {
        check_whisper(self.model_path.as_str(), exists, self.sample_rate)
    }
}

/// Each piece of a transcription that is not blank becomes a segment, in order;
/// its times, hundredths of a second, become microseconds.
pub proof fn pieces_become_segments_in_order(pieces: Seq<WhisperPiece>, p: WhisperPiece, now: Stamp)
    ensures
        whisper_pieces(seq![], now) == Seq::<SegmentView>::empty(),
        crate::text::trimmed(p.text@).len() == 0 ==> whisper_pieces(pieces.push(p), now)
            == whisper_pieces(pieces, now),
        crate::text::trimmed(p.text@).len() > 0 ==> {
            let all = whisper_pieces(pieces.push(p), now);
            &&& all.len() == whisper_pieces(pieces, now).len() + 1
            &&& all.drop_last() == whisper_pieces(pieces, now)
            &&& all.last().text == crate::text::trimmed(p.text@)
            &&& 0 <= p.t0 <= 900_000_000_000_000 ==> all.last().start_time == 10_000 * p.t0
            &&& 0 <= p.t1 <= 900_000_000_000_000 ==> all.last().end_time == 10_000 * p.t1
        },
{
    assert(pieces.push(p).drop_last() =~= pieces);
    if crate::text::trimmed(p.text@).len() > 0 {
        let all = whisper_pieces(pieces.push(p), now);
        assert(all.drop_last() =~= whisper_pieces(pieces, now));
    }
}

/// A model that is given by a path is taken from there; one that is given by name
/// lies below the home directory, and no name stands for the base model. It can
/// be used if and only if it is there and the audio has 16000 samples a second.
pub proof fn models_are_found_by_path_or_name(
    path: Seq<char>,
    home: Seq<char>,
    exists: bool,
    rate: nat,
)
    ensures
        model_path("path:"@ + path, home) == path,
        model_path(seq![], home) == model_path("base"@, home),
        whisper_error(path, exists, rate) is None <==> exists && rate == 16000,
{
    let s = "path:"@ + path;
    reveal_strlit("path:");
    reveal_strlit("base");
    assert(s.take("path:"@.len() as int) =~= "path:"@);
    assert(s.skip("path:"@.len() as int) =~= path);
    assert("base"@[0] == 'b' && "path:"@[0] == 'p');
    assert(!crate::text::starts_with("base"@, "path:"@));
    assert(!crate::text::starts_with(Seq::<char>::empty(), "path:"@));
}

} // verus!
