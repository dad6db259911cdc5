//! What the local batch models have in common: audio is kept until the end,
//! then transcribed at once.

use super::{Segment, SegmentView};
use crate::text::{owned, trim, trimmed};
use crate::time::Stamp;
use vstd::prelude::*;

verus! {

broadcast use vstd::string::group_string_axioms;

/// The sample rate that the local models take.
pub const LOCAL_RATE: u32 = 16_000;

/// Audio kept until the end.
#[derive(Debug)]
pub struct LocalBuffer {
    pub audio_buf: Vec<u8>,
    pub closed: bool,
}

impl LocalBuffer {
    /// A buffer without audio.
    pub fn new() -> (r: LocalBuffer)
        ensures
            r.audio_buf@.len() == 0,
            !r.closed,
    {
        LocalBuffer { audio_buf: Vec::new(), closed: false }
    }

    /// Takes in audio.
    pub fn send_audio(&mut self, pcm: &[u8])
        ensures
            final(self).audio_buf@ == old(self).audio_buf@ + pcm@,
            final(self).closed == old(self).closed,
    {
        self.audio_buf.extend_from_slice(pcm);
        assert(self.audio_buf@ =~= old(self).audio_buf@ + pcm@);
    }

    /// Hands the audio out for transcription; the second time there is none.
    pub fn close(&mut self) -> (r: Option<Vec<u8>>)
        ensures
            final(self).closed,
            old(self).closed ==> r is None && final(self).audio_buf == old(self).audio_buf,
            !old(self).closed ==> {
                &&& r is Some
                &&& r->0@ == old(self).audio_buf@
                &&& final(self).audio_buf@.len() == 0
            },
    {
        if self.closed {
            return None;
        }
        self.closed = true;
        let mut buf: Vec<u8> = Vec::new();
        std::mem::swap(&mut buf, &mut self.audio_buf);
        Some(buf)
    }
}

/// The segment that a local model's text makes: its whole text under one
/// speaker, or none where it is blank. The models tell no confidence.
pub open spec fn local_segment(text: Seq<char>, start: int, end: int, now: Stamp) -> Option<
    SegmentView,
> {
    if trimmed(text).len() == 0 {
        None
    } else {
        Some(
            SegmentView {
                text: trimmed(text),
                speaker: "A"@,
                start_time: start,
                end_time: end,
                confidence: 0,
                is_final: true,
                created_at: now,
            },
        )
    }
}

/// The segment that a local model's text makes.
pub fn make_local_segment(text: &str, start: i64, end: i64, now: Stamp) -> (r: Option<Segment>)
    ensures
        r is Some <==> local_segment(text@, start as int, end as int, now) is Some,
        r matches Some(s) ==> s@ == local_segment(text@, start as int, end as int, now)->0,
{
    let text = trim(text);
    if text.as_str().unicode_len() == 0 {
        None
    } else {
        Some(
            Segment {
                text,
                speaker: owned("A"),
                start_time: start,
                end_time: end,
                confidence: 0,
                is_final: true,
                created_at: now,
            },
        )
    }
}

/// The segment of a local model's text says the text, without the whitespace
/// around it, from the given start to the given end, as one speaker's final
/// words; whitespace alone makes none.
pub proof fn local_texts_become_segments(
    front: Seq<char>,
    core: Seq<char>,
    back: Seq<char>,
    start: int,
    end: int,
    now: Stamp,
)
    requires
        crate::text::all_white(front),
        crate::text::all_white(back),
        core.len() > 0 ==> !crate::text::is_whitespace(core[0]) && !crate::text::is_whitespace(
            core.last(),
        ),
    ensures
        core.len() == 0 ==> local_segment(front + core + back, start, end, now) is None,
        core.len() > 0 ==> (local_segment(front + core + back, start, end, now) matches Some(s) && {
            &&& s.text == core
            &&& s.speaker == seq!['A']
            &&& s.start_time == start
            &&& s.end_time == end
            &&& s.is_final
            &&& s.created_at == now
        }),
{
    crate::text::trimming_strips_both_ends(front, core, back);
    reveal_strlit("A");
    assert("A"@ =~= seq!['A']);
}

} // verus!
