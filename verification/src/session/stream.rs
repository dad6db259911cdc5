//! From captured audio to the recording and the provider.

use super::Status;
use crate::audio::pcm::{calc_level, level_of, samples, silent_iff_all_zero};
use crate::text::{concat2, opt_text, owned};
use vstd::prelude::*;

verus! {

broadcast use vstd::string::group_string_axioms;

/// Audio is sent once this much has gathered: 100 ms at 16 kHz.
pub const TARGET_SEND_BYTES: usize = 3200;

/// How many silent chunks in a row are worth a warning.
pub const SILENT_WARN_CHUNKS: u32 = 50;

/// Audio that waits to be sent, and how long nothing has been heard.
#[derive(Debug)]
pub struct Streamer {
    pub send_buf: Vec<u8>,
    pub silent_chunks: u32,
    pub silent_warned: bool,
}

/// The contents of a [`Streamer`].
pub struct StreamView {
    pub send_buf: Seq<u8>,
    pub silent_chunks: nat,
    pub silent_warned: bool,
}

impl View for Streamer {
    type V = StreamView;

    open spec fn view(&self) -> StreamView {
        StreamView {
            send_buf: self.send_buf@,
            silent_chunks: self.silent_chunks as nat,
            silent_warned: self.silent_warned,
        }
    }
}

/// What is done with a captured chunk.
#[derive(Debug)]
pub struct StreamStep {
    /// Whether the chunk belongs to the recording.
    pub record: bool,
    /// Audio to send to the provider.
    pub send: Option<Vec<u8>>,
    /// The reading of the level meter.
    pub level: Option<u32>,
    pub notice: Option<String>,
    /// Whether no further chunk is taken.
    pub stop: bool,
}

/// Nothing waits and nothing was silent.
pub open spec fn stream_start() -> StreamView {
    StreamView { send_buf: seq![], silent_chunks: 0, silent_warned: false }
}

/// The number of silent chunks in a row after another chunk.
pub open spec fn silence_after(s: StreamView, chunk: Seq<u8>) -> nat {
    if level_of(chunk) != 0 {
        0
    } else if s.silent_chunks < u32::MAX {
        s.silent_chunks + 1
    } else {
        s.silent_chunks
    }
}

/// Whether a chunk calls for the warning that nothing is heard: once, when the
/// silence has become long enough.
pub open spec fn warns(s: StreamView, chunk: Seq<u8>) -> bool {
    level_of(chunk) == 0 && silence_after(s, chunk) == SILENT_WARN_CHUNKS && !s.silent_warned
}

/// The audio that is sent when a chunk arrives.
pub open spec fn sent(s: StreamView, status: Status, chunk: Seq<u8>) -> Seq<u8> {
    match status {
        Status::Paused => seq![],
        Status::Recording => if (s.send_buf + chunk).len() >= TARGET_SEND_BYTES {
            s.send_buf + chunk
        } else {
            seq![]
        },
        _ => s.send_buf,
    }
}

/// What waits after a chunk arrived.
pub open spec fn after_chunk(s: StreamView, status: Status, chunk: Seq<u8>) -> StreamView {
    match status {
        Status::Paused => StreamView { send_buf: seq![], ..s },
        Status::Recording => StreamView {
            send_buf: if (s.send_buf + chunk).len() >= TARGET_SEND_BYTES {
                seq![]
            } else {
                s.send_buf + chunk
            },
            silent_chunks: silence_after(s, chunk),
            silent_warned: s.silent_warned || warns(s, chunk),
        },
        _ => StreamView { send_buf: seq![], ..s },
    }
}

impl Streamer {
    /// A streamer that has seen nothing.
    pub fn new() -> (r: Streamer)
        ensures
            r@ == stream_start(),
    {
        let r = Streamer { send_buf: Vec::new(), silent_chunks: 0, silent_warned: false };
        assert(r@.send_buf =~= Seq::<u8>::empty());
        r
    }

    fn take_waiting(&mut self) -> (r: Option<Vec<u8>>)
        ensures
            final(self)@ == (StreamView { send_buf: seq![], ..old(self)@ }),
            r is Some <==> old(self)@.send_buf.len() > 0,
            r matches Some(v) ==> v@ == old(self)@.send_buf,
    {
        if self.send_buf.len() == 0 {
            assert(self@.send_buf =~= Seq::<u8>::empty());
            return None;
        }
        let mut out: Vec<u8> = Vec::new();
        std::mem::swap(&mut out, &mut self.send_buf);
        assert(self@.send_buf =~= Seq::<u8>::empty());
        Some(out)
    }

    /// Takes in a captured chunk. While recording it is kept, metered, and sent
    /// once enough has gathered; while paused it is dropped with what waits;
    /// afterwards what waits is sent and nothing more is taken.
    pub fn on_chunk(&mut self, status: Status, chunk: &[u8]) -> (r: StreamStep)
        ensures
            final(self)@ == after_chunk(old(self)@, status, chunk@),
            r.record == (status is Recording),
            r.send is Some <==> sent(old(self)@, status, chunk@).len() > 0,
            r.send matches Some(v) ==> v@ == sent(old(self)@, status, chunk@),
            r.level == (match status {
                Status::Paused => Some(0u32),
                Status::Recording => Some(level_of(chunk@) as u32),
                _ => None,
            }),
            r.notice is Some <==> status is Recording && warns(old(self)@, chunk@),
            r.notice is Some ==> opt_text(r.notice) == Some(
                "No audio detected \u{2014} check your microphone"@,
            ),
            r.stop == (status is Idle || status is Finished),
    {
        match status {
            Status::Paused => {
                self.send_buf = Vec::new();
                assert(self@.send_buf =~= Seq::<u8>::empty());
                StreamStep { record: false, send: None, level: Some(0), notice: None, stop: false }
            },
            Status::Recording => {
                let level = calc_level(chunk);
                let mut notice: Option<String> = None;
                if level == 0 {
                    if self.silent_chunks < u32::MAX {
                        self.silent_chunks += 1;
                    }
                    if self.silent_chunks == SILENT_WARN_CHUNKS && !self.silent_warned {
                        self.silent_warned = true;
                        notice = Some(owned("No audio detected \u{2014} check your microphone"));
                    }
                } else {
                    self.silent_chunks = 0;
                }
                self.send_buf.extend_from_slice(chunk);
                assert(self.send_buf@ =~= old(self).send_buf@ + chunk@);
                let send = if self.send_buf.len() >= TARGET_SEND_BYTES {
                    self.take_waiting()
                } else {
                    None
                };
                StreamStep { record: true, send, level: Some(level), notice, stop: false }
            },
            _ => {
                let send = self.take_waiting();
                StreamStep { record: false, send, level: None, notice: None, stop: true }
            },
        }
    }

    /// The audio that still waits when no chunk is left.
    pub fn finish(&mut self) -> (r: Option<Vec<u8>>)
        ensures
            final(self)@ == (StreamView { send_buf: seq![], ..old(self)@ }),
            r is Some <==> old(self)@.send_buf.len() > 0,
            r matches Some(v) ==> v@ == old(self)@.send_buf,
    {
        self.take_waiting()
    }
}

/// The notice of a failure to send audio.
pub fn send_failure(e: &str) -> (r: String)
    ensures
        r@ == "audio send error: "@ + e@,
{
    concat2("audio send error: ", e)
}

/// Chunks in a row.
pub open spec fn flat(chunks: Seq<Seq<u8>>) -> Seq<u8>
    decreases chunks.len(),
{
    if chunks.len() == 0 {
        seq![]
    } else {
        flat(chunks.drop_last()) + chunks.last()
    }
}

/// The streamer after a number of chunks while recording.
pub open spec fn stream_run(chunks: Seq<Seq<u8>>) -> StreamView
    decreases chunks.len(),
{
    if chunks.len() == 0 {
        stream_start()
    } else {
        after_chunk(stream_run(chunks.drop_last()), Status::Recording, chunks.last())
    }
}

/// All that was sent while a number of chunks was recorded.
pub open spec fn sent_run(chunks: Seq<Seq<u8>>) -> Seq<u8>
    decreases chunks.len(),
{
    if chunks.len() == 0 {
        seq![]
    } else {
        sent_run(chunks.drop_last()) + sent(
            stream_run(chunks.drop_last()),
            Status::Recording,
            chunks.last(),
        )
    }
}

/// The provider gets all the recorded audio, in order and once: what was sent
/// and what waits make up the recording, and less than a sending's worth waits.
pub proof fn provider_gets_the_recording(chunks: Seq<Seq<u8>>)
    ensures
        sent_run(chunks) + stream_run(chunks).send_buf == flat(chunks),
        stream_run(chunks).send_buf.len() < TARGET_SEND_BYTES,
    decreases chunks.len(),
{
    if chunks.len() > 0 {
        let before = chunks.drop_last();
        provider_gets_the_recording(before);
        let s = stream_run(before);
        let c = chunks.last();
        assert(sent_run(chunks) + stream_run(chunks).send_buf =~= (sent_run(before) + s.send_buf)
            + c);
    } else {
        assert(sent_run(chunks) + stream_run(chunks).send_buf =~= flat(chunks));
    }
}

/// While paused, what is captured is neither sent nor kept waiting; once the
/// session has ended, what waits is sent and nothing after it.
pub proof fn only_recorded_audio_is_sent(s: StreamView, chunk: Seq<u8>)
    ensures
        sent(s, Status::Paused, chunk).len() == 0,
        after_chunk(s, Status::Paused, chunk).send_buf.len() == 0,
        sent(s, Status::Finished, chunk) == s.send_buf,
        sent(s, Status::Idle, chunk) == s.send_buf,
        after_chunk(s, Status::Finished, chunk).send_buf.len() == 0,
        after_chunk(s, Status::Idle, chunk).send_buf.len() == 0,
{
}

/// Recorded audio is sent as soon as 3200 bytes or more have gathered, all of it;
/// until then it waits.
pub proof fn audio_is_sent_in_tenths(s: StreamView, chunk: Seq<u8>)
    ensures
        s.send_buf.len() + chunk.len() >= 3200 ==> sent(s, Status::Recording, chunk) == s.send_buf
            + chunk && after_chunk(s, Status::Recording, chunk).send_buf.len() == 0,
        s.send_buf.len() + chunk.len() < 3200 ==> sent(s, Status::Recording, chunk).len() == 0
            && after_chunk(s, Status::Recording, chunk).send_buf == s.send_buf + chunk,
{
}

/// Whether a chunk is silent: each of its samples is zero.
pub open spec fn is_silent(chunk: Seq<u8>) -> bool {
    forall|i: int| 0 <= i < samples(chunk).len() ==> #[trigger] samples(chunk)[i] == 0
}

/// How many silent chunks a list of chunks ends with.
pub open spec fn silent_tail(chunks: Seq<Seq<u8>>) -> nat
    decreases chunks.len(),
{
    if chunks.len() == 0 || !is_silent(chunks.last()) {
        0
    } else {
        silent_tail(chunks.drop_last()) + 1
    }
}

/// The user is warned when fifty silent chunks have come in a row, and only the
/// first time that happens: the chunk that makes the row fifty long, after no
/// row was that long before, is the one that warns.
pub proof fn silence_is_told_once(chunks: Seq<Seq<u8>>, chunk: Seq<u8>)
    requires
        chunks.len() < u32::MAX,
    ensures
        warns(stream_run(chunks), chunk) <==> silent_tail(chunks.push(chunk)) == 50 && forall|n: int|
            0 <= n <= chunks.len() ==> silent_tail(#[trigger] chunks.take(n)) < 50,
        stream_run(chunks).silent_chunks == silent_tail(chunks),
        stream_run(chunks).silent_warned <==> exists|n: int|
            0 <= n <= chunks.len() && silent_tail(#[trigger] chunks.take(n)) >= 50,
{
    lemma_silence(chunks);
    silent_iff_all_zero(chunk);
    assert(chunks.push(chunk).drop_last() =~= chunks);
    let w = stream_run(chunks).silent_warned;
    if w {
        let n = choose|n: int| 0 <= n <= chunks.len() && silent_tail(#[trigger] chunks.take(n)) >= 50;
        assert(silent_tail(chunks.take(n)) >= 50);
    } else {
        assert forall|n: int| 0 <= n <= chunks.len() implies silent_tail(#[trigger] chunks.take(n))
            < 50 by {}
    }
}

proof fn lemma_silence(chunks: Seq<Seq<u8>>)
    requires
        chunks.len() < u32::MAX,
    ensures
        stream_run(chunks).silent_chunks == silent_tail(chunks),
        silent_tail(chunks) <= chunks.len(),
        stream_run(chunks).silent_warned <==> exists|n: int|
            0 <= n <= chunks.len() && silent_tail(#[trigger] chunks.take(n)) >= 50,
    decreases chunks.len(),
{
    if chunks.len() == 0 {
        assert forall|n: int| 0 <= n <= chunks.len() implies silent_tail(#[trigger] chunks.take(n))
            < 50 by {
            assert(chunks.take(n) =~= chunks);
        }
    } else {
        let front = chunks.drop_last();
        let c = chunks.last();
        lemma_silence(front);
        silent_iff_all_zero(c);
        let s = stream_run(front);
        assert(stream_run(chunks) == after_chunk(s, Status::Recording, c));
        assert(chunks.take(chunks.len() as int) =~= chunks);
        assert forall|n: int| 0 <= n <= front.len() implies #[trigger] front.take(n)
            == chunks.take(n) by {
            assert(front.take(n) =~= chunks.take(n));
        }
        if stream_run(chunks).silent_warned {
            if s.silent_warned {
                let n = choose|n: int|
                    0 <= n <= front.len() && silent_tail(#[trigger] front.take(n)) >= 50;
                assert(silent_tail(chunks.take(n)) >= 50);
            } else {
                assert(silent_tail(chunks.take(chunks.len() as int)) >= 50);
            }
        }
        if exists|n: int| 0 <= n <= chunks.len() && silent_tail(#[trigger] chunks.take(n)) >= 50 {
            let n = choose|n: int|
                0 <= n <= chunks.len() && silent_tail(#[trigger] chunks.take(n)) >= 50;
            if n <= front.len() {
                assert(silent_tail(front.take(n)) >= 50);
            } else if !s.silent_warned {
                assert(front.take(front.len() as int) =~= front);
                assert(silent_tail(front.take(front.len() as int)) < 50);
                assert(warns(s, c));
            }
        }
    }
}

} // verus!
