//! Transcribing audio that is already there: of a file, or of a crash spool.

use super::manager::{next_piece, piece_end, Manager, Recovery};
use super::storage::{countable_millis, SavedSession};
use super::stream::{flat, TARGET_SEND_BYTES};
use super::{duration_of, folder_of, metadata_of, new_session, Session, SessionView, Status};
use crate::audio::wav::{wav_file, wav_file_fits};
use crate::json::{printed, reads_as, JsonView};
use crate::paths::path_join;
use crate::stt::plain_text;
use crate::time::{valid_stamp, Stamp};
use vstd::prelude::*;

verus! {

broadcast use vstd::string::group_string_axioms;

/// A transcription of audio that is already there, and how much of the audio was
/// sent to the provider.
#[derive(Debug)]
pub struct FileRun {
    pub session: Session,
    pub pcm: Vec<u8>,
    pub sample_rate: u32,
    pub channels: u16,
    /// How much audio is sent at once, in bytes.
    pub chunk_bytes: usize,
    pub sent: usize,
}

/// Whether a transcription can go on.
pub open spec fn run_sound(run: FileRun) -> bool {
    run.sent <= run.pcm@.len() && run.chunk_bytes > 0
}

/// A session as it is saved: finished, with its end.
pub open spec fn finished(s: SessionView, end: Stamp) -> SessionView {
    SessionView { status: Status::Finished, end_time: Some(end), ..s }
}

impl Manager {
    /// Begins to transcribe a file, which holds mono audio. The provider is told
    /// the file's own sample rate.
    pub fn transcribe_file(&self, name: &str, pcm: Vec<u8>, file_rate: u32, now: Stamp) -> (r:
        FileRun)
        requires
            valid_stamp(now),
        ensures
            run_sound(r),
            r.session@ == (SessionView { status: Status::Recording, ..new_session(name@, now) }),
            r.pcm@ == pcm@,
            r.sample_rate == file_rate,
            r.channels == 1,
            r.chunk_bytes == TARGET_SEND_BYTES,
            r.sent == 0,
    {
        let mut session = Session::new(name, now);
        session.status = Status::Recording;
        FileRun {
            session,
            pcm,
            sample_rate: file_rate,
            channels: 1,
            chunk_bytes: TARGET_SEND_BYTES,
            sent: 0,
        }
    }

    /// Ends a transcription; tells what to write of it.
    pub fn finish_file(&self, run: &mut FileRun, end: Stamp, now: Stamp) -> (r: SavedSession)
        requires
            valid_stamp(old(run).session@.start_time),
            valid_stamp(end),
            valid_stamp(now),
            wav_file_fits(old(run).pcm@, old(run).sample_rate as int, old(run).channels as int),
        ensures
            final(run).session@ == finished(old(run).session@, end),
            *final(run) == (FileRun { session: final(run).session, ..*old(run) }),
            r.folder@ == path_join(self.storage.base_dir@, folder_of(old(run).session@)),
            r.wav@ == wav_file(
                old(run).pcm@,
                old(run).sample_rate as int,
                old(run).channels as int,
            ),
            r.transcript@ == plain_text(old(run).session@.transcript.segments),
            r.metadata@ == printed(
                JsonView::Object(metadata_of(finished(old(run).session@, end), now)),
            ),
            countable_millis(duration_of(finished(old(run).session@, end), now)) ==> reads_as(
                r.metadata@,
                JsonView::Object(metadata_of(finished(old(run).session@, end), now)),
            ),
    {
        run.session.status = Status::Finished;
        run.session.end_time = Some(end);
        self.storage.save(&run.session, &run.pcm, run.sample_rate, run.channels, now)
    }
}

impl Recovery {
    /// Begins to transcribe the audio of a crash spool.
    pub fn run(self, pcm: Vec<u8>) -> (r: FileRun)
        requires
            self.chunk_bytes > 0,
        ensures
            run_sound(r),
            r.session@ == self.session@,
            r.pcm@ == pcm@,
            r.sample_rate == self.sample_rate,
            r.channels == self.channels,
            r.chunk_bytes == self.chunk_bytes,
            r.sent == 0,
    {
        FileRun {
            session: self.session,
            pcm,
            sample_rate: self.sample_rate,
            channels: self.channels,
            chunk_bytes: self.chunk_bytes,
            sent: 0,
        }
    }
}

impl FileRun {
    /// The next piece of audio to send, if there is one.
    pub fn next_chunk(&mut self) -> (r: Option<Vec<u8>>)
        requires
            run_sound(*old(self)),
        ensures
            run_sound(*final(self)),
            *final(self) == (FileRun { sent: final(self).sent, ..*old(self) }),
            final(self).sent == piece_end(
                old(self).pcm@.len() as int,
                old(self).sent as int,
                old(self).chunk_bytes as int,
            ),
            r is Some <==> old(self).sent < old(self).pcm@.len(),
            r matches Some(v) ==> v@ == old(self).pcm@.subrange(
                old(self).sent as int,
                final(self).sent as int,
            ),
    {
        let from = self.sent;
        let to = next_piece(self.pcm.len(), from, self.chunk_bytes);
        self.sent = to;
        if from < self.pcm.len() {
            Some(
                vstd::slice::slice_to_vec(
                    vstd::slice::slice_subrange(self.pcm.as_slice(), from, to),
                ),
            )
        } else {
            None
        }
    }
}

/// The pieces that are sent from a position on.
pub open spec fn pieces_from(pcm: Seq<u8>, at: int, size: int) -> Seq<Seq<u8>>
    decreases pcm.len() - at,
{
    if at < 0 || at >= pcm.len() || size <= 0 {
        seq![]
    } else {
        let end = piece_end(pcm.len() as int, at, size);
        seq![pcm.subrange(at, end)] + pieces_from(pcm, end, size)
    }
}

proof fn lemma_flat_front(first: Seq<u8>, rest: Seq<Seq<u8>>)
    ensures
        flat(seq![first] + rest) == first + flat(rest),
    decreases rest.len(),
{
    let all = seq![first] + rest;
    if rest.len() == 0 {
        assert(all.drop_last() =~= Seq::<Seq<u8>>::empty());
        assert(flat(Seq::<Seq<u8>>::empty()) =~= Seq::<u8>::empty());
        assert(all.last() == first);
        assert(flat(all) =~= first + flat(rest));
    } else {
        assert(all.drop_last() =~= seq![first] + rest.drop_last());
        lemma_flat_front(first, rest.drop_last());
        assert(flat(all) =~= first + flat(rest));
    }
}

/// All of the audio is sent, in order and once, in pieces of at most the given
/// size.
pub proof fn the_whole_file_is_sent(pcm: Seq<u8>, at: int, size: int)
    requires
        0 <= at <= pcm.len(),
        size > 0,
    ensures
        flat(pieces_from(pcm, at, size)) == pcm.skip(at),
        forall|i: int|
            0 <= i < pieces_from(pcm, at, size).len() ==> 0 < (#[trigger] pieces_from(
                pcm,
                at,
                size,
            )[i]).len() <= size,
    decreases pcm.len() - at,
{
    let all = pieces_from(pcm, at, size);
    if at < pcm.len() {
        let end = piece_end(pcm.len() as int, at, size);
        the_whole_file_is_sent(pcm, end, size);
        let rest = pieces_from(pcm, end, size);
        lemma_flat_front(pcm.subrange(at, end), rest);
        assert(pcm.subrange(at, end) + pcm.skip(end) =~= pcm.skip(at));
        assert forall|i: int| 0 <= i < all.len() implies 0 < (#[trigger] all[i]).len() <= size by {
            if i > 0 {
                assert(all[i] == rest[i - 1]);
            }
        }
    } else {
        assert(pcm.skip(at) =~= Seq::<u8>::empty());
    }
}

/// Every piece but the last has the full size.
pub proof fn pieces_are_full(pcm: Seq<u8>, at: int, size: int, i: int)
    requires
        0 <= at <= pcm.len(),
        size > 0,
        0 <= i < pieces_from(pcm, at, size).len() - 1,
    ensures
        pieces_from(pcm, at, size)[i].len() == size,
    decreases pcm.len() - at,
{
    let end = piece_end(pcm.len() as int, at, size);
    let rest = pieces_from(pcm, end, size);
    assert(pieces_from(pcm, at, size) == seq![pcm.subrange(at, end)] + rest);
    assert(rest.len() > 0);
    assert(end < pcm.len());
    if i > 0 {
        pieces_are_full(pcm, end, size, i - 1);
        assert(pieces_from(pcm, at, size)[i] == rest[i - 1]);
    }
}

/// A session that is finished keeps what it was and what was said in it, and lasts
/// from its start to its end.
pub proof fn finished_sessions_keep_what_was_said(s: SessionView, end: Stamp, now: Stamp)
    ensures
        finished(s, end).status == Status::Finished,
        finished(s, end).end_time == Some(end),
        finished(s, end).start_time == s.start_time,
        finished(s, end).transcript == s.transcript,
        folder_of(finished(s, end)) == folder_of(s),
        duration_of(finished(s, end), now) == duration_of(finished(s, end), end),
{
}

} // verus!
