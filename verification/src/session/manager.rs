//! The life of a session: starting, pausing, finishing, recovering.

use super::storage::{countable_millis, SavedSession, Storage};
use super::stream::{
    after_chunk, sent, stream_start, warns, StreamStep, Streamer, TARGET_SEND_BYTES,
};
use super::{
    duration_of, folder_of, metadata_of, millis_clock, new_session, valid_times, Session,
    SessionView, Status,
};
use crate::audio::mixer::MixMode;
use crate::audio::pcm::level_of;
use crate::audio::wav::{wav_file, wav_file_fits};
use crate::json::{
    field_of, flat_member, get_text, get_text_or_empty, get_unsigned, is_flat, json_number,
    json_object, json_read, json_text, lemma_member_index_is, member_views, plain_number,
    print_json_line, printed, printed_line, push_member, reads_as, same_member, text_field,
    text_or_empty, try_read_json, unsigned_field, Json, JsonView,
};
use crate::paths::{join_path, path_join};
use crate::stt::{
    plain_text, segment_views, speakers_in, with_segment, words_in, Segment, TranscriptView,
};
use crate::text::{
    concat2, concat3, countable, decimal, decimal_round_trip, decimal_string, opt_text, owned, same,
    texts,
};
use crate::time::{
    add_millis, later, parse_rfc3339, rfc3339_read, rfc3339_text, to_rfc3339, valid_stamp,
    writable_stamp, Stamp,
};
use vstd::prelude::*;

verus! {

broadcast use vstd::string::group_string_axioms;

/// What the manager is configured with.
#[derive(Debug)]
pub struct ManagerConfig {
    pub stt_provider: String,
    pub stt_api_key: String,
    pub stt_model: String,
    pub sample_rate: u32,
    pub device_index: i32,
    pub sessions_dir: String,
    /// Glossary terms biasing transcription.
    pub keyterms: Vec<String>,
}

/// A session that is being recorded, or closed after recording.
#[derive(Debug)]
pub struct Active {
    pub session: Session,
    pub spool_dir: String,
    pub channels: u16,
    pub sample_rate: u32,
    pub audio_buf: Vec<u8>,
    pub streamer: Streamer,
}

/// What sessions start with and where they are stored.
#[derive(Debug)]
pub struct Manager {
    pub cfg: ManagerConfig,
    pub device_index: i32,
    /// Key terms, swappable when the glossary is edited. Read at session start,
    /// so edits take effect on the next recording.
    pub keyterms: Vec<String>,
    pub storage: Storage,
}

/// A session that is being started: what is to be opened for it.
#[derive(Debug)]
pub struct Starting {
    pub session: Session,
    pub device: i32,
    pub sample_rate: u32,
    pub api_key: String,
    pub keyterms: Vec<String>,
    /// Whether the system's audio is to be recorded too.
    pub wants_tap: bool,
    pub channels: u16,
    /// How the system's audio is joined with the microphone's, once it is open.
    pub mix: Option<MixMode>,
}

/// What the interface shows of the live session.
#[derive(Debug)]
pub struct SessionSnapshot {
    pub duration: String,
    pub word_count: usize,
    pub speaker_count: usize,
    pub plain_text: String,
}

/// Result of a successful save: where it went, the final transcript, and any
/// transcription failure that left it incomplete.
#[derive(Debug)]
pub struct SaveOutcome {
    pub folder: String,
    pub transcript: String,
    pub word_count: usize,
    pub stt_error: Option<String>,
}

/// A session that is no longer active, and what is to be written of it.
#[derive(Debug)]
pub struct Ended {
    pub active: Active,
    pub saved: Option<(SavedSession, SaveOutcome)>,
}

/// Whether a session can be saved: its times are valid and its audio fits in a
/// file.
pub open spec fn savable(a: Active) -> bool {
    valid_times(a.session@) && wav_file_fits(a.audio_buf@, a.sample_rate as int, a.channels as int)
}

/// Whether a session holds audio or a transcript.
pub open spec fn holds_anything(a: Active) -> bool {
    a.audio_buf@.len() > 0 || a.session@.transcript.segments.len() > 0
}

/// Whether this is what to write below a directory of a session that has ended
/// and whose provider was closed with the given result: nothing where it holds
/// neither audio nor transcript; else all its audio, the transcript, and the
/// failure of transcription.
pub open spec fn saved_below(
    base_dir: Seq<char>,
    ended: Active,
    closed: Result<(), String>,
    now: Stamp,
    r: Option<(SavedSession, SaveOutcome)>,
) -> bool {
    &&& r is Some <==> holds_anything(ended)
    &&& r matches Some((saved, outcome)) ==> {
        let segs = ended.session@.transcript.segments;
        &&& saved.folder@ == path_join(base_dir, folder_of(ended.session@))
        &&& saved.wav@ == wav_file(
            ended.audio_buf@,
            ended.sample_rate as int,
            ended.channels as int,
        )
        &&& saved.transcript@ == plain_text(segs)
        &&& saved.metadata@ == printed(JsonView::Object(metadata_of(ended.session@, now)))
        &&& countable_millis(duration_of(ended.session@, now)) ==> reads_as(
            saved.metadata@,
            JsonView::Object(metadata_of(ended.session@, now)),
        )
        &&& outcome.folder@ == saved.folder@
        &&& outcome.transcript@ == plain_text(segs)
        &&& outcome.word_count == countable(words_in(segs))
        &&& outcome.stt_error == (match closed {
            Ok(_) => None,
            Err(e) => Some(e),
        })
    }
}

/// Whether finishing leads from the session that was active, if one was, to the
/// one that is active afterwards and to this result.
pub open spec fn finishes(
    base_dir: Seq<char>,
    before: Option<Active>,
    after: Option<Active>,
    closed: Result<(), String>,
    now: Stamp,
    r: Option<Ended>,
) -> bool {
    &&& after is None
    &&& match before {
        Some(a) => r matches Some(e) && e.active == a && saved_below(
            base_dir,
            a,
            closed,
            now,
            e.saved,
        ),
        None => r is None,
    }
}

/// Whether the setting for the system's audio leaves it on.
pub open spec fn tap_wanted(setting: Option<Seq<char>>) -> bool {
    setting != Some("0"@)
}

/// How the system's audio is joined: apart where the provider tells speakers
/// apart by channel, else mixed.
pub open spec fn mix_for(provider: Seq<char>) -> MixMode {
    if provider == "elevenlabs"@ {
        MixMode::Stereo
    } else {
        MixMode::Mono
    }
}

/// The notice that the system's audio is not recorded.
pub open spec fn tap_notice(e: Seq<char>) -> Seq<char> {
    "System audio off (mic only): "@ + e
}

/// The directory of a session's crash spool.
pub open spec fn spool_path(sessions_dir: Seq<char>, id: Seq<char>) -> Seq<char> {
    path_join(path_join(sessions_dir, ".recovery"@), id)
}

/// What a crash spool tells of its session.
pub open spec fn spool_meta(
    name: Seq<char>,
    start: Stamp,
    sample_rate: nat,
    channels: nat,
) -> JsonView {
    JsonView::Object(
        seq![
            ("name"@, JsonView::Text(name)),
            ("start_time"@, JsonView::Text(rfc3339_text(start))),
            ("sample_rate"@, JsonView::Number(decimal(sample_rate))),
            ("channels"@, JsonView::Number(decimal(channels))),
        ],
    )
}

/// The error of a failure to connect.
pub open spec fn connect_error(provider: Seq<char>, e: Seq<char>) -> Seq<char> {
    "connect to STT ("@ + provider + "): "@ + e
}

/// The error of a failure to connect.
pub fn connect_failure(provider: &str, e: &str) -> (r: String)
    ensures
        r@ == connect_error(provider@, e@),
{
    let mut out = concat3("connect to STT (", provider, "): ");
    out.append(e);
    out
}

impl Starting {
    /// The system's audio is open: it is joined with the microphone's.
    pub fn tap_opened(&mut self)
        requires
            old(self).wants_tap,
        ensures
            final(self).session@ == old(self).session@,
            final(self).device == old(self).device,
            final(self).sample_rate == old(self).sample_rate,
            final(self).api_key@ == old(self).api_key@,
            texts(final(self).keyterms@) == texts(old(self).keyterms@),
            final(self).wants_tap,
            final(self).mix == Some(mix_for(old(self).session@.stt_provider)),
            final(self).channels == (if mix_for(old(self).session@.stt_provider) is Stereo {
                2u16
            } else {
                1u16
            }),
    {
        if same(self.session.stt_provider.as_str(), "elevenlabs") {
            self.channels = 2;
            self.mix = Some(MixMode::Stereo);
        } else {
            self.channels = 1;
            self.mix = Some(MixMode::Mono);
        }
    }

    /// The system's audio could not be opened: the microphone's is recorded
    /// alone, and the user is told.
    pub fn tap_failed(&self, e: &str) -> (r: String)
        ensures
            r@ == tap_notice(e@),
    {
        concat2("System audio off (mic only): ", e)
    }
}

impl Manager {
    /// A manager without a session.
    pub fn new(cfg: ManagerConfig) -> (r: Manager)
        ensures
            r.cfg == cfg,
            r.device_index == cfg.device_index,
            texts(r.keyterms@) == texts(cfg.keyterms@),
            r.storage.base_dir@ == cfg.sessions_dir@,
    {
        let keyterms = copy_texts(&cfg.keyterms);
        let storage = Storage::new(cfg.sessions_dir.clone());
        let device_index = cfg.device_index;
        Manager { cfg, device_index, keyterms, storage }
    }

    /// Sets the microphone of the next session.
    pub fn set_device_index(&mut self, idx: i32)
        ensures
            *final(self) == (Manager { device_index: idx, ..*old(self) }),
    {
        self.device_index = idx;
    }

    /// Sets the key terms of the next session.
    pub fn set_keyterms(&mut self, terms: Vec<String>)
        ensures
            *final(self) == (Manager { keyterms: terms, ..*old(self) }),
    {
        self.keyterms = terms;
    }

    /// Starts a session, unless one is being recorded; `current` is what the
    /// session before is doing, if there is one. What the result tells to open
    /// is then opened: the system's audio, if wanted, the provider, the
    /// microphone; once all are, [`Manager::recording`] follows.
    pub fn start_session_with_stt(
        &self,
        current: Option<Status>,
        name: &str,
        provider: &str,
        api_key: &str,
        model: &str,
        system_audio: &Option<String>,
        now: Stamp,
    ) -> (r: Result<Starting, String>)
        requires
            valid_stamp(now),
        ensures
            r is Err <==> current == Some(Status::Recording),
            r matches Err(e) ==> e@ == "already recording"@,
            r matches Ok(s) ==> {
                &&& s.session@ == (SessionView {
                    status: Status::Recording,
                    stt_provider: provider@,
                    stt_model: model@,
                    ..new_session(name@, now)
                })
                &&& s.device == self.device_index
                &&& s.sample_rate == self.cfg.sample_rate
                &&& s.api_key@ == api_key@
                &&& texts(s.keyterms@) == texts(self.keyterms@)
                &&& s.wants_tap == tap_wanted(opt_text(*system_audio))
                &&& s.channels == 1
                &&& s.mix is None
            },
    {
        if let Some(status) = current {
            if status == Status::Recording {
                return Err(owned("already recording"));
            }
        }
        let mut session = Session::new(name, now);
        session.stt_provider = owned(provider);
        session.stt_model = owned(model);
        session.status = Status::Recording;
        let wants_tap = match system_audio {
            Some(v) => !same(v.as_str(), "0"),
            None => true,
        };
        Ok(
            Starting {
                session,
                device: self.device_index,
                sample_rate: self.cfg.sample_rate,
                api_key: owned(api_key),
                keyterms: copy_texts(&self.keyterms),
                wants_tap,
                channels: 1,
                mix: None,
            },
        )
    }

    /// Everything is open: the session is being recorded. Tells what the crash
    /// spool says of it.
    pub fn recording(&self, starting: Starting) -> (r: (Active, String))
        requires
            valid_stamp(starting.session@.start_time),
        ensures
            r.0.session@ == starting.session@,
            r.0.spool_dir@ == spool_path(self.cfg.sessions_dir@, starting.session@.id),
            r.0.channels == starting.channels,
            r.0.sample_rate == self.cfg.sample_rate,
            r.0.audio_buf@.len() == 0,
            r.0.streamer@ == stream_start(),
            ({
                let meta = spool_meta(
                    starting.session@.name,
                    starting.session@.start_time,
                    self.cfg.sample_rate as nat,
                    starting.channels as nat,
                );
                r.1@ == printed_line(meta) && reads_as(r.1@, meta)
            }),
            writable_stamp(starting.session@.start_time) ==> rfc3339_read(
                rfc3339_text(starting.session@.start_time),
            ) == Some(starting.session@.start_time),
    {
        let root = join_path(self.cfg.sessions_dir.as_str(), ".recovery");
        let dir = join_path(root.as_str(), starting.session.id.as_str());
        let mut m: Vec<(String, Json)> = Vec::new();
        assert(member_views(m@) =~= Seq::<(Seq<char>, JsonView)>::empty());
        push_member(&mut m, "name", json_text(starting.session.name.clone()));
        push_member(&mut m, "start_time", json_text(to_rfc3339(starting.session.start_time)));
        push_member(
            &mut m,
            "sample_rate",
            json_number(decimal_string(self.cfg.sample_rate as u64)),
        );
        push_member(&mut m, "channels", json_number(decimal_string(starting.channels as u64)));
        assert(member_views(m@) =~= spool_meta(
            starting.session@.name,
            starting.session@.start_time,
            self.cfg.sample_rate as nat,
            starting.channels as nat,
        )->Object_0);
        let active = Active {
            session: starting.session,
            spool_dir: dir,
            channels: starting.channels,
            sample_rate: self.cfg.sample_rate,
            audio_buf: Vec::new(),
            streamer: Streamer::new(),
        };
        proof {
            lemma_spool_is_flat(
                active.session@.name,
                active.session@.start_time,
                active.sample_rate as nat,
                active.channels as nat,
            );
        }
        (active, print_json_line(&json_object(m)))
    }

    fn save_ended(&self, ended: &Active, closed: Result<(), String>, now: Stamp) -> (r: Option<
        (SavedSession, SaveOutcome),
    >)
        requires
            savable(*ended),
            valid_stamp(now),
        ensures
            saved_below(self.storage.base_dir@, *ended, closed, now, r),
    {
        if ended.audio_buf.len() == 0 && ended.session.transcript.segments.len() == 0 {
            return None;
        }
        let saved = self.storage.save(
            &ended.session,
            &ended.audio_buf,
            ended.sample_rate,
            ended.channels,
            now,
        );
        let outcome = SaveOutcome {
            folder: saved.folder.clone(),
            transcript: ended.session.transcript.to_plain_text(),
            word_count: ended.session.transcript.word_count(),
            stt_error: match closed {
                Ok(_) => None,
                Err(e) => Some(e),
            },
        };
        Some((saved, outcome))
    }

    /// Takes leave of the active session, whose provider was closed with the
    /// given result, and tells what to write of it; nothing where no session is
    /// active. Audio is saved even where transcription failed, and the failure
    /// is reported.
    pub fn finish(
        &self,
        active: &mut Option<Active>,
        closed: Result<(), String>,
        now: Stamp,
    ) -> (r: Option<Ended>)
        requires
            *old(active) is Some ==> savable((*old(active))->0),
            valid_stamp(now),
        ensures
            finishes(self.storage.base_dir@, *old(active), *final(active), closed, now, r),
    {
        match active.take() {
            Some(ended) => {
                let saved = self.save_ended(&ended, closed, now);
                Some(Ended { active: ended, saved })
            },
            None => None,
        }
    }

    /// Tears the active session down without saving it; the result is where its
    /// crash spool stands, which is to be removed.
    pub fn cancel(&self, active: &mut Option<Active>) -> (r: Option<String>)
        ensures
            *final(active) is None,
            r == (match *old(active) {
                Some(a) => Some(a.spool_dir),
                None => None,
            }),
    {
        match active.take() {
            Some(a) => Some(a.spool_dir),
            None => None,
        }
    }
}

/// A session is saved once. Where one with audio is active and its provider does
/// not close well, finishing saves all its audio and its transcript and reports
/// the failure; no session is active any more, and finishing again saves
/// nothing.
pub proof fn sessions_are_saved_once(
    base_dir: Seq<char>,
    first: Active,
    between: Option<Active>,
    last: Option<Active>,
    e: String,
    closed: Result<(), String>,
    now: Stamp,
    later: Stamp,
    r: Option<Ended>,
    again: Option<Ended>,
)
    requires
        first.audio_buf@.len() > 0,
        finishes(base_dir, Some(first), between, Err(e), now, r),
        finishes(base_dir, between, last, closed, later, again),
    ensures
        between is None,
        last is None,
        again is None,
        r matches Some(ended) && ended.saved matches Some((saved, outcome)) && {
            let segs = first.session@.transcript.segments;
            &&& outcome.stt_error == Some(e)
            &&& saved.wav@ == wav_file(
                first.audio_buf@,
                first.sample_rate as int,
                first.channels as int,
            )
            &&& saved.folder@ == outcome.folder@
            &&& outcome.transcript@ == plain_text(segs)
            &&& outcome.word_count == countable(words_in(segs))
        },
{
}

impl Active {
    /// Takes in captured audio: while recording it becomes part of the
    /// recording.
    pub fn on_audio(&mut self, chunk: &[u8]) -> (r: StreamStep)
        ensures
            final(self).session == old(self).session,
            final(self).spool_dir == old(self).spool_dir,
            final(self).channels == old(self).channels,
            final(self).sample_rate == old(self).sample_rate,
            final(self).audio_buf@ == (if old(self).session@.status is Recording {
                old(self).audio_buf@ + chunk@
            } else {
                old(self).audio_buf@
            }),
            final(self).streamer@ == after_chunk(
                old(self).streamer@,
                old(self).session@.status,
                chunk@,
            ),
            r.record == (old(self).session@.status is Recording),
            r.send is Some <==> sent(old(self).streamer@, old(self).session@.status, chunk@).len()
                > 0,
            r.send matches Some(v) ==> v@ == sent(
                old(self).streamer@,
                old(self).session@.status,
                chunk@,
            ),
            r.level == (match old(self).session@.status {
                Status::Paused => Some(0u32),
                Status::Recording => Some(level_of(chunk@) as u32),
                _ => None,
            }),
            r.notice is Some <==> old(self).session@.status is Recording && warns(
                old(self).streamer@,
                chunk@,
            ),
            r.notice is Some ==> opt_text(r.notice) == Some(
                "No audio detected \u{2014} check your microphone"@,
            ),
            r.stop == (old(self).session@.status is Idle || old(self).session@.status is Finished),
    {
        let step = self.streamer.on_chunk(self.session.status, chunk);
        if step.record {
            self.audio_buf.extend_from_slice(chunk);
            assert(self.audio_buf@ =~= old(self).audio_buf@ + chunk@);
        }
        step
    }

    /// Pauses a recording; tells whether it did.
    pub fn pause(&mut self) -> (r: bool)
        ensures
            r == (old(self).session@.status is Recording),
            final(self).session@ == (if r {
                SessionView { status: Status::Paused, ..old(self).session@ }
            } else {
                old(self).session@
            }),
            final(self).spool_dir == old(self).spool_dir,
            final(self).channels == old(self).channels,
            final(self).sample_rate == old(self).sample_rate,
            final(self).audio_buf == old(self).audio_buf,
            final(self).streamer == old(self).streamer,
    {
        if self.session.status == Status::Recording {
            self.session.status = Status::Paused;
            true
        } else {
            false
        }
    }

    /// Resumes a paused recording; tells whether it did.
    pub fn resume(&mut self) -> (r: bool)
        ensures
            r == (old(self).session@.status is Paused),
            final(self).session@ == (if r {
                SessionView { status: Status::Recording, ..old(self).session@ }
            } else {
                old(self).session@
            }),
            final(self).spool_dir == old(self).spool_dir,
            final(self).channels == old(self).channels,
            final(self).sample_rate == old(self).sample_rate,
            final(self).audio_buf == old(self).audio_buf,
            final(self).streamer == old(self).streamer,
    {
        if self.session.status == Status::Paused {
            self.session.status = Status::Recording;
            true
        } else {
            false
        }
    }

    /// Ends the recording. Segments may still arrive while the provider closes.
    pub fn end(&mut self, now: Stamp)
        ensures
            final(self).session@ == (SessionView {
                status: Status::Finished,
                end_time: Some(now),
                ..old(self).session@
            }),
            final(self).spool_dir == old(self).spool_dir,
            final(self).channels == old(self).channels,
            final(self).sample_rate == old(self).sample_rate,
            final(self).audio_buf == old(self).audio_buf,
            final(self).streamer == old(self).streamer,
    {
        self.session.status = Status::Finished;
        self.session.end_time = Some(now);
    }

    /// Takes in a segment, whether or not the recording has ended.
    pub fn add_segment(&mut self, seg: Segment)
        ensures
            final(self).session@ == (SessionView {
                transcript: with_segment(old(self).session@.transcript, seg@),
                ..old(self).session@
            }),
            final(self).spool_dir == old(self).spool_dir,
            final(self).channels == old(self).channels,
            final(self).sample_rate == old(self).sample_rate,
            final(self).audio_buf == old(self).audio_buf,
            final(self).streamer == old(self).streamer,
    {
        self.session.transcript.add_segment(seg);
    }

    /// Takes in an authoritative re-transcription.
    pub fn replace_segments(&mut self, segments: Vec<Segment>)
        ensures
            final(self).session@ == (SessionView {
                transcript: TranscriptView {
                    segments: segment_views(segments@),
                    partial: None,
                },
                ..old(self).session@
            }),
            final(self).spool_dir == old(self).spool_dir,
            final(self).channels == old(self).channels,
            final(self).sample_rate == old(self).sample_rate,
            final(self).audio_buf == old(self).audio_buf,
            final(self).streamer == old(self).streamer,
    {
        self.session.transcript.replace_segments(segments);
    }

    /// What the interface shows of the session.
    pub fn snapshot(&self, now: Stamp) -> (r: SessionSnapshot)
        requires
            valid_times(self.session@),
            valid_stamp(now),
        ensures
            r.duration@ == millis_clock(duration_of(self.session@, now)),
            r.word_count == countable(words_in(self.session@.transcript.segments)),
            r.speaker_count == speakers_in(self.session@.transcript.segments).len(),
            r.plain_text@ == plain_text(self.session@.transcript.segments),
    {
        SessionSnapshot {
            duration: self.session.duration_formatted(now),
            word_count: self.session.transcript.word_count(),
            speaker_count: self.session.transcript.speakers().len(),
            plain_text: self.session.transcript.to_plain_text(),
        }
    }
}

// ---------------------------------------------------------------------------
// Recovery and files
// ---------------------------------------------------------------------------

/// Why a crash spool cannot be recovered.
#[derive(Debug)]
pub enum RecoverError {
    /// What the spool says of its session cannot be read.
    BadMeta(String),
    /// Less than a second of audio was spooled.
    TooShort,
    /// The spool says that its audio has no samples or no channels.
    NoFormat,
}

/// The format that a spool says its audio has: sample rate and channels.
pub open spec fn spool_format(meta: JsonView, default_rate: nat) -> (nat, nat) {
    (
        match unsigned_field(meta, "sample_rate"@) {
            Some(n) => n % 0x1_0000_0000,
            None => default_rate,
        },
        match unsigned_field(meta, "channels"@) {
            Some(n) => n % 0x1_0000,
            None => 1,
        },
    )
}

/// The name of a recovered session.
pub open spec fn recovered_name(meta: JsonView) -> Seq<char> {
    let name = text_or_empty(meta, "name"@);
    if name.len() == 0 {
        "recovered"@
    } else {
        name + "-recovered"@
    }
}

/// When a spool says that its session started.
pub open spec fn spool_start(meta: JsonView, now: Stamp) -> Stamp {
    match text_field(meta, "start_time"@) {
        Some(t) => match rfc3339_read(t) {
            Some(s) => s,
            None => now,
        },
        None => now,
    }
}

/// A crash spool, ready to be transcribed.
#[derive(Debug)]
pub struct Recovery {
    pub session: Session,
    /// When the session ended, told by the length of its audio.
    pub end_time: Stamp,
    pub sample_rate: u32,
    pub channels: u16,
    /// How much audio is sent to the provider at once, in bytes.
    pub chunk_bytes: usize,
}

/// Milliseconds of audio.
pub open spec fn millis_of(bytes: int, byte_rate: int) -> int {
    if byte_rate == 0 {
        0
    } else {
        bytes * 1000 / byte_rate
    }
}

/// The name of an error.
pub open spec fn recover_error_text(e: RecoverError) -> Seq<char> {
    match e {
        RecoverError::BadMeta(t) => t@,
        RecoverError::TooShort => "less than a second of audio spooled"@,
        RecoverError::NoFormat => "spooled audio has no format"@,
    }
}

impl RecoverError {
    /// The notice for this error.
    pub fn message(&self) -> (r: String)
        ensures
            r@ == recover_error_text(*self),
    {
        match self {
            RecoverError::BadMeta(t) => t.clone(),
            RecoverError::TooShort => owned("less than a second of audio spooled"),
            RecoverError::NoFormat => owned("spooled audio has no format"),
        }
    }
}

/// Whether audio of some length can have a format.
pub open spec fn format_fits(format: (nat, nat), len: int) -> bool {
    format.1 > 0 && (format.0 > 0 || len == 0)
}

/// What comes of a spool that says `meta` and holds `len` bytes of audio: an
/// error where that is less than a second's worth, else a session with the
/// spool's name, start and length.
pub open spec fn recovers(
    cfg: ManagerConfig,
    meta: JsonView,
    len: int,
    now: Stamp,
    r: Result<Recovery, RecoverError>,
) -> bool {
    let (rate, channels) = spool_format(meta, cfg.sample_rate as nat);
    let byte_rate = rate * 2 * channels;
    let start = spool_start(meta, now);
    if len < byte_rate {
        r is Err && r->Err_0 is TooShort
    } else {
        &&& r is Ok
        &&& r->Ok_0.session@ == (SessionView {
            status: Status::Recording,
            start_time: start,
            stt_provider: cfg.stt_provider@,
            stt_model: cfg.stt_model@,
            ..new_session(recovered_name(meta), now)
        })
        &&& valid_stamp(start)
        &&& r->Ok_0.end_time == later(start, millis_of(len, byte_rate as int))
        &&& r->Ok_0.sample_rate == rate
        &&& r->Ok_0.channels == channels
        &&& r->Ok_0.chunk_bytes == TARGET_SEND_BYTES * channels
    }
}

impl Manager {
    fn read_format(&self, meta: &Json) -> (r: (u32, u16))
        ensures
            (r.0 as nat, r.1 as nat) == spool_format(meta@, self.cfg.sample_rate as nat),
    {
        let channels: u16 = match get_unsigned(meta, "channels") {
            Some(n) => (n % 0x1_0000) as u16,
            None => 1,
        };
        let sample_rate: u32 = match get_unsigned(meta, "sample_rate") {
            Some(n) => (n % 0x1_0000_0000) as u32,
            None => self.cfg.sample_rate,
        };
        (sample_rate, channels)
    }

    /// Prepares the recovery of a crash spool that says `meta` and holds
    /// `audio_len` bytes of audio.
    pub fn recover_value(&self, meta: &Json, audio_len: usize, now: Stamp) -> (r: Result<
        Recovery,
        RecoverError,
    >)
        requires
            valid_stamp(now),
            format_fits(spool_format(meta@, self.cfg.sample_rate as nat), audio_len as int),
        ensures
            recovers(self.cfg, meta@, audio_len as int, now, r),
    {
        let (sample_rate, channels) = self.read_format(meta);
        assert(sample_rate * 2 * channels <= 4_294_967_295 * 2 * 65_535 && sample_rate * 2
            * channels >= 0) by (nonlinear_arith)
            requires
                sample_rate <= 4_294_967_295,
                channels <= 65_535,
        ;
        let byte_rate: u64 = sample_rate as u64 * 2 * channels as u64;
        if (audio_len as u64) < byte_rate {
            return Err(RecoverError::TooShort);
        }
        let stored = get_text_or_empty(meta, "name");
        let name = if stored.as_str().unicode_len() == 0 {
            owned("recovered")
        } else {
            concat2(stored.as_str(), "-recovered")
        };
        let mut session = Session::new(name.as_str(), now);
        session.stt_provider = self.cfg.stt_provider.clone();
        session.stt_model = self.cfg.stt_model.clone();
        session.status = Status::Recording;
        if let Some(t) = get_text(meta, "start_time") {
            if let Some(s) = parse_rfc3339(t.as_str()) {
                session.start_time = s;
            }
        }
        let total: u128 = audio_len as u128 * 1000;
        let millis: u128 = if byte_rate == 0 {
            0
        } else {
            total / byte_rate as u128
        };
        if byte_rate > 0 {
            assert(millis <= total) by (nonlinear_arith)
                requires
                    millis == total / (byte_rate as u128),
                    byte_rate > 0,
            ;
        }
        let end_time = add_millis(session.start_time, millis);
        Ok(
            Recovery {
                end_time,
                session,
                sample_rate,
                channels,
                chunk_bytes: TARGET_SEND_BYTES * channels as usize,
            },
        )
    }

    /// Prepares the recovery of a crash spool, by what it says and how much audio
    /// it holds; a spool that gives its audio no format is refused.
    pub fn recover_one(&self, meta: &str, audio_len: usize, now: Stamp) -> (r: Result<
        Recovery,
        RecoverError,
    >)
        requires
            valid_stamp(now),
        ensures
            match json_read(meta@) {
                Err(e) => r is Err && r->Err_0 is BadMeta && r->Err_0->BadMeta_0@ == e,
                Ok(j) => if format_fits(
                    spool_format(j, self.cfg.sample_rate as nat),
                    audio_len as int,
                ) {
                    recovers(self.cfg, j, audio_len as int, now, r)
                } else {
                    r is Err && r->Err_0 is NoFormat
                },
            },
    {
        match try_read_json(meta) {
            Ok(j) => {
                let (sample_rate, channels) = self.read_format(&j);
                if channels > 0 && (sample_rate > 0 || audio_len == 0) {
                    self.recover_value(&j, audio_len, now)
                } else {
                    Err(RecoverError::NoFormat)
                }
            },
            Err(e) => Err(RecoverError::BadMeta(e)),
        }
    }
}

/// Where the piece of audio that is sent at `at` ends.
pub open spec fn piece_end(len: int, at: int, size: int) -> int {
    if len - at > size {
        at + size
    } else {
        len
    }
}

/// Where the piece of audio that is sent at `at` ends: after `size` bytes, or
/// where the audio does.
pub fn next_piece(len: usize, at: usize, size: usize) -> (r: usize)
    requires
        at <= len,
    ensures
        r == piece_end(len as int, at as int, size as int),
        at < len && size > 0 ==> at < r,
{
    if len - at > size {
        at + size
    } else {
        len
    }
}

/// The percentage to report after sending, if it has reached another ten.
pub open spec fn progress_report(last: int, sent: int, total: int) -> Option<int> {
    let pct = sent * 100 / (if total == 0 {
        1
    } else {
        total
    });
    if pct / 10 != last / 10 {
        Some(pct)
    } else {
        None
    }
}

/// The percentage to report after sending, if it has reached another ten.
pub fn progress(last: u64, sent: usize, total: usize) -> (r: Option<u64>)
    requires
        sent <= total,
    ensures
        match progress_report(last as int, sent as int, total as int) {
            Some(p) => r == Some(p as u64) && p <= 100,
            None => r is None,
        },
{
    let whole: u128 = if total == 0 {
        1
    } else {
        total as u128
    };
    let scaled: u128 = sent as u128 * 100;
    let pct: u128 = scaled / whole;
    assert(pct <= 100) by (nonlinear_arith)
        requires
            pct == scaled / whole,
            scaled <= whole * 100,
            whole > 0,
    ;
    if pct as u64 / 10 != last / 10 {
        Some(pct as u64)
    } else {
        None
    }
}

proof fn lemma_spool_is_flat(name: Seq<char>, start: Stamp, sample_rate: nat, channels: nat)
    requires
        sample_rate <= u32::MAX,
        channels <= u16::MAX,
    ensures
        is_flat(spool_meta(name, start, sample_rate, channels)),
{
    let m = spool_meta(name, start, sample_rate, channels)->Object_0;
    reveal_strlit("name");
    reveal_strlit("start_time");
    reveal_strlit("sample_rate");
    reveal_strlit("channels");
    assert("name"@[0] == 'n' && "start_time"@[1] == 't' && "sample_rate"@[1] == 'a'
        && "channels"@[0] == 'c');
    assert("start_time"@[0] == 's' && "sample_rate"@[0] == 's');
    assert(plain_number(decimal(sample_rate)));
    assert(plain_number(decimal(channels)));
    assert forall|i: int| 0 <= i < m.len() implies flat_member((#[trigger] m[i]).1) by {}
    assert forall|i: int, k: int| 0 <= i < k < m.len() implies (#[trigger] m[i]).0 != (
    #[trigger] m[k]).0 by {}
}

/// A crash spool says enough to recover its session, by whatever text it is read
/// from: its name, its format, and its start as far as the text holds it.
pub proof fn spools_recover_sessions(
    name: Seq<char>,
    start: Stamp,
    sample_rate: nat,
    channels: nat,
    default_rate: nat,
    now: Stamp,
    text: Seq<char>,
)
    requires
        sample_rate <= u32::MAX,
        channels <= u16::MAX,
        reads_as(text, spool_meta(name, start, sample_rate, channels)),
    ensures
        json_read(text) is Ok,
        ({
            let meta = json_read(text)->Ok_0;
            &&& spool_format(meta, default_rate) == (sample_rate, channels)
            &&& recovered_name(meta) == (if name.len() == 0 {
                "recovered"@
            } else {
                name + "-recovered"@
            })
            &&& rfc3339_read(rfc3339_text(start)) == Some(start) ==> spool_start(meta, now) == start
        }),
{
    let w = json_read(text)->Ok_0;
    let s = spool_meta(name, start, sample_rate, channels);
    let m = s->Object_0;
    assert(same_member(field_of(w, "name"@), field_of(s, "name"@)));
    assert(same_member(field_of(w, "start_time"@), field_of(s, "start_time"@)));
    assert(same_member(field_of(w, "sample_rate"@), field_of(s, "sample_rate"@)));
    assert(same_member(field_of(w, "channels"@), field_of(s, "channels"@)));
    reveal_strlit("name");
    reveal_strlit("start_time");
    reveal_strlit("sample_rate");
    reveal_strlit("channels");
    assert("name"@[0] == 'n' && "start_time"@[1] == 't' && "sample_rate"@[1] == 'a'
        && "channels"@[0] == 'c');
    assert("start_time"@[0] == 's' && "sample_rate"@[0] == 's');
    lemma_member_index_is(m, "name"@, 0);
    lemma_member_index_is(m, "start_time"@, 1);
    lemma_member_index_is(m, "sample_rate"@, 2);
    lemma_member_index_is(m, "channels"@, 3);
    decimal_round_trip(sample_rate);
    decimal_round_trip(channels);
}

fn copy_texts(list: &Vec<String>) -> (r: Vec<String>)
    ensures
        texts(r@) == texts(list@),
{
    let mut out: Vec<String> = Vec::new();
    let mut i: usize = 0;
    while i < list.len()
        invariant
            i <= list@.len(),
            texts(out@) =~= texts(list@).take(i as int),
        decreases list@.len() - i,
    {
        let ghost before = texts(out@);
        out.push(list[i].clone());
        assert(texts(out@) =~= before.push(list@[i as int]@));
        i += 1;
    }
    out
}

/// Where the provider tells speakers apart by channel, the microphone and the
/// system's audio are kept apart; for every other provider they are mixed into
/// one channel.
pub proof fn channels_are_kept_apart_for_one_provider(provider: Seq<char>)
    ensures
        mix_for("elevenlabs"@) is Stereo,
        provider != "elevenlabs"@ ==> mix_for(provider) is Mono,
        tap_wanted(None),
        !tap_wanted(Some("0"@)),
        forall|setting: Seq<char>|
            setting != "0"@ ==> #[trigger] tap_wanted(Some(setting)),
{
}

/// A session that holds audio or a transcript is saved whole when it is finished:
/// audio that is read back is the audio that was recorded, in its format.
pub proof fn finished_audio_reads_back(
    base_dir: Seq<char>,
    a: Active,
    after: Option<Active>,
    closed: Result<(), String>,
    now: Stamp,
    r: Option<Ended>,
)
    requires
        savable(a),
        a.sample_rate > 0,
        36 + a.audio_buf@.len() <= u32::MAX,
        finishes(base_dir, Some(a), after, closed, now, r),
    ensures
        r is Some,
        r->0.saved is None <==> a.audio_buf@.len() == 0 && a.session@.transcript.segments.len()
            == 0,
        r->0.saved matches Some((saved, outcome)) ==> {
            &&& crate::audio::wav::wav_contents(saved.wav@) == Ok::<
                (Seq<u8>, int, int),
                crate::audio::wav::WavError,
            >((a.audio_buf@, a.sample_rate as int, a.channels as int))
            &&& saved.transcript@ == plain_text(a.session@.transcript.segments)
            &&& outcome.stt_error is None <==> closed is Ok
        },
{
    crate::audio::wav::wav_round_trip(a.audio_buf@, a.sample_rate, a.channels);
}

/// A recovered session ends as long after its start as its audio lasts: a second
/// for each second's worth of audio. Less than a second of audio is refused.
pub proof fn recovered_sessions_last_as_long_as_their_audio(
    cfg: ManagerConfig,
    meta: JsonView,
    seconds: nat,
    now: Stamp,
    r: Result<Recovery, RecoverError>,
)
    requires
        ({
            let (rate, channels) = spool_format(meta, cfg.sample_rate as nat);
            &&& rate > 0
            &&& channels > 0
            &&& recovers(cfg, meta, (seconds * (rate * 2 * channels)) as int, now, r)
        }),
        seconds <= 1_000_000_000_000,
    ensures
        seconds == 0 ==> r is Err && r->Err_0 is TooShort,
        seconds > 0 ==> r is Ok,
        seconds > 0 && r->Ok_0.session@.start_time.nanos < 1_000_000_000
            ==> crate::time::millis_from(r->Ok_0.session@.start_time, r->Ok_0.end_time) == 1000
            * seconds,
{
    let (rate, channels) = spool_format(meta, cfg.sample_rate as nat);
    let b: int = (rate * 2 * channels) as int;
    assert(b > 0) by (nonlinear_arith)
        requires
            rate > 0,
            channels > 0,
            b == rate * 2 * channels,
    ;
    let len: int = seconds * b;
    assert(seconds == 0 ==> len == 0) by (nonlinear_arith)
        requires
            len == seconds * b,
    ;
    assert(seconds > 0 ==> len >= b) by (nonlinear_arith)
        requires
            len == seconds * b,
            b > 0,
    ;
    assert(len * 1000 / b == seconds * 1000) by (nonlinear_arith)
        requires
            len == seconds * b,
            b > 0,
    ;
    if seconds > 0 && r->Ok_0.session@.start_time.nanos < 1_000_000_000 {
        crate::time::later_moments_lie_behind(r->Ok_0.session@.start_time, (1000 * seconds) as int);
    }
}

/// The crash spools of different sessions are different directories.
pub proof fn spools_are_apart(sessions_dir: Seq<char>, a: Seq<char>, b: Seq<char>)
    requires
        a != b,
        a.len() > 0,
        b.len() > 0,
        a[0] != '/',
        b[0] != '/',
    ensures
        spool_path(sessions_dir, a) != spool_path(sessions_dir, b),
        path_join(sessions_dir, ".recovery"@).is_prefix_of(spool_path(sessions_dir, a)),
{
    let root = path_join(sessions_dir, ".recovery"@);
    reveal_strlit(".recovery");
    let x = spool_path(sessions_dir, a);
    let y = spool_path(sessions_dir, b);
    assert(root.len() > 0);
    let head = if root.last() == '/' {
        root
    } else {
        root + seq!['/']
    };
    assert(x == head + a);
    assert(y == head + b);
    assert(x.skip(head.len() as int) =~= a);
    assert(y.skip(head.len() as int) =~= b);
    assert(x.take(root.len() as int) =~= root);
}

/// What is reported of sending is the percentage that was sent, rounded down, and
/// it is reported exactly when it has reached another ten.
pub proof fn progress_is_the_part_sent(last: nat, sent: nat, total: nat)
    requires
        0 < total,
        sent <= total,
        last <= 100,
    ensures
        progress_report(last as int, sent as int, total as int) matches Some(p) ==> {
            &&& p * total <= sent * 100 < (p + 1) * total
            &&& 0 <= p <= 100
            &&& p / 10 != last as int / 10
        },
        progress_report(last as int, sent as int, total as int) is None ==> (sent * 100) as int
            / total as int / 10 == last as int / 10,
        progress_report(0, total as int, total as int) == Some(100int),
{
    let p: int = (sent * 100) as int / total as int;
    assert(p * total <= sent * 100 < (p + 1) * total && 0 <= p <= 100) by (nonlinear_arith)
        requires
            p == (sent * 100) as int / total as int,
            total > 0,
            sent <= total,
    ;
    assert((total * 100) as int / total as int == 100) by (nonlinear_arith)
        requires
            total > 0,
    ;
}

/// A recovered session is begun anew, with nothing said in it yet, for the
/// provider and the model that are set up now, and under the spool's name.
pub proof fn recovered_sessions_are_transcribed_anew(
    cfg: ManagerConfig,
    meta: JsonView,
    len: int,
    now: Stamp,
    r: Result<Recovery, RecoverError>,
)
    requires
        recovers(cfg, meta, len, now, r),
        r is Ok,
    ensures
        ({
            let s = r->Ok_0.session@;
            &&& s.stt_provider == cfg.stt_provider@
            &&& s.stt_model == cfg.stt_model@
            &&& s.status == Status::Recording
            &&& s.transcript.segments.len() == 0
            &&& s.transcript.partial is None
            &&& s.end_time is None
            &&& text_field(meta, "name"@) is Some && text_field(meta, "name"@)->0.len() > 0 ==> s.name
                == text_field(meta, "name"@)->0 + "-recovered"@
        }),
{
}

/// What kept the provider from finishing is reported with the saved session, and
/// nothing else is.
pub proof fn saves_report_the_provider(
    base_dir: Seq<char>,
    ended: Active,
    closed: Result<(), String>,
    now: Stamp,
    r: Option<(SavedSession, SaveOutcome)>,
)
    requires
        saved_below(base_dir, ended, closed, now, r),
    ensures
        r is Some <==> ended.audio_buf@.len() > 0 || ended.session@.transcript.segments.len() > 0,
        r matches Some((_, outcome)) ==> {
            &&& closed is Ok <==> outcome.stt_error is None
            &&& closed matches Err(e) ==> outcome.stt_error->0@ == e@
        },
{
}

} // verus!
