//! Recording sessions.

pub mod manager;
pub mod offline;
pub mod storage;
pub mod stream;

use crate::json::{json_number, json_text, member_views, push_member, Json, JsonView};
use crate::stt::{
    segment_views, speakers_in, words_in, Segment, SegmentView, Transcript, TranscriptView,
};
use crate::text::{chars_of, clock, clock_string, countable, decimal, decimal_string, owned};
use crate::time::{
    folder_format, format_stamp, millis_between, millis_from, number_of, rfc3339_read, rfc3339_text,
    seconds_decimal, seconds_string, signed_decimal, signed_string, stamp_number, stamp_text,
    to_rfc3339, valid_stamp, writable_stamp, Stamp,
};
use vstd::prelude::*;

verus! {

broadcast use vstd::string::group_string_axioms;

/// What a session is doing.
#[derive(Debug, Clone, Copy, PartialEq, Eq, Structural)]
pub enum Status {
    Idle,
    Recording,
    Paused,
    Finished,
}

/// The name of a status.
pub open spec fn status_name(s: Status) -> Seq<char> {
    match s {
        Status::Idle => "IDLE"@,
        Status::Recording => "RECORDING"@,
        Status::Paused => "PAUSED"@,
        Status::Finished => "FINISHED"@,
    }
}

impl Status {
    /// The name of the status.
    pub fn name(&self) -> (r: String)
        ensures
            r@ == status_name(*self),
    {
        match self {
            Status::Idle => owned("IDLE"),
            Status::Recording => owned("RECORDING"),
            Status::Paused => owned("PAUSED"),
            Status::Finished => owned("FINISHED"),
        }
    }
}

/// A recording and its transcript.
#[derive(Debug)]
pub struct Session {
    pub id: String,
    pub name: String,
    pub start_time: Stamp,
    pub end_time: Option<Stamp>,
    pub status: Status,
    pub transcript: Transcript,
    pub stt_provider: String,
    pub stt_model: String,
}

/// The contents of a [`Session`].
pub struct SessionView {
    pub id: Seq<char>,
    pub name: Seq<char>,
    pub start_time: Stamp,
    pub end_time: Option<Stamp>,
    pub status: Status,
    pub transcript: TranscriptView,
    pub stt_provider: Seq<char>,
    pub stt_model: Seq<char>,
}

impl View for Session {
    type V = SessionView;

    open spec fn view(&self) -> SessionView {
        SessionView {
            id: self.id@,
            name: self.name@,
            start_time: self.start_time,
            end_time: self.end_time,
            status: self.status,
            transcript: self.transcript@,
            stt_provider: self.stt_provider@,
            stt_model: self.stt_model@,
        }
    }
}

/// Whether a session's times can be written as dates.
pub open spec fn valid_times(s: SessionView) -> bool {
    &&& valid_stamp(s.start_time)
    &&& s.end_time matches Some(end) ==> valid_stamp(end)
}

/// A session that has just begun.
pub open spec fn new_session(name: Seq<char>, now: Stamp) -> SessionView {
    SessionView {
        id: signed_decimal(stamp_number(now)),
        name,
        start_time: now,
        end_time: None,
        status: Status::Idle,
        transcript: TranscriptView { segments: seq![], partial: None },
        stt_provider: seq![],
        stt_model: seq![],
    }
}

/// A character that can stand in a folder's name.
pub open spec fn folder_char(c: char) -> char {
    if ('a' <= c <= 'z') || ('A' <= c <= 'Z') || ('0' <= c <= '9') || c == '-' || c == '_' {
        c
    } else {
        '_'
    }
}

/// A name with an underscore for each character that a folder's name cannot
/// hold.
pub open spec fn sanitized(name: Seq<char>) -> Seq<char> {
    name.map_values(|c: char| folder_char(c))
}

/// The name of a session's folder: its time, then its name, if it has one.
pub open spec fn folder_of(s: SessionView) -> Seq<char> {
    let at = stamp_text(s.start_time, folder_format());
    if s.name.len() == 0 {
        at
    } else {
        at + seq!['_'] + sanitized(s.name)
    }
}

/// How long a session has lasted, or did last, in milliseconds.
pub open spec fn duration_of(s: SessionView, now: Stamp) -> int {
    millis_from(
        s.start_time,
        match s.end_time {
            Some(end) => end,
            None => now,
        },
    )
}

/// Milliseconds as `HH:MM:SS`; a negative duration counts as none.
pub open spec fn millis_clock(millis: int) -> Seq<char> {
    clock(
        if millis < 0 {
            0
        } else {
            (millis / 1000) as nat
        },
    )
}

/// What is kept of a session beside its transcript.
pub open spec fn metadata_of(s: SessionView, now: Stamp) -> Seq<(Seq<char>, JsonView)> {
    seq![
        ("id"@, JsonView::Text(s.id)),
        ("name"@, JsonView::Text(s.name)),
        ("start_time"@, JsonView::Text(rfc3339_text(s.start_time))),
        (
            "end_time"@,
            JsonView::Text(
                rfc3339_text(
                    match s.end_time {
                        Some(end) => end,
                        None => s.start_time,
                    },
                ),
            ),
        ),
        ("duration_secs"@, JsonView::Number(seconds_decimal(duration_of(s, now)))),
        ("word_count"@, JsonView::Number(decimal(countable(words_in(s.transcript.segments))))),
        (
            "speaker_count"@,
            JsonView::Number(decimal(speakers_in(s.transcript.segments).len())),
        ),
    ]
}

fn sanitize(name: &str) -> (r: String)
    ensures
        r@ == sanitized(name@),
{
    let chars = chars_of(name);
    let mut out = String::new();
    let mut i: usize = 0;
    while i < chars.len()
        invariant
            i <= chars@.len(),
            out@ =~= sanitized(chars@).take(i as int),
        decreases chars@.len() - i,
    {
        let c = chars[i];
        let keep = ('a' <= c && c <= 'z') || ('A' <= c && c <= 'Z') || ('0' <= c && c <= '9') || c
            == '-' || c == '_';
        out.push(
            if keep {
                c
            } else {
                '_'
            },
        );
        i += 1;
    }
    out
}

impl Session {
    /// A session that begins now.
    pub fn new(name: &str, now: Stamp) -> (r: Session)
        requires
            valid_stamp(now),
        ensures
            r@ == new_session(name@, now),
    {
        let r = Session {
            id: signed_string(number_of(now)),
            name: owned(name),
            start_time: now,
            end_time: None,
            status: Status::Idle,
            transcript: Transcript::new(),
            stt_provider: String::new(),
            stt_model: String::new(),
        };
        assert(r@.transcript.segments =~= Seq::<SegmentView>::empty());
        assert(r@.stt_provider =~= Seq::<char>::empty());
        assert(r@.stt_model =~= Seq::<char>::empty());
        r
    }

    /// `YYYY-MM-DD_HH-MM-SS[_sanitized-name]` (local time).
    pub fn folder_name(&self) -> (r: String)
        requires
            valid_stamp(self@.start_time),
        ensures
            r@ == folder_of(self@),
    {
        let mut out = format_stamp(self.start_time, "%Y-%m-%d_%H-%M-%S");
        if self.name.as_str().unicode_len() > 0 {
            out.push('_');
            out.append(sanitize(self.name.as_str()).as_str());
            assert(out@ =~= folder_of(self@));
        }
        out
    }

    /// How long the session has lasted, or did last, in milliseconds.
    pub fn duration_millis(&self, now: Stamp) -> (r: i64)
        requires
            valid_times(self@),
            valid_stamp(now),
        ensures
            r == duration_of(self@, now),
    {
        let end = match self.end_time {
            Some(e) => e,
            None => now,
        };
        millis_between(self.start_time, end)
    }

    /// How long the session has lasted, or did last, as `HH:MM:SS`.
    pub fn duration_formatted(&self, now: Stamp) -> (r: String)
        requires
            valid_times(self@),
            valid_stamp(now),
        ensures
            r@ == millis_clock(duration_of(self@, now)),
    {
        let ms = self.duration_millis(now);
        if ms < 0 {
            clock_string(0)
        } else {
            clock_string((ms / 1000) as u64)
        }
    }

    /// What is kept of the session beside its transcript. Where its start can be
    /// written whole, it can be read back.
    pub fn to_metadata(&self, now: Stamp) -> (r: Vec<(String, Json)>)
        requires
            valid_times(self@),
            valid_stamp(now),
        ensures
            member_views(r@) == metadata_of(self@, now),
            writable_stamp(self@.start_time) ==> rfc3339_read(rfc3339_text(self@.start_time))
                == Some(self@.start_time),
            speakers_in(self@.transcript.segments).len() <= u64::MAX,
    {
        let mut m: Vec<(String, Json)> = Vec::new();
        assert(member_views(m@) =~= Seq::empty());
        push_member(&mut m, "id", json_text(self.id.clone()));
        push_member(&mut m, "name", json_text(self.name.clone()));
        push_member(&mut m, "start_time", json_text(to_rfc3339(self.start_time)));
        let end = match self.end_time {
            Some(e) => e,
            None => self.start_time,
        };
        push_member(&mut m, "end_time", json_text(to_rfc3339(end)));
        push_member(
            &mut m,
            "duration_secs",
            json_number(seconds_string(self.duration_millis(now))),
        );
        push_member(
            &mut m,
            "word_count",
            json_number(decimal_string(self.transcript.word_count() as u64)),
        );
        push_member(
            &mut m,
            "speaker_count",
            json_number(decimal_string(self.transcript.speakers().len() as u64)),
        );
        assert(member_views(m@) =~= metadata_of(self@, now));
        m
    }
}

/// Events emitted by the session manager toward the interface.
#[derive(Debug)]
pub enum SessionEvent {
    Segment(Segment),
    /// Takes the place of all segments so far.
    Replace(Vec<Segment>),
    Status(Status),
    Error(String),
    /// The reading of the level meter.
    AudioLevel(u32),
    Notice(String),
}

/// The contents of a [`SessionEvent`].
pub enum SessionEventView {
    Segment(SegmentView),
    Replace(Seq<SegmentView>),
    Status(Status),
    Error(Seq<char>),
    AudioLevel(nat),
    Notice(Seq<char>),
}

impl View for SessionEvent {
    type V = SessionEventView;

    open spec fn view(&self) -> SessionEventView {
        match self {
            SessionEvent::Segment(s) => SessionEventView::Segment(s@),
            SessionEvent::Replace(v) => SessionEventView::Replace(segment_views(v@)),
            SessionEvent::Status(s) => SessionEventView::Status(*s),
            SessionEvent::Error(e) => SessionEventView::Error(e@),
            SessionEvent::AudioLevel(n) => SessionEventView::AudioLevel(*n as nat),
            SessionEvent::Notice(n) => SessionEventView::Notice(n@),
        }
    }
}

/// A stored session as shown in the home list. The duration is in microseconds.
#[derive(Debug)]
pub struct SessionSummary {
    pub folder: String,
    pub name: String,
    pub title: String,
    pub summary: String,
    pub start_time: Option<Stamp>,
    pub duration: i64,
    pub word_count: u64,
    pub speaker_count: u64,
}

/// The contents of a [`SessionSummary`].
pub struct SummaryView {
    pub folder: Seq<char>,
    pub name: Seq<char>,
    pub title: Seq<char>,
    pub summary: Seq<char>,
    pub start_time: Option<Stamp>,
    pub duration: int,
    pub word_count: nat,
    pub speaker_count: nat,
}

impl View for SessionSummary {
    type V = SummaryView;

    open spec fn view(&self) -> SummaryView {
        SummaryView {
            folder: self.folder@,
            name: self.name@,
            title: self.title@,
            summary: self.summary@,
            start_time: self.start_time,
            duration: self.duration as int,
            word_count: self.word_count as nat,
            speaker_count: self.speaker_count as nat,
        }
    }
}

impl SessionSummary {
    /// A copy of the summary.
    pub fn copy(&self) -> (r: SessionSummary)
        ensures
            r@ == self@,
    {
        SessionSummary {
            folder: self.folder.clone(),
            name: self.name.clone(),
            title: self.title.clone(),
            summary: self.summary.clone(),
            start_time: self.start_time,
            duration: self.duration,
            word_count: self.word_count,
            speaker_count: self.speaker_count,
        }
    }
}

/// The contents of a list of summaries.
pub open spec fn summary_views(v: Seq<SessionSummary>) -> Seq<SummaryView> {
    v.map_values(|s: SessionSummary| s@)
}

/// A folder's name is made of a time and of letters, digits, dashes and
/// underscores alone: no session's name leads out of the sessions' directory.
pub proof fn folder_name_is_plain(s: SessionView)
    ensures
        folder_of(s).take(stamp_text(s.start_time, folder_format()).len() as int) == stamp_text(
            s.start_time,
            folder_format(),
        ),
        forall|i: int|
            stamp_text(s.start_time, folder_format()).len() <= i < folder_of(s).len()
                ==> folder_char(#[trigger] folder_of(s)[i]) == folder_of(s)[i] && folder_of(s)[i]
                != '/' && folder_of(s)[i] != '.',
{
    let at = stamp_text(s.start_time, folder_format());
    let f = folder_of(s);
    assert(f.take(at.len() as int) =~= at);
    assert forall|i: int| at.len() <= i < f.len() implies folder_char(#[trigger] f[i]) == f[i]
        && f[i] != '/' && f[i] != '.' by {
        if i > at.len() {
            assert(f[i] == folder_char(s.name[i - at.len() - 1]));
        }
    }
}

/// The name of a session stands in its folder's name, behind the time and an
/// underscore, character by character: letters, digits, dashes and underscores as
/// they are, an underscore for each other. A session without a name has the time
/// alone.
pub proof fn folder_names_keep_the_name(s: SessionView, i: int)
    requires
        0 <= i < s.name.len() || s.name.len() == 0,
    ensures
        ({
            let at = stamp_text(s.start_time, "%Y-%m-%d_%H-%M-%S"@);
            let f = folder_of(s);
            &&& s.name.len() == 0 ==> f == at
            &&& s.name.len() > 0 ==> {
                let c = s.name[i];
                let plain = ('a' <= c <= 'z') || ('A' <= c <= 'Z') || ('0' <= c <= '9') || c == '-'
                    || c == '_';
                &&& f.len() == at.len() + 1 + s.name.len()
                &&& f[at.len() as int] == '_'
                &&& f[at.len() + 1 + i] == (if plain {
                    c
                } else {
                    '_'
                })
            }
        }),
{
}

/// A session that has ended lasts from its start to its end, whatever the time;
/// one that has not lasts until now. A session that ends some milliseconds after
/// its start, leap seconds apart, lasted that long, and its clock shows the whole
/// seconds.
pub proof fn sessions_last_until_their_end(s: SessionView, now: Stamp, then: Stamp, millis: int)
    requires
        valid_stamp(s.start_time),
        s.start_time.nanos < 1_000_000_000,
        0 <= millis <= 1_000_000_000_000_000,
    ensures
        s.end_time is Some ==> duration_of(s, now) == duration_of(s, then),
        s.end_time == Some(crate::time::later(s.start_time, millis)) ==> duration_of(s, now)
            == millis,
        s.end_time is None ==> duration_of(s, crate::time::later(s.start_time, millis)) == millis,
        millis_clock(millis) == clock((millis / 1000) as nat),
{
    crate::time::later_moments_lie_behind(s.start_time, millis);
}

/// The metadata of a session names it and tells when it began and ended, how long
/// it lasted, and how many words and speakers it has. A session that has no end
/// yet is told to end when it began.
pub proof fn metadata_tells_the_session(s: SessionView, now: Stamp)
    ensures
        ({
            let m = JsonView::Object(metadata_of(s, now));
            &&& crate::json::text_field(m, "id"@) == Some(s.id)
            &&& crate::json::text_field(m, "name"@) == Some(s.name)
            &&& crate::json::text_field(m, "start_time"@) == Some(rfc3339_text(s.start_time))
            &&& s.end_time matches Some(end) ==> crate::json::text_field(m, "end_time"@) == Some(
                rfc3339_text(end),
            )
            &&& s.end_time is None ==> crate::json::text_field(m, "end_time"@) == Some(
                rfc3339_text(s.start_time),
            )
            &&& crate::json::scaled_field(m, "duration_secs"@, 6, 0) == (if duration_of(s, now)
                < 0 {
                -crate::json::at_most_max(((-duration_of(s, now)) * 1000) as nat)
            } else {
                crate::json::at_most_max((duration_of(s, now) * 1000) as nat)
            })
            &&& words_in(s.transcript.segments) <= usize::MAX ==> crate::json::unsigned_field(
                m,
                "word_count"@,
            ) == Some(words_in(s.transcript.segments))
            &&& speakers_in(s.transcript.segments).len() <= u64::MAX
                ==> crate::json::unsigned_field(m, "speaker_count"@) == Some(
                speakers_in(s.transcript.segments).len(),
            )
        }),
{
    let m = metadata_of(s, now);
    reveal_strlit("id");
    reveal_strlit("name");
    reveal_strlit("start_time");
    reveal_strlit("end_time");
    reveal_strlit("duration_secs");
    reveal_strlit("word_count");
    reveal_strlit("speaker_count");
    assert("id"@[0] == 'i' && "name"@[0] == 'n' && "start_time"@[0] == 's' && "end_time"@[0] == 'e'
        && "duration_secs"@[0] == 'd' && "word_count"@[0] == 'w' && "speaker_count"@[0] == 's');
    assert("start_time"@[1] == 't' && "speaker_count"@[1] == 'p');
    crate::json::lemma_member_index_is(m, "id"@, 0);
    crate::json::lemma_member_index_is(m, "name"@, 1);
    crate::json::lemma_member_index_is(m, "start_time"@, 2);
    crate::json::lemma_member_index_is(m, "end_time"@, 3);
    crate::json::lemma_member_index_is(m, "duration_secs"@, 4);
    crate::json::lemma_member_index_is(m, "word_count"@, 5);
    crate::json::lemma_member_index_is(m, "speaker_count"@, 6);
    storage::durations_read_back(duration_of(s, now));
    crate::text::decimal_round_trip(countable(words_in(s.transcript.segments)));
    crate::text::decimal_round_trip(speakers_in(s.transcript.segments).len());
}

/// A new session bears its name, begins at its moment, and nothing was said in it
/// yet; sessions of different moments can be told apart.
pub proof fn new_sessions_can_be_told_apart(
    name: Seq<char>,
    other: Seq<char>,
    a: Stamp,
    b: Stamp,
)
    requires
        0 <= a.secs < 9_000_000_000,
        0 <= b.secs < 9_000_000_000,
        a.nanos < 1_000_000_000,
        b.nanos < 1_000_000_000,
        a.secs < b.secs || (a.secs == b.secs && a.nanos < b.nanos),
    ensures
        new_session(name, a).id != new_session(other, b).id,
        new_session(name, a).name == name,
        new_session(name, a).start_time == a,
        new_session(name, a).status == Status::Idle,
        new_session(name, a).end_time is None,
        new_session(name, a).transcript.segments.len() == 0,
{
    crate::time::numbers_rise_with_time(a, b);
    let m = stamp_number(a);
    let n = stamp_number(b);
    crate::text::decimal_round_trip(m as nat);
    crate::text::decimal_round_trip(n as nat);
}

} // verus!
