//! Transcripts and the speech-to-text providers that make them.

pub mod assemblyai;
pub mod elevenlabs;
pub mod local;
pub mod parakeet;
pub mod utterances;
pub mod whisper;

use crate::text::{
    add_counts, after_prefix, all_white, chars_of, clock, clock_string, concat2, countable, decimal,
    joined, no_white, owned, parse_u32, parse_unsigned, same, strip_prefix, texts,
    trim, trimmed, trimming_strips_both_ends,
};
use crate::time::Stamp;
use vstd::prelude::*;

verus! {

broadcast use vstd::string::group_string_axioms;

// ---------------------------------------------------------------------------
// Segments
// ---------------------------------------------------------------------------

/// A piece of a transcript. Times are microseconds from the start of the
/// recording, the confidence is in millionths. The speaker is a letter, a name,
/// or empty where unknown.
#[derive(Debug)]
pub struct Segment {
    pub text: String,
    pub speaker: String,
    pub start_time: i64,
    pub end_time: i64,
    pub confidence: i64,
    pub is_final: bool,
    pub created_at: Stamp,
}

/// The contents of a [`Segment`].
pub struct SegmentView {
    pub text: Seq<char>,
    pub speaker: Seq<char>,
    pub start_time: int,
    pub end_time: int,
    pub confidence: int,
    pub is_final: bool,
    pub created_at: Stamp,
}

impl View for Segment {
    type V = SegmentView;

    open spec fn view(&self) -> SegmentView {
        SegmentView {
            text: self.text@,
            speaker: self.speaker@,
            start_time: self.start_time as int,
            end_time: self.end_time as int,
            confidence: self.confidence as int,
            is_final: self.is_final,
            created_at: self.created_at,
        }
    }
}

/// Whole seconds of a time in microseconds; a time before the start counts as
/// the start.
pub open spec fn whole_seconds(micros: int) -> nat {
    if micros < 0 {
        0
    } else {
        (micros / 1_000_000) as nat
    }
}

/// A time in microseconds as `HH:MM:SS`.
pub fn format_micros(micros: i64) -> (r: String)
    ensures
        r@ == clock(whole_seconds(micros as int)),
{
    if micros < 0 {
        clock_string(0)
    } else {
        clock_string((micros / 1_000_000) as u64)
    }
}

impl Segment {
    /// When the segment starts, as `HH:MM:SS`.
    pub fn format_timestamp(&self) -> (r: String)
        ensures
            r@ == clock(whole_seconds(self@.start_time)),
    {
        format_micros(self.start_time)
    }

    /// A copy of the segment.
    pub fn copy(&self) -> (r: Segment)
        ensures
            r@ == self@,
    {
        Segment {
            text: self.text.clone(),
            speaker: self.speaker.clone(),
            start_time: self.start_time,
            end_time: self.end_time,
            confidence: self.confidence,
            is_final: self.is_final,
            created_at: self.created_at,
        }
    }
}

/// The contents of a list of segments.
pub open spec fn segment_views(segments: Seq<Segment>) -> Seq<SegmentView> {
    segments.map_values(|s: Segment| s@)
}

/// A copy of a list of segments.
pub fn copy_segments(segments: &[Segment]) -> (r: Vec<Segment>)
    ensures
        segment_views(r@) == segment_views(segments@),
{
    let mut out: Vec<Segment> = Vec::new();
    let mut i: usize = 0;
    while i < segments.len()
        invariant
            i <= segments@.len(),
            segment_views(out@) =~= segment_views(segments@).take(i as int),
        decreases segments@.len() - i,
    {
        let ghost before = segment_views(out@);
        out.push(segments[i].copy());
        assert(segment_views(out@) =~= before.push(segments@[i as int]@));
        i += 1;
    }
    out
}

/// How a speaker is named in text: by name for the local user, by letter for
/// the others.
pub open spec fn speaker_label(speaker: Seq<char>) -> Seq<char> {
    if speaker.len() == 0 {
        "Unknown"@
    } else if speaker == "You"@ {
        "You"@
    } else {
        "Speaker "@ + speaker
    }
}

/// How a speaker is named in text.
pub fn label_speaker(speaker: &str) -> (r: String)
    ensures
        r@ == speaker_label(speaker@),
{
    if same(speaker, "") {
        proof {
            reveal_strlit("");
        }
        owned("Unknown")
    } else {
        proof {
            reveal_strlit("");
            if speaker@.len() == 0 {
                assert(speaker@ =~= ""@);
            }
        }
        if same(speaker, "You") {
            owned("You")
        } else {
            concat2("Speaker ", speaker)
        }
    }
}

// ---------------------------------------------------------------------------
// Transcripts
// ---------------------------------------------------------------------------

/// Finalized segments plus at most one in-progress partial.
#[derive(Debug)]
pub struct Transcript {
    pub segments: Vec<Segment>,
    pub partial: Option<Segment>,
}

/// The contents of a [`Transcript`].
pub struct TranscriptView {
    pub segments: Seq<SegmentView>,
    pub partial: Option<SegmentView>,
}

impl View for Transcript {
    type V = TranscriptView;

    open spec fn view(&self) -> TranscriptView {
        TranscriptView {
            segments: segment_views(self.segments@),
            partial: match self.partial {
                Some(s) => Some(s@),
                None => None,
            },
        }
    }
}

/// A transcript after a segment arrived: a final one is kept and ends the
/// partial, another takes the partial's place.
pub open spec fn with_segment(t: TranscriptView, seg: SegmentView) -> TranscriptView {
    if seg.is_final {
        TranscriptView { segments: t.segments.push(seg), partial: None }
    } else {
        TranscriptView { partial: Some(seg), ..t }
    }
}

/// How many blanks a text holds.
pub open spec fn blanks(s: Seq<char>) -> nat
    decreases s.len(),
{
    if s.len() == 0 {
        0
    } else {
        blanks(s.drop_last()) + (if s.last() == ' ' {
            1nat
        } else {
            0nat
        })
    }
}

/// The number of words of a text, told by its blanks; none where it holds
/// nothing but whitespace.
pub open spec fn words_told(s: Seq<char>) -> nat {
    if trimmed(s).len() == 0 {
        0
    } else {
        blanks(s) + 1
    }
}

/// The number of words of a list of segments.
pub open spec fn words_in(segments: Seq<SegmentView>) -> nat
    decreases segments.len(),
{
    if segments.len() == 0 {
        0
    } else {
        words_in(segments.drop_last()) + words_told(segments.last().text)
    }
}

/// The known speakers of a list of segments, each once, in order of appearance.
pub open spec fn speakers_in(segments: Seq<SegmentView>) -> Seq<Seq<char>>
    decreases segments.len(),
{
    if segments.len() == 0 {
        seq![]
    } else {
        let before = speakers_in(segments.drop_last());
        let speaker = segments.last().speaker;
        if speaker.len() == 0 || before.contains(speaker) {
            before
        } else {
            before.push(speaker)
        }
    }
}

/// A segment as text: its time and speaker on one line, its text on the next,
/// then an empty line.
pub open spec fn segment_text(seg: SegmentView) -> Seq<char> {
    "["@ + clock(whole_seconds(seg.start_time)) + "] "@ + speaker_label(seg.speaker) + ":\n"@
        + seg.text + "\n\n"@
}

/// A list of segments as text.
pub open spec fn plain_text(segments: Seq<SegmentView>) -> Seq<char>
    decreases segments.len(),
{
    if segments.len() == 0 {
        seq![]
    } else {
        plain_text(segments.drop_last()) + segment_text(segments.last())
    }
}

fn count_blanks(s: &str) -> (r: usize)
    ensures
        r == blanks(s@),
{
    let chars = chars_of(s);
    let mut n: usize = 0;
    let mut i: usize = 0;
    assert(chars@.take(0) =~= Seq::<char>::empty());
    while i < chars.len()
        invariant
            i <= chars@.len(),
            n <= i,
            n == blanks(chars@.take(i as int)),
        decreases chars@.len() - i,
    {
        assert(chars@.take(i + 1).drop_last() =~= chars@.take(i as int));
        if chars[i] == ' ' {
            n += 1;
        }
        i += 1;
    }
    assert(chars@.take(i as int) =~= chars@);
    n
}

fn holds_text(list: &[String], t: &str) -> (r: bool)
    ensures
        r == texts(list@).contains(t@),
{
    let mut i: usize = 0;
    while i < list.len()
        invariant
            i <= list@.len(),
            forall|k: int| 0 <= k < i ==> texts(list@)[k] != t@,
        decreases list@.len() - i,
    {
        if same(list[i].as_str(), t) {
            assert(texts(list@)[i as int] == t@);
            return true;
        }
        i += 1;
    }
    false
}

impl Transcript {
    /// An empty transcript.
    pub fn new() -> (r: Transcript)
        ensures
            r@.segments.len() == 0,
            r@.partial is None,
    {
        Transcript { segments: Vec::new(), partial: None }
    }

    /// Takes in a segment: a final one is kept and ends the partial, another
    /// takes the partial's place.
    pub fn add_segment(&mut self, seg: Segment)
        ensures
            final(self)@ == with_segment(old(self)@, seg@),
    {
        if seg.is_final {
            let ghost before = segment_views(self.segments@);
            self.segments.push(seg);
            assert(segment_views(self.segments@) =~= before.push(seg@));
            self.partial = None;
        } else {
            self.partial = Some(seg);
        }
    }

    /// Swap in an authoritative re-transcription.
    pub fn replace_segments(&mut self, segments: Vec<Segment>)
        ensures
            final(self)@.segments == segment_views(segments@),
            final(self)@.partial is None,
    {
        self.segments = segments;
        self.partial = None;
    }

    /// The number of words in the final segments, told by their blanks.
    pub fn word_count(&self) -> (r: usize)
        ensures
            r == countable(words_in(self@.segments)),
    {
        let ghost segs = self@.segments;
        let mut n: usize = 0;
        let mut i: usize = 0;
        assert(segs.take(0) =~= Seq::<SegmentView>::empty());
        while i < self.segments.len()
            invariant
                i <= self.segments@.len(),
                segs == segment_views(self.segments@),
                n == countable(words_in(segs.take(i as int))),
            decreases self.segments@.len() - i,
        {
            assert(segs.take(i + 1).drop_last() =~= segs.take(i as int));
            let text = self.segments[i].text.as_str();
            if trim(text).unicode_len() > 0 {
                n = add_counts(n, add_counts(count_blanks(text), 1));
            }
            i += 1;
        }
        assert(segs.take(i as int) =~= segs);
        n
    }

    /// The known speakers, each once, in order of appearance.
    pub fn speakers(&self) -> (r: Vec<String>)
        ensures
            texts(r@) == speakers_in(self@.segments),
    {
        let ghost segs = self@.segments;
        let mut seen: Vec<String> = Vec::new();
        let mut i: usize = 0;
        assert(segs.take(0) =~= Seq::<SegmentView>::empty());
        assert(texts(seen@) =~= Seq::<Seq<char>>::empty());
        while i < self.segments.len()
            invariant
                i <= self.segments@.len(),
                segs == segment_views(self.segments@),
                texts(seen@) == speakers_in(segs.take(i as int)),
            decreases self.segments@.len() - i,
        {
            assert(segs.take(i + 1).drop_last() =~= segs.take(i as int));
            let speaker = self.segments[i].speaker.as_str();
            if speaker.unicode_len() > 0 && !holds_text(&seen, speaker) {
                let ghost before = texts(seen@);
                seen.push(owned(speaker));
                assert(texts(seen@) =~= before.push(speaker@));
            }
            i += 1;
        }
        assert(segs.take(i as int) =~= segs);
        seen
    }

    /// The final segments as text.
    pub fn to_plain_text(&self) -> (r: String)
        ensures
            r@ == plain_text(self@.segments),
    {
        let ghost segs = self@.segments;
        let mut out = String::new();
        let mut i: usize = 0;
        assert(segs.take(0) =~= Seq::<SegmentView>::empty());
        assert(out@ =~= Seq::<char>::empty());
        while i < self.segments.len()
            invariant
                i <= self.segments@.len(),
                segs == segment_views(self.segments@),
                out@ == plain_text(segs.take(i as int)),
            decreases self.segments@.len() - i,
        {
            assert(segs.take(i + 1).drop_last() =~= segs.take(i as int));
            let ghost before = out@;
            let seg = &self.segments[i];
            out.append("[");
            out.append(seg.format_timestamp().as_str());
            out.append("] ");
            out.append(label_speaker(seg.speaker.as_str()).as_str());
            out.append(":\n");
            out.append(seg.text.as_str());
            out.append("\n\n");
            assert(out@ =~= before + segment_text(seg@));
            i += 1;
        }
        assert(segs.take(i as int) =~= segs);
        out
    }
}

/// The text of a transcript in two parts is the text of the first part followed
/// by that of the second, and so are its words.
pub proof fn transcripts_append(a: Seq<SegmentView>, b: Seq<SegmentView>)
    ensures
        plain_text(a + b) == plain_text(a) + plain_text(b),
        words_in(a + b) == words_in(a) + words_in(b),
    decreases b.len(),
{
    if b.len() == 0 {
        assert(a + b =~= a);
        assert(plain_text(a) + plain_text(b) =~= plain_text(a));
    } else {
        transcripts_append(a, b.drop_last());
        assert((a + b).drop_last() =~= a + b.drop_last());
        assert((a + b).last() == b.last());
        assert(plain_text(a) + (plain_text(b.drop_last()) + segment_text(b.last())) =~= (plain_text(
            a,
        ) + plain_text(b.drop_last())) + segment_text(b.last()));
    }
}

/// No speaker is listed twice, none is empty, and exactly the known speakers
/// of the segments are listed.
pub proof fn speakers_are_distinct(segments: Seq<SegmentView>)
    ensures
        speakers_in(segments).no_duplicates(),
        forall|s: Seq<char>|
            #[trigger] speakers_in(segments).contains(s) <==> s.len() > 0 && exists|i: int|
                0 <= i < segments.len() && (#[trigger] segments[i]).speaker == s,
    decreases segments.len(),
{
    if segments.len() > 0 {
        let front = segments.drop_last();
        let before = speakers_in(front);
        let now = speakers_in(segments);
        let last = segments.last().speaker;
        speakers_are_distinct(front);
        assert forall|s: Seq<char>| #[trigger] now.contains(s) implies s.len() > 0 && exists|i: int|
            0 <= i < segments.len() && (#[trigger] segments[i]).speaker == s by {
            let k = choose|k: int| 0 <= k < now.len() && now[k] == s;
            if k < before.len() {
                assert(before[k] == s);
                assert(before.contains(s));
                let i = choose|i: int| 0 <= i < front.len() && (#[trigger] front[i]).speaker == s;
                assert(segments[i].speaker == s);
            } else {
                assert(segments[segments.len() - 1].speaker == s);
            }
        }
        assert forall|s: Seq<char>|
            s.len() > 0 && (exists|i: int|
                0 <= i < segments.len() && (#[trigger] segments[i]).speaker
                    == s) implies #[trigger] now.contains(s) by {
            let i = choose|i: int| 0 <= i < segments.len() && (#[trigger] segments[i]).speaker == s;
            if i < front.len() {
                assert(front[i].speaker == s);
                assert(before.contains(s));
                let k = choose|k: int| 0 <= k < before.len() && before[k] == s;
                assert(now[k] == s);
            } else if before.contains(s) {
                let k = choose|k: int| 0 <= k < before.len() && before[k] == s;
                assert(now[k] == s);
            } else {
                assert(now[before.len() as int] == s);
            }
        }
    }
}

// ---------------------------------------------------------------------------
// Speaker names
// ---------------------------------------------------------------------------

/// The letter of a number: `A` for 0, and `A` again after `Z`.
pub open spec fn letter(n: nat) -> char {
    (65 + n % 26) as char
}

/// The letter of a number.
pub fn letter_string(n: u64) -> (r: String)
    ensures
        r@ == seq![letter(n as nat)],
{
    let mut out = String::new();
    out.push((65u8 + (n % 26) as u8) as char);
    assert(out@ =~= seq![letter(n as nat)]);
    out
}

/// The number of a speaker id of the form `speaker_N`.
pub open spec fn speaker_number(speaker_id: Seq<char>) -> Option<nat> {
    match after_prefix(speaker_id, "speaker_"@) {
        Some(s) => parse_unsigned(s, u32::MAX as nat),
        None => None,
    }
}

/// The number of a speaker id of the form `speaker_N`.
pub fn parse_speaker(speaker_id: &str) -> (r: Option<u32>)
    ensures
        r == (match speaker_number(speaker_id@) {
            Some(n) => Some(n as u32),
            None => None,
        }),
{
    match strip_prefix(speaker_id, "speaker_") {
        Some(s) => parse_u32(s.as_str()),
        None => None,
    }
}

/// `speaker_N` as a letter, another id as the fallback.
pub open spec fn lettered(speaker_id: Seq<char>, fallback: char) -> Seq<char> {
    match speaker_number(speaker_id) {
        Some(n) => seq![letter(n)],
        None => seq![fallback],
    }
}

/// `speaker_N` as the letter `A` + N % 26; an id of another form as the fallback.
pub fn speaker_letter(speaker_id: &str, fallback: char) -> (r: String)
    ensures
        r@ == lettered(speaker_id@, fallback),
{
    match parse_speaker(speaker_id) {
        Some(n) => letter_string(n as u64),
        None => {
            let mut out = String::new();
            out.push(fallback);
            assert(out@ =~= seq![fallback]);
            out
        },
    }
}

/// The speaker of a channel: the local user on channel 0, then letters.
pub open spec fn channel_label(speaker_id: Seq<char>) -> Seq<char> {
    match speaker_number(speaker_id) {
        Some(n) => if n == 0 {
            "You"@
        } else {
            seq![letter((n - 1) as nat)]
        },
        None => "A"@,
    }
}

/// Channel-separated recordings: channel 0 is the local mic ("You"), channel N
/// from 1 on becomes Speaker A, B and so on.
pub fn channel_speaker(speaker_id: &str) -> (r: String)
    ensures
        r@ == channel_label(speaker_id@),
{
    match parse_speaker(speaker_id) {
        Some(n) => if n == 0 {
            owned("You")
        } else {
            letter_string((n - 1) as u64)
        },
        None => owned("A"),
    }
}

// ---------------------------------------------------------------------------
// Providers
// ---------------------------------------------------------------------------

/// A connection to a speech-to-text provider. Audio is 16-bit little-endian
/// PCM.
pub trait SttClient: Send {
    fn connect(&mut self) -> (r: Result<(), String>);

    fn send_audio(&mut self, pcm: &[u8]) -> (r: Result<(), String>);

    /// Blocking. Batch providers transcribe and deliver their segments here.
    fn close(&mut self) -> (r: Result<(), String>);
}

/// The providers.
#[derive(Debug, Clone, Copy, PartialEq, Eq, Structural)]
pub enum Provider {
    AssemblyAi,
    ElevenLabs,
    Whisper,
    Parakeet,
}

/// The provider of a name; a name that is none means the default.
pub open spec fn provider_named(name: Seq<char>) -> Provider {
    if name == "elevenlabs"@ {
        Provider::ElevenLabs
    } else if name == "whisper"@ {
        Provider::Whisper
    } else if name == "parakeet"@ {
        Provider::Parakeet
    } else {
        Provider::AssemblyAi
    }
}

/// The provider of a name; a name that is none means the default.
pub fn provider_of(name: &str) -> (r: Provider)
    ensures
        r == provider_named(name@),
{
    if same(name, "elevenlabs") {
        Provider::ElevenLabs
    } else if same(name, "whisper") {
        Provider::Whisper
    } else if same(name, "parakeet") {
        Provider::Parakeet
    } else {
        Provider::AssemblyAi
    }
}

/// Stands for a local provider that was left out of the build: it cannot be
/// connected to, and takes audio without doing anything with it.
#[derive(Debug)]
pub struct MissingClient {
    pub name: String,
}

/// What connecting to a provider that was left out answers.
pub open spec fn missing_text(name: Seq<char>) -> Seq<char> {
    name + " support not compiled in; rebuild with --features "@ + name
}

impl SttClient for MissingClient {
    fn connect(&mut self) -> (r: Result<(), String>)
        ensures
            *final(self) == *old(self),
            r matches Err(e) && e@ == missing_text(old(self).name@),
    {
        let mut e = self.name.clone();
        e.append(" support not compiled in; rebuild with --features ");
        e.append(self.name.as_str());
        Err(e)
    }

    fn send_audio(&mut self, pcm: &[u8]) -> (r: Result<(), String>)
        ensures
            *final(self) == *old(self),
            r is Ok,
    {
        Ok(())
    }

    fn close(&mut self) -> (r: Result<(), String>)
        ensures
            *final(self) == *old(self),
            r is Ok,
    {
        Ok(())
    }
}

/// Speakers are numbered from zero: the id of number `n` is read as `n`, its
/// letter is the one `n` places behind `A`, and on separate channels the first
/// speaker is the local user and the letters begin with the second. An id of
/// another form has no number.
pub proof fn speakers_are_named_by_number(n: nat)
    requires
        n <= u32::MAX,
    ensures
        speaker_number("speaker_"@ + decimal(n)) == Some(n),
        n < 26 ==> lettered("speaker_"@ + decimal(n), 'A') == seq![(65 + n) as char],
        lettered("speaker_"@ + decimal(n), 'A').len() == 1,
        n >= 26 ==> lettered("speaker_"@ + decimal(n), 'A') == lettered(
            "speaker_"@ + decimal((n - 26) as nat),
            'A',
        ),
        n == 0 ==> channel_label("speaker_"@ + decimal(n)) == "You"@,
        n > 0 ==> channel_label("speaker_"@ + decimal(n)) == lettered(
            "speaker_"@ + decimal((n - 1) as nat),
            'A',
        ),
{
    lemma_speaker_id(n);
    if n >= 26 {
        lemma_speaker_id((n - 26) as nat);
        assert(letter(n) == letter((n - 26) as nat));
    }
    if n > 0 {
        lemma_speaker_id((n - 1) as nat);
    }
}

proof fn lemma_speaker_id(n: nat)
    requires
        n <= u32::MAX,
    ensures
        speaker_number("speaker_"@ + decimal(n)) == Some(n),
{
    let d = decimal(n);
    let id = "speaker_"@ + d;
    crate::text::decimal_round_trip(n);
    assert(crate::text::is_digit(d[0]));
    assert(id.take("speaker_"@.len() as int) =~= "speaker_"@);
    assert(id.skip("speaker_"@.len() as int) =~= d);
}

/// An id that does not begin as those of numbered speakers do stands for the
/// fallback.
pub proof fn other_ids_have_no_number(id: Seq<char>, fallback: char)
    requires
        forall|rest: Seq<char>| id != #[trigger] ("speaker_"@ + rest),
    ensures
        speaker_number(id) is None,
        lettered(id, fallback) == seq![fallback],
        channel_label(id) == "A"@,
{
    if crate::text::starts_with(id, "speaker_"@) {
        let rest = id.skip("speaker_"@.len() as int);
        assert(id =~= "speaker_"@ + rest);
    }
}

/// A transcript keeps each final segment once, in order of arrival, whatever
/// partial ones come between; and a partial one is forgotten as soon as another
/// segment follows it.
pub proof fn partials_leave_no_trace(t: TranscriptView, partial: SegmentView, next: SegmentView)
    requires
        !partial.is_final,
    ensures
        with_segment(t, partial).segments == t.segments,
        with_segment(t, partial).partial == Some(partial),
        with_segment(with_segment(t, partial), next) == with_segment(t, next),
        next.is_final ==> with_segment(t, next).segments == t.segments + seq![next]
            && with_segment(t, next).partial is None,
{
    if next.is_final {
        assert(t.segments.push(next) =~= t.segments + seq![next]);
    }
}

// ---------------------------------------------------------------------------
// What transcripts tell
// ---------------------------------------------------------------------------

proof fn lemma_blanks_append(a: Seq<char>, b: Seq<char>)
    ensures
        blanks(a + b) == blanks(a) + blanks(b),
    decreases b.len(),
{
    if b.len() == 0 {
        assert(a + b =~= a);
    } else {
        assert((a + b).drop_last() =~= a + b.drop_last());
        lemma_blanks_append(a, b.drop_last());
    }
}

proof fn lemma_no_blanks(s: Seq<char>)
    requires
        no_white(s),
    ensures
        blanks(s) == 0,
    decreases s.len(),
{
    if s.len() > 0 {
        assert(!crate::text::is_whitespace(s[s.len() - 1]));
        lemma_no_blanks(s.drop_last());
    }
}

proof fn lemma_blanks_joined(words: Seq<Seq<char>>)
    requires
        words.len() > 0,
        forall|i: int| 0 <= i < words.len() ==> no_white(#[trigger] words[i]),
    ensures
        blanks(joined(words, seq![' '])) == words.len() - 1,
    decreases words.len(),
{
    assert(no_white(words[words.len() - 1]));
    lemma_no_blanks(words.last());
    if words.len() > 1 {
        let front = words.drop_last();
        assert forall|i: int| 0 <= i < front.len() implies no_white(#[trigger] front[i]) by {
            assert(front[i] == words[i]);
        }
        lemma_blanks_joined(front);
        let one = seq![' '];
        assert(one.drop_last() =~= Seq::<char>::empty());
        assert(blanks(Seq::<char>::empty()) == 0);
        assert(blanks(one) == 1);
        lemma_blanks_append(joined(front, one) + one, words.last());
        lemma_blanks_append(joined(front, one), one);
    }
}

/// Words with one blank between each and the next are counted one by one, and
/// whitespace alone holds none.
pub proof fn words_are_counted(words: Seq<Seq<char>>, white: Seq<char>)
    requires
        words.len() > 0,
        forall|i: int| 0 <= i < words.len() ==> no_white(#[trigger] words[i]) && words[i].len() > 0,
        all_white(white),
    ensures
        words_told(joined(words, seq![' '])) == words.len(),
        words_told(white) == 0,
{
    let s = joined(words, seq![' ']);
    lemma_blanks_joined(words);
    lemma_joined_ends(words);
    trimming_strips_both_ends(Seq::empty(), s, Seq::empty());
    assert(Seq::<char>::empty() + s + Seq::<char>::empty() =~= s);
    trimming_strips_both_ends(white, Seq::empty(), Seq::empty());
    assert(white + Seq::<char>::empty() + Seq::<char>::empty() =~= white);
}

proof fn lemma_joined_ends(words: Seq<Seq<char>>)
    requires
        words.len() > 0,
        forall|i: int| 0 <= i < words.len() ==> no_white(#[trigger] words[i]) && words[i].len() > 0,
    ensures
        ({
            let s = joined(words, seq![' ']);
            s.len() > 0 && !crate::text::is_whitespace(s[0]) && !crate::text::is_whitespace(s.last())
        }),
    decreases words.len(),
{
    let last = words[words.len() - 1];
    assert(no_white(last) && last.len() > 0);
    assert(!crate::text::is_whitespace(last[0]) && !crate::text::is_whitespace(last[last.len() - 1]));
    if words.len() > 1 {
        let front = words.drop_last();
        assert forall|i: int| 0 <= i < front.len() implies no_white(#[trigger] front[i])
            && front[i].len() > 0 by {
            assert(front[i] == words[i]);
        }
        lemma_joined_ends(front);
    }
}

/// A segment's place in the text of a transcript: the time at which it starts,
/// in whole seconds, who speaks, and what is said, as it is.
pub proof fn transcripts_tell_who_says_what_when(seg: SegmentView)
    requires
        0 <= seg.start_time,
    ensures
        ({
            let head = seq!['['] + clock((seg.start_time / 1_000_000) as nat) + seq![']', ' '];
            let tail = seq![':', '\n'] + seg.text + seq!['\n', '\n'];
            let text = plain_text(seq![seg]);
            &&& seg.speaker == "You"@ ==> text == head + "You"@ + tail
            &&& seg.speaker.len() == 0 ==> text == head + "Unknown"@ + tail
            &&& seg.speaker.len() == 1 ==> text == head + "Speaker "@ + seg.speaker + tail
        }),
        plain_text(seq![]) == Seq::<char>::empty(),
{
    reveal_strlit("[");
    reveal_strlit("] ");
    reveal_strlit(":\n");
    reveal_strlit("\n\n");
    reveal_strlit("You");
    assert("["@ =~= seq!['[']);
    assert("] "@ =~= seq![']', ' ']);
    assert(":\n"@ =~= seq![':', '\n']);
    assert("\n\n"@ =~= seq!['\n', '\n']);
    let one = seq![seg];
    assert(one.drop_last() =~= Seq::<SegmentView>::empty());
    assert(plain_text(Seq::<SegmentView>::empty()) =~= Seq::<char>::empty());
    assert(plain_text(one) =~= segment_text(seg));
    let head = seq!['['] + clock((seg.start_time / 1_000_000) as nat) + seq![']', ' '];
    let tail = seq![':', '\n'] + seg.text + seq!['\n', '\n'];
    assert(segment_text(seg) =~= head + speaker_label(seg.speaker) + tail);
    if seg.speaker.len() == 1 {
        assert(seg.speaker != "You"@);
        assert(head + ("Speaker "@ + seg.speaker) + tail =~= head + "Speaker "@ + seg.speaker
            + tail);
    }
}

/// Providers go by their names; any other name stands for the default.
pub proof fn providers_go_by_their_names(name: Seq<char>)
    ensures
        provider_named("assemblyai"@) is AssemblyAi,
        provider_named("elevenlabs"@) is ElevenLabs,
        provider_named("whisper"@) is Whisper,
        provider_named("parakeet"@) is Parakeet,
        name != "elevenlabs"@ && name != "whisper"@ && name != "parakeet"@ ==> provider_named(
            name,
        ) is AssemblyAi,
{
    reveal_strlit("assemblyai");
    reveal_strlit("elevenlabs");
    reveal_strlit("whisper");
    reveal_strlit("parakeet");
    assert("assemblyai"@[0] == 'a' && "elevenlabs"@[0] == 'e' && "whisper"@[0] == 'w'
        && "parakeet"@[0] == 'p');
}

} // verus!
