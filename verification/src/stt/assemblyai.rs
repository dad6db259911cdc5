//! Streaming transcription over the AssemblyAI realtime websocket.

use super::{
    letter, letter_string, lettered, parse_speaker, speaker_number, speakers_are_named_by_number,
    with_segment, Segment, SegmentView, TranscriptView,
};
use crate::audio::pcm::toward_zero;
use crate::json::{
    bool_field, field, field_of, get_bool, get_scaled, get_text, get_text_or_empty, get_unsigned,
    json_parsed, read_json, scaled_field, text_field, text_or_empty, unsigned_field,
    whole_numbers_scale, Json, JsonView,
};
use crate::text::{concat2, decimal, decimal_round_trip, decimal_string, owned, same};
use crate::time::Stamp;
use vstd::prelude::*;

verus! {

broadcast use vstd::string::group_string_axioms;

/// The address to connect to.
pub open spec fn socket_url(sample_rate: nat, model: Seq<char>) -> Seq<char> {
    "wss://streaming.assemblyai.com/v3/ws"@ + "?sample_rate="@ + decimal(sample_rate)
        + "&encoding=pcm_s16le&speech_model="@ + model + "&diarization=true"@
}

/// The address to connect to.
pub fn connect_url(sample_rate: u32, model: &str) -> (r: String)
    ensures
        r@ == socket_url(sample_rate as nat, model@),
{
    let mut url = concat2("wss://streaming.assemblyai.com/v3/ws", "?sample_rate=");
    url.append(decimal_string(sample_rate as u64).as_str());
    url.append("&encoding=pcm_s16le&speech_model=");
    url.append(model);
    url.append("&diarization=true");
    url
}

// ---------------------------------------------------------------------------
// Messages
// ---------------------------------------------------------------------------

/// What a message from the provider brings.
#[derive(Debug)]
pub enum SttEvent {
    Nothing,
    Segment(Segment),
    Error(String),
}

/// The contents of an [`SttEvent`].
pub enum SttEventView {
    Nothing,
    Segment(SegmentView),
    Error(Seq<char>),
}

impl View for SttEvent {
    type V = SttEventView;

    open spec fn view(&self) -> SttEventView {
        match self {
            SttEvent::Nothing => SttEventView::Nothing,
            SttEvent::Segment(s) => SttEventView::Segment(s@),
            SttEvent::Error(e) => SttEventView::Error(e@),
        }
    }
}

/// The words of a turn, if it lists any.
pub open spec fn turn_words(turn: JsonView) -> Seq<JsonView> {
    match field_of(turn, "words"@) {
        Some(JsonView::Array(items)) => items,
        _ => seq![],
    }
}

/// The sum of the words' confidences, in millionths; a word without one counts
/// as certain.
pub open spec fn confidence_sum(words: Seq<JsonView>) -> int
    decreases words.len(),
{
    if words.len() == 0 {
        0
    } else {
        confidence_sum(words.drop_last()) + scaled_field(
            words.last(),
            "confidence"@,
            6,
            1_000_000,
        )
    }
}

/// The speaker of a turn: the letter of its first word's speaker, else that of
/// the turn's place in order.
pub open spec fn turn_speaker(turn: JsonView) -> char {
    let order: nat = match unsigned_field(turn, "turn_order"@) {
        Some(n) => n,
        None => 0,
    };
    let words = turn_words(turn);
    let named = if words.len() > 0 {
        match text_field(words[0], "speaker"@) {
            Some(id) => speaker_number(id),
            None => None,
        }
    } else {
        None
    };
    match named {
        Some(n) => letter(n),
        None => letter(order),
    }
}

/// The segment of a turn; none where its transcript is empty. The words' times
/// come in milliseconds.
pub open spec fn turn_segment(turn: JsonView, now: Stamp) -> Option<SegmentView> {
    let transcript = text_or_empty(turn, "transcript"@);
    let words = turn_words(turn);
    if transcript.len() == 0 {
        None
    } else {
        Some(
            SegmentView {
                text: transcript,
                speaker: seq![turn_speaker(turn)],
                start_time: if words.len() > 0 {
                    scaled_field(words[0], "start"@, 3, 0)
                } else {
                    0
                },
                end_time: if words.len() > 0 {
                    scaled_field(words.last(), "end"@, 3, 0)
                } else {
                    0
                },
                confidence: if words.len() > 0 {
                    toward_zero(confidence_sum(words), words.len() as int)
                } else {
                    1_000_000
                },
                is_final: match bool_field(turn, "end_of_turn"@) {
                    Some(b) => b,
                    None => false,
                },
                created_at: now,
            },
        )
    }
}

/// What a message brings: a turn its segment, an error its description, and any
/// other kind nothing.
pub open spec fn message_event(msg: JsonView, now: Stamp) -> SttEventView {
    match text_field(msg, "type"@) {
        Some(kind) => if kind == "Turn"@ {
            match turn_segment(msg, now) {
                Some(s) => SttEventView::Segment(s),
                None => SttEventView::Nothing,
            }
        } else if kind == "Error"@ {
            SttEventView::Error(
                "assemblyai: "@ + (match text_field(msg, "error"@) {
                    Some(detail) => detail,
                    None => "unknown error"@,
                }),
            )
        } else {
            SttEventView::Nothing
        },
        None => SttEventView::Nothing,
    }
}

fn mean_confidence(words: &Vec<Json>, Ghost(views): Ghost<Seq<JsonView>>) -> (r: i64)
    requires
        words@.len() > 0,
        views.len() == words@.len(),
        forall|i: int| 0 <= i < views.len() ==> views[i] == (#[trigger] words@[i])@,
    ensures
        r == toward_zero(confidence_sum(views), views.len() as int),
{
    let mut sum: i128 = 0;
    let mut i: usize = 0;
    assert(views.take(0) =~= Seq::<JsonView>::empty());
    while i < words.len()
        invariant
            i <= words@.len(),
            views.len() == words@.len(),
            forall|i: int| 0 <= i < views.len() ==> views[i] == (#[trigger] words@[i])@,
            sum == confidence_sum(views.take(i as int)),
            -(i * 0x8000_0000_0000_0000) <= sum <= i * 0x7fff_ffff_ffff_ffff,
        decreases words@.len() - i,
    {
        assert(views.take(i + 1).drop_last() =~= views.take(i as int));
        assert(views.take(i + 1).last() == words@[i as int]@);
        sum = sum + get_scaled(&words[i], "confidence", 6, 1_000_000) as i128;
        i += 1;
    }
    assert(views.take(i as int) =~= views);
    let n: i128 = words.len() as i128;
    if sum >= 0 {
        let q: i128 = sum / n;
        assert(q <= 0x7fff_ffff_ffff_ffff) by (nonlinear_arith)
            requires
                q == sum as int / n as int,
                n > 0,
                0 <= sum <= n * 0x7fff_ffff_ffff_ffff,
        ;
        q as i64
    } else {
        let m: i128 = -sum;
        let q: i128 = m / n;
        assert(0 <= q <= 0x8000_0000_0000_0000) by (nonlinear_arith)
            requires
                q == m as int / n as int,
                n > 0,
                0 <= m <= n * 0x8000_0000_0000_0000,
        ;
        (-q) as i64
    }
}

/// Reads a turn.
pub fn handle_turn(turn: &Json, now: Stamp) -> (r: Option<Segment>)
    ensures
        r is Some <==> turn_segment(turn@, now) is Some,
        r matches Some(s) ==> s@ == turn_segment(turn@, now)->0,
{
    let transcript = get_text_or_empty(turn, "transcript");
    if transcript.as_str().unicode_len() == 0 {
        return None;
    }
    let order: u64 = match get_unsigned(turn, "turn_order") {
        Some(n) => n,
        None => 0,
    };
    let is_final = match get_bool(turn, "end_of_turn") {
        Some(b) => b,
        None => false,
    };
    let mut start_time: i64 = 0;
    let mut end_time: i64 = 0;
    let mut confidence: i64 = 1_000_000;
    let mut speaker = letter_string(order);
    if let Some(Json::Array(words)) = field(turn, "words") {
        let ghost views = turn_words(turn@);
        assert(views.len() == words@.len());
        assert(forall|i: int| 0 <= i < views.len() ==> views[i] == (#[trigger] words@[i])@);
        if words.len() > 0 {
            start_time = get_scaled(&words[0], "start", 3, 0);
            end_time = get_scaled(&words[words.len() - 1], "end", 3, 0);
            confidence = mean_confidence(words, Ghost(views));
            if let Some(id) = get_text(&words[0], "speaker") {
                if let Some(n) = parse_speaker(id.as_str()) {
                    speaker = letter_string(n as u64);
                }
            }
        }
    }
    Some(
        Segment {
            text: transcript,
            speaker,
            start_time,
            end_time,
            confidence,
            is_final,
            created_at: now,
        },
    )
}

/// Reads a parsed message.
pub fn read_message(msg: &Json, now: Stamp) -> (r: SttEvent)
    ensures
        r@ == message_event(msg@, now),
{
    match get_text(msg, "type") {
        Some(kind) => if same(kind.as_str(), "Turn") {
            match handle_turn(msg, now) {
                Some(s) => SttEvent::Segment(s),
                None => SttEvent::Nothing,
            }
        } else if same(kind.as_str(), "Error") {
            let detail = match get_text(msg, "error") {
                Some(d) => d,
                None => owned("unknown error"),
            };
            SttEvent::Error(concat2("assemblyai: ", detail.as_str()))
        } else {
            SttEvent::Nothing
        },
        None => SttEvent::Nothing,
    }
}

/// Reads a message as it came; what is not JSON brings nothing.
pub fn handle_message(text: &str, now: Stamp) -> (r: SttEvent)
    ensures
        r@ == (match json_parsed(text@) {
            Some(msg) => message_event(msg, now),
            None => SttEventView::Nothing,
        }),
{
    match read_json(text) {
        Some(msg) => read_message(&msg, now),
        None => SttEvent::Nothing,
    }
}

// ---------------------------------------------------------------------------
// The socket's owner
// ---------------------------------------------------------------------------

/// What the queue of outgoing commands holds next.
#[derive(Debug, Clone, Copy, PartialEq, Eq, Structural)]
pub enum Outgoing {
    Audio,
    Terminate,
    /// Nothing for now.
    Empty,
    /// Nothing anymore: nobody can send.
    Gone,
}

/// What the owner of the socket does with a command.
#[derive(Debug, Clone, Copy, PartialEq, Eq, Structural)]
pub enum CommandStep {
    /// Send the audio and look for the next command.
    SendAudio,
    /// Send the termination message, give it time to arrive, close the socket
    /// and look for the next command.
    SendTerminate,
    /// Close the socket, then read from it.
    CloseAndRead,
    /// Read from the socket.
    Read,
}

/// What reading from the socket gave.
#[derive(Debug, Clone, Copy, PartialEq, Eq, Structural)]
pub enum Incoming {
    Text,
    Close,
    Other,
    /// Nothing within the time allowed.
    Timeout,
    /// The connection is gone.
    Gone,
    /// Reading failed.
    Failed,
}

/// What the owner of the socket does after reading.
#[derive(Debug, Clone, Copy, PartialEq, Eq, Structural)]
pub enum ReadStep {
    /// Handle the message, then go on.
    Handle,
    /// Go on.
    Continue,
    /// Stop.
    Stop,
    /// Report the failure and stop.
    Report,
}

/// What to do with a command, and whether the session is being terminated
/// afterwards.
pub fn on_command(terminating: bool, command: Outgoing) -> (r: (CommandStep, bool))
    ensures
        r.0 == (match command {
            Outgoing::Audio => CommandStep::SendAudio,
            Outgoing::Terminate => CommandStep::SendTerminate,
            Outgoing::Empty => CommandStep::Read,
            Outgoing::Gone => if terminating {
                CommandStep::Read
            } else {
                CommandStep::CloseAndRead
            },
        }),
        r.1 == (terminating || command is Terminate || command is Gone),
{
    match command {
        Outgoing::Audio => (CommandStep::SendAudio, terminating),
        Outgoing::Terminate => (CommandStep::SendTerminate, true),
        Outgoing::Empty => (CommandStep::Read, terminating),
        Outgoing::Gone => if terminating {
            (CommandStep::Read, true)
        } else {
            (CommandStep::CloseAndRead, true)
        },
    }
}

/// What to do after reading: a quiet socket is waited for, unless the session
/// is being terminated; then a failure is not reported either.
pub fn on_read(terminating: bool, incoming: Incoming) -> (r: ReadStep)
    ensures
        r == (match incoming {
            Incoming::Text => ReadStep::Handle,
            Incoming::Close => ReadStep::Stop,
            Incoming::Other => ReadStep::Continue,
            Incoming::Timeout => if terminating {
                ReadStep::Stop
            } else {
                ReadStep::Continue
            },
            Incoming::Gone => ReadStep::Stop,
            Incoming::Failed => if terminating {
                ReadStep::Stop
            } else {
                ReadStep::Report
            },
        }),
{
    match incoming {
        Incoming::Text => ReadStep::Handle,
        Incoming::Close => ReadStep::Stop,
        Incoming::Other => ReadStep::Continue,
        Incoming::Timeout => if terminating {
            ReadStep::Stop
        } else {
            ReadStep::Continue
        },
        Incoming::Gone => ReadStep::Stop,
        Incoming::Failed => if terminating {
            ReadStep::Stop
        } else {
            ReadStep::Report
        },
    }
}

/// The notice of a failure to read.
pub fn read_failure(e: &str) -> (r: String)
    ensures
        r@ == "assemblyai: "@ + e@,
{
    concat2("assemblyai: ", e)
}

// ---------------------------------------------------------------------------
// The client
// ---------------------------------------------------------------------------

/// A client of the provider: what it connects with, whether the connection
/// stands, and whether commands can be queued for it.
#[derive(Debug)]
pub struct AssemblyAiClient {
    pub api_key: String,
    pub sample_rate: u32,
    pub model: String,
    pub connected: bool,
    pub queue_open: bool,
}

impl AssemblyAiClient {
    /// A client that is not connected.
    pub fn new(api_key: &str, sample_rate: u32, model: &str) -> (r: AssemblyAiClient)
        ensures
            r.api_key@ == api_key@,
            r.sample_rate == sample_rate,
            r.model@ == model@,
            !r.connected,
            !r.queue_open,
    {
        AssemblyAiClient {
            api_key: owned(api_key),
            sample_rate,
            model: owned(model),
            connected: false,
            queue_open: false,
        }
    }

    /// The address to connect to.
    pub fn url(&self) -> (r: String)
        ensures
            r@ == socket_url(self.sample_rate as nat, self.model@),
    {
        connect_url(self.sample_rate, self.model.as_str())
    }

    /// The connection stands.
    pub fn opened(&mut self)
        ensures
            *final(self) == (AssemblyAiClient { connected: true, queue_open: true, ..*old(self) }),
    {
        self.connected = true;
        self.queue_open = true;
    }

    /// The connection was lost.
    pub fn lost(&mut self)
        ensures
            *final(self) == (AssemblyAiClient { connected: false, ..*old(self) }),
    {
        self.connected = false;
    }

    /// Whether audio is queued for sending; without a connection it is dropped.
    pub fn sends(&self) -> (r: bool)
        ensures
            r == (self.connected && self.queue_open),
    {
        self.connected && self.queue_open
    }

    /// Closes the connection; tells whether the provider is told first.
    pub fn close(&mut self) -> (r: bool)
        ensures
            *final(self) == (AssemblyAiClient { connected: false, queue_open: false, ..*old(self) }),
            r == old(self).queue_open,
    {
        let open = self.queue_open;
        self.queue_open = false;
        self.connected = false;
        open
    }
}

// ---------------------------------------------------------------------------
// What turns bring
// ---------------------------------------------------------------------------

/// A turn with a transcript brings one segment with that transcript. The segment
/// is final if and only if the turn says that it has ended; a turn that does not
/// say so is still being spoken. A turn without a transcript brings nothing.
pub proof fn turns_are_final_when_ended(msg: JsonView, now: Stamp)
    requires
        field_of(msg, "type"@) == Some(JsonView::Text("Turn"@)),
    ensures
        message_event(msg, now) is Segment <==> (field_of(msg, "transcript"@) matches Some(
            JsonView::Text(t),
        ) && t.len() > 0),
        !(message_event(msg, now) is Segment) ==> message_event(msg, now) is Nothing,
        message_event(msg, now) matches SttEventView::Segment(s) ==> {
            &&& field_of(msg, "transcript"@) == Some(JsonView::Text(s.text))
            &&& s.text.len() > 0
            &&& s.is_final <==> field_of(msg, "end_of_turn"@) == Some(JsonView::Bool(true))
            &&& s.created_at == now
        },
{
}

/// The segment of a turn lasts from the start of its first word to the end of
/// its last one. The words' times are milliseconds, those of the segment
/// microseconds.
pub proof fn turns_last_from_first_to_last_word(
    msg: JsonView,
    now: Stamp,
    words: Seq<JsonView>,
    start: nat,
    end: nat,
)
    requires
        field_of(msg, "type"@) == Some(JsonView::Text("Turn"@)),
        message_event(msg, now) is Segment,
        field_of(msg, "words"@) == Some(JsonView::Array(words)),
        words.len() > 0,
        field_of(words[0], "start"@) == Some(JsonView::Number(decimal(start))),
        field_of(words[words.len() - 1], "end"@) == Some(JsonView::Number(decimal(end))),
        1000 * start <= i64::MAX,
        1000 * end <= i64::MAX,
    ensures
        message_event(msg, now)->Segment_0.start_time == 1000 * start,
        message_event(msg, now)->Segment_0.end_time == 1000 * end,
{
    whole_numbers_scale(start);
    whole_numbers_scale(end);
}

/// The speaker of a turn is that of its first word, where the word names one by
/// number; else it goes by the turn's place in order.
pub proof fn turns_are_spoken_by_their_first_word(
    msg: JsonView,
    now: Stamp,
    words: Seq<JsonView>,
    n: nat,
)
    requires
        field_of(msg, "type"@) == Some(JsonView::Text("Turn"@)),
        message_event(msg, now) is Segment,
        field_of(msg, "words"@) == Some(JsonView::Array(words)),
        words.len() > 0,
        n <= u32::MAX,
    ensures
        field_of(words[0], "speaker"@) == Some(JsonView::Text("speaker_"@ + decimal(n)))
            ==> message_event(msg, now)->Segment_0.speaker == lettered(
            "speaker_"@ + decimal(n),
            'A',
        ),
        field_of(words[0], "speaker"@) is None && field_of(msg, "turn_order"@) == Some(
            JsonView::Number(decimal(n)),
        ) ==> message_event(msg, now)->Segment_0.speaker == lettered(
            "speaker_"@ + decimal(n),
            'A',
        ),
        field_of(words[0], "speaker"@) is None && field_of(msg, "turn_order"@) is None
            ==> message_event(msg, now)->Segment_0.speaker == seq!['A'],
{
    speakers_are_named_by_number(n);
    decimal_round_trip(n);
    assert(letter(0) == 'A');
}

/// The confidence of a turn is the mean of its words' confidences, without what
/// is left over of a millionth. `sums` are the running sums of the confidences.
pub proof fn turns_are_as_sure_as_their_words(
    msg: JsonView,
    now: Stamp,
    words: Seq<JsonView>,
    sums: Seq<int>,
)
    requires
        field_of(msg, "type"@) == Some(JsonView::Text("Turn"@)),
        message_event(msg, now) is Segment,
        field_of(msg, "words"@) == Some(JsonView::Array(words)),
        words.len() > 0,
        sums.len() == words.len() + 1,
        sums[0] == 0,
        forall|i: int|
            0 <= i < words.len() ==> sums[i + 1] - sums[i] == scaled_field(
                #[trigger] words[i],
                "confidence"@,
                6,
                1_000_000,
            ),
        sums[words.len() as int] >= 0,
    ensures
        ({
            let c = message_event(msg, now)->Segment_0.confidence;
            c * words.len() <= sums[words.len() as int] < (c + 1) * words.len()
        }),
{
    lemma_running_sums(words, sums);
    let total = sums[words.len() as int];
    let n = words.len() as int;
    assert((total / n) * n <= total < (total / n + 1) * n) by (nonlinear_arith)
        requires
            n > 0,
            total >= 0,
    ;
}

proof fn lemma_running_sums(words: Seq<JsonView>, sums: Seq<int>)
    requires
        sums.len() == words.len() + 1,
        sums[0] == 0,
        forall|i: int|
            0 <= i < words.len() ==> sums[i + 1] - sums[i] == scaled_field(
                #[trigger] words[i],
                "confidence"@,
                6,
                1_000_000,
            ),
    ensures
        confidence_sum(words) == sums[words.len() as int],
    decreases words.len(),
{
    if words.len() > 0 {
        let front = words.drop_last();
        let before = sums.drop_last();
        assert forall|i: int| 0 <= i < front.len() implies before[i + 1] - before[i]
            == scaled_field(#[trigger] front[i], "confidence"@, 6, 1_000_000) by {
            assert(front[i] == words[i]);
        }
        lemma_running_sums(front, before);
        assert(words[words.len() - 1] == words.last());
    }
}

/// A turn without words lies at the start and counts as certain, and its
/// speaker goes by its place in order.
pub proof fn turns_without_words_are_certain(msg: JsonView, now: Stamp, n: nat)
    requires
        field_of(msg, "type"@) == Some(JsonView::Text("Turn"@)),
        message_event(msg, now) is Segment,
        field_of(msg, "words"@) is None || field_of(msg, "words"@) == Some(
            JsonView::Array(seq![]),
        ),
        n <= u32::MAX,
    ensures
        message_event(msg, now)->Segment_0.start_time == 0,
        message_event(msg, now)->Segment_0.end_time == 0,
        message_event(msg, now)->Segment_0.confidence == 1_000_000,
        field_of(msg, "turn_order"@) == Some(JsonView::Number(decimal(n))) ==> message_event(
            msg,
            now,
        )->Segment_0.speaker == lettered("speaker_"@ + decimal(n), 'A'),
{
    speakers_are_named_by_number(n);
    decimal_round_trip(n);
}

/// An error is told with what the provider says of it; a message of any other
/// kind than a turn or an error brings nothing.
pub proof fn only_turns_and_errors_tell(msg: JsonView, now: Stamp)
    ensures
        message_event(msg, now) is Error <==> field_of(msg, "type"@) == Some(
            JsonView::Text("Error"@),
        ),
        message_event(msg, now) is Segment ==> field_of(msg, "type"@) == Some(
            JsonView::Text("Turn"@),
        ),
        message_event(msg, now) is Error ==> (field_of(msg, "error"@) matches Some(
            JsonView::Text(detail),
        ) ==> message_event(msg, now)->Error_0 == "assemblyai: "@ + detail),
{
    reveal_strlit("Turn");
    reveal_strlit("Error");
    assert("Turn"@.len() != "Error"@.len());
}

/// A turn as it is spoken leaves one final segment in a transcript: however many
/// hypotheses come before its end, the transcript is as if they had not come.
pub proof fn turns_are_kept_once(t: TranscriptView, running: JsonView, ended: JsonView, now: Stamp)
    requires
        field_of(running, "type"@) == Some(JsonView::Text("Turn"@)),
        field_of(ended, "type"@) == Some(JsonView::Text("Turn"@)),
        field_of(running, "end_of_turn"@) != Some(JsonView::Bool(true)),
        field_of(ended, "end_of_turn"@) == Some(JsonView::Bool(true)),
        message_event(running, now) is Segment,
        message_event(ended, now) is Segment,
    ensures
        ({
            let hypothesis = message_event(running, now)->Segment_0;
            let turn = message_event(ended, now)->Segment_0;
            &&& with_segment(t, hypothesis).segments == t.segments
            &&& with_segment(with_segment(t, hypothesis), turn).segments == t.segments.push(turn)
            &&& with_segment(with_segment(t, hypothesis), turn).partial is None
        }),
{
}

/// The stream is asked for with the rate of the audio, the chosen model and, last,
/// the distinction of speakers.
pub proof fn streams_are_asked_for_with_speakers(sample_rate: nat, model: Seq<char>)
    ensures
        ({
            let url = socket_url(sample_rate, model);
            let tail = model + "&diarization=true"@;
            let head = "wss://streaming.assemblyai.com/v3/ws?sample_rate="@ + decimal(sample_rate);
            &&& url.take(head.len() as int) == head
            &&& url.skip(url.len() - tail.len()) == tail
        }),
{
    let url = socket_url(sample_rate, model);
    let tail = model + "&diarization=true"@;
    lemma_socket_head();
    let head = "wss://streaming.assemblyai.com/v3/ws?sample_rate="@ + decimal(sample_rate);
    let rest = "&encoding=pcm_s16le&speech_model="@ + tail;
    assert(url =~= head + rest);
    assert(url.take(head.len() as int) =~= head);
    assert(url.skip(url.len() - tail.len()) =~= tail);
}

proof fn lemma_socket_head()
    ensures
        "wss://streaming.assemblyai.com/v3/ws"@ + "?sample_rate="@
            == "wss://streaming.assemblyai.com/v3/ws?sample_rate="@,
{
    reveal_strlit("wss://streaming.assemblyai.com/v3/ws");
    reveal_strlit("?sample_rate=");
    reveal_strlit("wss://streaming.assemblyai.com/v3/ws?sample_rate=");
    assert("wss://streaming.assemblyai.com/v3/ws"@ + "?sample_rate="@
        =~= "wss://streaming.assemblyai.com/v3/ws?sample_rate="@);
}

} // verus!
