//! What is decided outside the terminal interface: command-line overrides,
//! checks of the capture, and what is done with files and crashed recordings.

use crate::audio::pcm::{calc_level, level_of};
use crate::config::{Config, ConfigView};
use crate::paths::{file_stem, stem_of};
use crate::text::{concat2, decimal, decimal_string, opt_text, owned, trim, trimmed};
use vstd::prelude::*;

verus! {

broadcast use vstd::string::group_string_axioms;

/// The settings with what the command line overrides: the directory if one is
/// given, the microphone if its index is not negative.
pub fn override_config(cfg: Config, sessions_dir: Option<String>, device: i32) -> (r: Config)
    ensures
        r@ == (ConfigView {
            sessions_dir: match opt_text(sessions_dir) {
                Some(dir) => dir,
                None => cfg@.sessions_dir,
            },
            audio_device: if device >= 0 {
                device as int
            } else {
                cfg@.audio_device
            },
            ..cfg@
        }),
{
    let mut cfg = cfg;
    if let Some(dir) = sessions_dir {
        cfg.sessions_dir = dir;
    }
    if device >= 0 {
        cfg.audio_device = device;
    }
    cfg
}

/// The name of a session made of a file: the one that was given, else the
/// file's, else a general one.
pub open spec fn file_session(name: Option<Seq<char>>, path: Seq<char>) -> Seq<char> {
    match name {
        Some(n) => n,
        None => match stem_of(path) {
            Some(s) => s,
            None => "recording"@,
        },
    }
}

/// The name of a session made of a file.
pub fn session_name(name: Option<String>, path: &str) -> (r: String)
    ensures
        r@ == file_session(opt_text(name), path@),
{
    match name {
        Some(n) => n,
        None => match file_stem(path) {
            Some(s) => s,
            None => owned("recording"),
        },
    }
}

/// Whether a title and a summary are generated for a saved transcript.
pub fn wants_meta(api_key: &str, transcript: &str) -> (r: bool)
    ensures
        r == (api_key@.len() > 0 && trimmed(transcript@).len() > 0),
{
    api_key.unicode_len() > 0 && trim(transcript).as_str().unicode_len() > 0
}

/// What the user is told of crashed recordings, if there are any.
pub open spec fn pending_text(pending: nat) -> Option<Seq<char>> {
    if pending == 0 {
        None
    } else {
        Some(
            decimal(pending) + " crashed recording(s) found \u{2014} run: yogurt --recover"@,
        )
    }
}

/// What the user is told of crashed recordings, if there are any.
pub fn pending_notice(pending: usize) -> (r: Option<String>)
    ensures
        opt_text(r) == pending_text(pending as nat),
{
    if pending == 0 {
        return None;
    }
    Some(
        concat2(
            decimal_string(pending as u64).as_str(),
            " crashed recording(s) found \u{2014} run: yogurt --recover",
        ),
    )
}

/// What is being checked.
#[derive(Debug, Clone, Copy, PartialEq, Eq, Structural)]
pub enum Checked {
    Microphone,
    SystemAudio,
}

/// A check of a capture: how much came and how loud it was at most, in parts of
/// full scale.
#[derive(Debug)]
pub struct CaptureCheck {
    pub bytes: usize,
    pub peak: u32,
}

/// The bytes of the chunks.
pub open spec fn bytes_in(chunks: Seq<Seq<u8>>) -> nat
    decreases chunks.len(),
{
    if chunks.len() == 0 {
        0
    } else {
        bytes_in(chunks.drop_last()) + chunks.last().len()
    }
}

/// The highest level of the chunks.
pub open spec fn peak_in(chunks: Seq<Seq<u8>>) -> int
    decreases chunks.len(),
{
    if chunks.len() == 0 {
        0
    } else if level_of(chunks.last()) > peak_in(chunks.drop_last()) {
        level_of(chunks.last())
    } else {
        peak_in(chunks.drop_last())
    }
}

/// Whether a check has seen these chunks.
pub open spec fn has_seen(c: CaptureCheck, chunks: Seq<Seq<u8>>) -> bool {
    c.bytes == bytes_in(chunks) && c.peak == peak_in(chunks)
}

/// What the user is told where nothing was captured.
pub open spec fn nothing_captured(what: Checked) -> Seq<char> {
    match what {
        Checked::Microphone => "no audio captured \u{2014} check mic permission and device"@,
        Checked::SystemAudio =>
            "no system audio captured \u{2014} check the System Audio Recording permission"@,
    }
}

impl CaptureCheck {
    /// A check that has seen nothing.
    pub fn new() -> (r: CaptureCheck)
        ensures
            has_seen(r, seq![]),
    {
        CaptureCheck { bytes: 0, peak: 0 }
    }

    /// Takes a chunk of audio.
    pub fn on_chunk(&mut self, chunk: &[u8])
        requires
            old(self).bytes + chunk@.len() <= usize::MAX,
        ensures
            forall|chunks: Seq<Seq<u8>>|
                has_seen(*old(self), chunks) ==> #[trigger] has_seen(
                    *final(self),
                    chunks.push(chunk@),
                ),
            final(self).bytes == old(self).bytes + chunk@.len(),
            final(self).peak == (if level_of(chunk@) > old(self).peak {
                level_of(chunk@)
            } else {
                old(self).peak as int
            }),
    {
        let level = calc_level(chunk);
        self.bytes = self.bytes + chunk.len();
        if level > self.peak {
            self.peak = level;
        }
        assert forall|chunks: Seq<Seq<u8>>| has_seen(*old(self), chunks) implies #[trigger] has_seen(
            *self,
            chunks.push(chunk@),
        ) by {
            assert(chunks.push(chunk@).drop_last() =~= chunks);
        }
    }

    /// Whether the capture works; it does not where nothing came.
    pub fn verdict(&self, what: Checked) -> (r: Result<(), String>)
        ensures
            r is Err <==> self.bytes == 0,
            r matches Err(e) ==> e@ == nothing_captured(what),
    {
        if self.bytes > 0 {
            return Ok(());
        }
        match what {
            Checked::Microphone => Err(
                owned("no audio captured \u{2014} check mic permission and device"),
            ),
            Checked::SystemAudio => Err(
                owned(
                    "no system audio captured \u{2014} check the System Audio Recording permission",
                ),
            ),
        }
    }
}

/// A check tells how many bytes came, and the highest level of any chunk: it is
/// reached by one of them and exceeded by none.
pub proof fn checks_tell_bytes_and_peak(chunks: Seq<Seq<u8>>, i: int)
    requires
        0 <= i < chunks.len(),
    ensures
        level_of(chunks[i]) <= peak_in(chunks),
        peak_in(chunks) > 0 ==> exists|k: int|
            0 <= k < chunks.len() && level_of(#[trigger] chunks[k]) == peak_in(chunks),
        bytes_in(chunks) >= chunks[i].len(),
        bytes_in(chunks) == chunks.map_values(|c: Seq<u8>| c.len() as int).fold_left(
            0int,
            |a: int, n: int| a + n,
        ),
{
    lemma_bytes(chunks);
    lemma_peak_in(chunks, i);
    lemma_bytes_bound(chunks, i);
}

proof fn lemma_bytes_bound(chunks: Seq<Seq<u8>>, i: int)
    requires
        0 <= i < chunks.len(),
    ensures
        bytes_in(chunks) >= chunks[i].len(),
    decreases chunks.len(),
{
    if i < chunks.len() - 1 {
        lemma_bytes_bound(chunks.drop_last(), i);
    }
}

proof fn lemma_bytes(chunks: Seq<Seq<u8>>)
    ensures
        bytes_in(chunks) == chunks.map_values(|c: Seq<u8>| c.len() as int).fold_left(
            0int,
            |a: int, n: int| a + n,
        ),
    decreases chunks.len(),
{
    let lens = chunks.map_values(|c: Seq<u8>| c.len() as int);
    if chunks.len() > 0 {
        let front = chunks.drop_last();
        lemma_bytes(front);
        assert(lens.drop_last() =~= front.map_values(|c: Seq<u8>| c.len() as int));
    }
}

proof fn lemma_peak_in(chunks: Seq<Seq<u8>>, i: int)
    requires
        0 <= i < chunks.len(),
    ensures
        level_of(chunks[i]) <= peak_in(chunks),
        peak_in(chunks) > 0 ==> exists|k: int|
            0 <= k < chunks.len() && level_of(#[trigger] chunks[k]) == peak_in(chunks),
    decreases chunks.len(),
{
    let front = chunks.drop_last();
    let last = chunks.len() - 1;
    if front.len() > 0 {
        let j = if i < last {
            i
        } else {
            0
        };
        lemma_peak_in(front, j);
        assert(front[j] == chunks[j]);
    }
    if peak_in(chunks) > 0 {
        if level_of(chunks.last()) > peak_in(front) {
            assert(level_of(chunks[last]) == peak_in(chunks));
        } else {
            assert(front.len() > 0);
            let k = choose|k: int|
                0 <= k < front.len() && level_of(#[trigger] front[k]) == peak_in(front);
            assert(level_of(chunks[k]) == peak_in(chunks));
        }
    }
}

/// A session made of a file has the name that was given, else the file's name
/// without its extension.
pub proof fn files_give_sessions_their_name(given: Seq<char>, stem: Seq<char>, ext: Seq<char>)
    requires
        stem.len() > 0,
        !stem.contains('/'),
        !stem.contains('.'),
        !ext.contains('/'),
        !ext.contains('.'),
    ensures
        file_session(Some(given), stem + seq!['.'] + ext) == given,
        file_session(None, stem + seq!['.'] + ext) == stem,
{
    reveal_strlit("..");
    assert(stem + seq!['.'] + ext != ".."@) by {
        if stem + seq!['.'] + ext == ".."@ {
            assert((stem + seq!['.'] + ext)[0] == '.');
            assert(stem[0] == '.');
        }
    }
    reveal_strlit(".");
    assert(stem != "."@) by {
        if stem == "."@ {
            assert(stem[0] == '.');
        }
    }
    crate::paths::extensions_stand_behind_the_last_dot(stem, ext);
}

/// Crashed recordings are announced with their number, and only where there are
/// any.
pub proof fn crashes_are_announced_with_their_number(n: nat)
    ensures
        pending_text(n) is Some <==> n > 0,
        n > 0 ==> decimal(n).is_prefix_of(pending_text(n)->0),
{
    if n > 0 {
        let p = pending_text(n)->0;
        assert(p.take(decimal(n).len() as int) =~= decimal(n));
    }
}

} // verus!
