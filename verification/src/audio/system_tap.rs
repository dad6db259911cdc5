//! System-audio capture through a process tap and a private aggregate device:
//! in which order the parts are made, and what is undone where one fails.

use crate::text::concat3;
use crate::time::{signed_decimal, signed_string};
use vstd::prelude::*;

verus! {

broadcast use vstd::string::group_string_axioms;

/// A call to the system's audio layer.
#[derive(Debug, Clone, Copy, PartialEq, Eq, Structural)]
pub enum TapCall {
    CreateTap,
    QueryFormat,
    CreateDevice,
    CreateProc,
    Start,
    Stop,
    DestroyProc,
    DestroyDevice,
    DestroyTap,
}

/// The calls that start the capture, in order.
pub open spec fn starting_calls() -> Seq<TapCall> {
    seq![
        TapCall::CreateTap,
        TapCall::QueryFormat,
        TapCall::CreateDevice,
        TapCall::CreateProc,
        TapCall::Start,
    ]
}

/// The call that undoes another, if there is anything to undo.
pub open spec fn undoing(call: TapCall) -> Seq<TapCall> {
    match call {
        TapCall::CreateTap => seq![TapCall::DestroyTap],
        TapCall::CreateDevice => seq![TapCall::DestroyDevice],
        TapCall::CreateProc => seq![TapCall::DestroyProc],
        TapCall::Start => seq![TapCall::Stop],
        _ => seq![],
    }
}

/// The calls that undo a list of calls, the last one first.
pub open spec fn undone(done: Seq<TapCall>) -> Seq<TapCall>
    decreases done.len(),
{
    if done.len() == 0 {
        seq![]
    } else {
        undoing(done.last()) + undone(done.drop_last())
    }
}

/// What the user is told where a call fails with a status.
pub open spec fn tap_error(call: TapCall, status: int) -> Seq<char> {
    match call {
        TapCall::CreateTap => "create system audio tap failed (OSStatus "@ + signed_decimal(status)
            + ") \u{2014} grant \u{201c}System Audio Recording\u{201d} to yogurt in System Settings \u{2192} Privacy & Security"@,
        TapCall::QueryFormat => "query tap format failed (OSStatus "@ + signed_decimal(status) + ")"@,
        TapCall::CreateDevice => "create aggregate device failed (OSStatus "@ + signed_decimal(status)
            + ")"@,
        TapCall::CreateProc => "create tap IOProc failed (OSStatus "@ + signed_decimal(status) + ")"@,
        _ => "start system tap failed (OSStatus "@ + signed_decimal(status) + ")"@,
    }
}

/// What comes next.
#[derive(Debug)]
pub enum TapStep {
    /// Make this call and report its status.
    Call(TapCall),
    /// The capture runs.
    Running,
    /// Make these calls; the capture could not be started.
    Failed { cleanup: Vec<TapCall>, message: String },
}

/// A capture of system audio: how many of the calls that start it were made.
#[derive(Debug)]
pub struct SystemTap {
    pub done: u8,
}

/// Whether a capture is in a state that it can be in.
pub open spec fn tap_sound(t: SystemTap) -> bool {
    t.done <= 5
}

/// The calls that were made and have to be undone.
pub open spec fn calls_made(t: SystemTap) -> Seq<TapCall> {
    starting_calls().take(t.done as int)
}

proof fn lemma_undone()
    ensures
        undone(starting_calls().take(0)) == Seq::<TapCall>::empty(),
        undone(starting_calls().take(1)) == seq![TapCall::DestroyTap],
        undone(starting_calls().take(2)) == seq![TapCall::DestroyTap],
        undone(starting_calls().take(3)) == seq![TapCall::DestroyDevice, TapCall::DestroyTap],
        undone(starting_calls().take(4)) == seq![
            TapCall::DestroyProc,
            TapCall::DestroyDevice,
            TapCall::DestroyTap,
        ],
        undone(starting_calls().take(5)) == seq![
            TapCall::Stop,
            TapCall::DestroyProc,
            TapCall::DestroyDevice,
            TapCall::DestroyTap,
        ],
{
    let s = starting_calls();
    assert(s.take(1).drop_last() =~= s.take(0));
    assert(s.take(2).drop_last() =~= s.take(1));
    assert(s.take(3).drop_last() =~= s.take(2));
    assert(s.take(4).drop_last() =~= s.take(3));
    assert(s.take(5).drop_last() =~= s.take(4));
    assert(undone(s.take(0)) =~= Seq::<TapCall>::empty());
    assert(undone(s.take(1)) =~= seq![TapCall::DestroyTap]);
    assert(undone(s.take(2)) =~= seq![TapCall::DestroyTap]);
    assert(undone(s.take(3)) =~= seq![TapCall::DestroyDevice, TapCall::DestroyTap]);
    assert(undone(s.take(4)) =~= seq![
        TapCall::DestroyProc,
        TapCall::DestroyDevice,
        TapCall::DestroyTap,
    ]);
    assert(undone(s.take(5)) =~= seq![
        TapCall::Stop,
        TapCall::DestroyProc,
        TapCall::DestroyDevice,
        TapCall::DestroyTap,
    ]);
}

fn error_message(call: TapCall, status: i32) -> (r: String)
    ensures
        r@ == tap_error(call, status as int),
{
    let code = signed_string(status as i64);
    match call {
        TapCall::CreateTap => concat3(
            "create system audio tap failed (OSStatus ",
            code.as_str(),
            ") \u{2014} grant \u{201c}System Audio Recording\u{201d} to yogurt in System Settings \u{2192} Privacy & Security",
        ),
        TapCall::QueryFormat => concat3("query tap format failed (OSStatus ", code.as_str(), ")"),
        TapCall::CreateDevice => concat3(
            "create aggregate device failed (OSStatus ",
            code.as_str(),
            ")",
        ),
        TapCall::CreateProc => concat3("create tap IOProc failed (OSStatus ", code.as_str(), ")"),
        _ => concat3("start system tap failed (OSStatus ", code.as_str(), ")"),
    }
}

impl SystemTap {
    /// Begins to start the capture: the first call to make.
    pub fn start() -> (r: (SystemTap, TapCall))
        ensures
            tap_sound(r.0),
            r.0.done == 0,
            r.1 == starting_calls()[0],
    {
        (SystemTap { done: 0 }, TapCall::CreateTap)
    }

    /// The status of the call that was due: the next call, or the calls that
    /// undo what was made before it failed.
    pub fn on_status(&mut self, status: i32) -> (r: TapStep)
        requires
            tap_sound(*old(self)),
            old(self).done < 5,
        ensures
            tap_sound(*final(self)),
            status == 0 ==> final(self).done == old(self).done + 1,
            status == 0 && old(self).done < 4 ==> r == TapStep::Call(
                starting_calls()[old(self).done + 1],
            ),
            status == 0 && old(self).done == 4 ==> r == TapStep::Running,
            status != 0 ==> {
                &&& final(self).done == 0
                &&& r matches TapStep::Failed { cleanup, message }
                &&& cleanup@ == undone(calls_made(*old(self)))
                &&& message@ == tap_error(starting_calls()[old(self).done as int], status as int)
            },
    {
        let due = match self.done {
            0 => TapCall::CreateTap,
            1 => TapCall::QueryFormat,
            2 => TapCall::CreateDevice,
            3 => TapCall::CreateProc,
            _ => TapCall::Start,
        };
        if status != 0 {
            let cleanup = self.teardown();
            return TapStep::Failed { cleanup, message: error_message(due, status) };
        }
        self.done = self.done + 1;
        match self.done {
            1 => TapStep::Call(TapCall::QueryFormat),
            2 => TapStep::Call(TapCall::CreateDevice),
            3 => TapStep::Call(TapCall::CreateProc),
            4 => TapStep::Call(TapCall::Start),
            _ => TapStep::Running,
        }
    }

    /// Ends the capture: the calls that undo what was made.
    pub fn teardown(&mut self) -> (r: Vec<TapCall>)
        requires
            tap_sound(*old(self)),
        ensures
            tap_sound(*final(self)),
            final(self).done == 0,
            r@ == undone(calls_made(*old(self))),
    {
        proof {
            lemma_undone();
        }
        let done = self.done;
        self.done = 0;
        let mut out: Vec<TapCall> = Vec::new();
        if done >= 5 {
            out.push(TapCall::Stop);
        }
        if done >= 4 {
            out.push(TapCall::DestroyProc);
        }
        if done >= 3 {
            out.push(TapCall::DestroyDevice);
        }
        if done >= 1 {
            out.push(TapCall::DestroyTap);
        }
        assert(out@ =~= undone(starting_calls().take(done as int)));
        out
    }
}

/// Undoing one list of calls after another undoes the second first; nothing that
/// was made is left, and nothing else is undone.
pub proof fn undoing_is_complete(done: Seq<TapCall>, more: Seq<TapCall>)
    ensures
        undone(done + more) == undone(more) + undone(done),
        forall|c: TapCall| #[trigger]
            undone(done).contains(c) <==> exists|i: int|
                0 <= i < done.len() && undoing(#[trigger] done[i]).contains(c),
    decreases done.len(), more.len(),
{
    if more.len() == 0 {
        assert(done + more =~= done);
        assert(undone(more) + undone(done) =~= undone(done));
    } else {
        assert((done + more).drop_last() =~= done + more.drop_last());
        undoing_is_complete(done, more.drop_last());
        assert(undone(done + more) =~= undone(more) + undone(done));
    }
    lemma_undone_members(done);
}

proof fn lemma_undone_members(done: Seq<TapCall>)
    ensures
        forall|c: TapCall| #[trigger]
            undone(done).contains(c) <==> exists|i: int|
                0 <= i < done.len() && undoing(#[trigger] done[i]).contains(c),
    decreases done.len(),
{
    if done.len() > 0 {
        let front = done.drop_last();
        lemma_undone_members(front);
        let a = undoing(done.last());
        let b = undone(front);
        assert forall|c: TapCall| #[trigger] undone(done).contains(c) implies exists|i: int|
            0 <= i < done.len() && undoing(#[trigger] done[i]).contains(c) by {
            let k = choose|k: int| 0 <= k < undone(done).len() && undone(done)[k] == c;
            if k < a.len() {
                assert(a[k] == c);
                assert(undoing(done[done.len() - 1]).contains(c));
            } else {
                assert(b[k - a.len()] == c);
                assert(b.contains(c));
                let i = choose|i: int|
                    0 <= i < front.len() && undoing(#[trigger] front[i]).contains(c);
                assert(done[i] == front[i]);
            }
        }
        assert forall|c: TapCall|
            (exists|i: int| 0 <= i < done.len() && undoing(#[trigger] done[i]).contains(c))
            implies #[trigger] undone(done).contains(c) by {
            let i = choose|i: int| 0 <= i < done.len() && undoing(#[trigger] done[i]).contains(c);
            if i == done.len() - 1 {
                let k = choose|k: int| 0 <= k < a.len() && a[k] == c;
                assert(undone(done)[k] == c);
            } else {
                assert(front[i] == done[i]);
                assert(b.contains(c));
                let k = choose|k: int| 0 <= k < b.len() && b[k] == c;
                assert(undone(done)[a.len() + k] == c);
            }
        }
    } else {
        assert forall|c: TapCall| !(#[trigger] undone(done).contains(c)) by {}
    }
}

/// The tap is made first and the capture started last, when the device and its
/// callback are there. What was made is undone, and only that: the callback before
/// the device that it belongs to, the tap last, and before all of them a capture
/// that runs is stopped.
pub proof fn parts_outlive_what_uses_them(t: SystemTap)
    requires
        tap_sound(t),
    ensures
        starting_calls().len() == 5,
        starting_calls()[0] == TapCall::CreateTap,
        starting_calls()[2] == TapCall::CreateDevice,
        starting_calls()[3] == TapCall::CreateProc,
        starting_calls()[4] == TapCall::Start,
        t.done == 0 ==> undone(calls_made(t)).len() == 0,
        1 <= t.done <= 2 ==> undone(calls_made(t)) == seq![TapCall::DestroyTap],
        t.done == 3 ==> undone(calls_made(t)) == seq![TapCall::DestroyDevice, TapCall::DestroyTap],
        t.done >= 4 ==> undone(calls_made(t)).last() == TapCall::DestroyTap,
        t.done == 4 ==> undone(calls_made(t)).take(2) == seq![
            TapCall::DestroyProc,
            TapCall::DestroyDevice,
        ],
        t.done == 5 ==> undone(calls_made(t)).take(3) == seq![
            TapCall::Stop,
            TapCall::DestroyProc,
            TapCall::DestroyDevice,
        ],
{
    lemma_undone();
}

} // verus!
