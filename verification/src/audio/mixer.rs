//! Mic-clocked combination of two streams.
//!
//! The output cadence follows the microphone stream; system audio is taken in
//! as available. The backlog of system audio is bounded, so rate drift cannot
//! grow latency without limit.

use super::pcm::{
    channel_of, frame_count, in_range, lemma_pcm_push, pcm_of, pcm_round_trip, push_sample, sample,
    sample_bytes, samples, samples_round_trip, to_samples,
};
use std::collections::VecDeque;
use vstd::prelude::*;

verus! {

/// Most system samples kept waiting: two seconds at 16 kHz.
pub const MAX_SYS_BACKLOG: usize = 32000;

/// How the two streams are combined.
#[derive(Debug, Clone, Copy, PartialEq, Eq, Structural)]
pub enum MixMode {
    /// One channel: the sum of both streams, clamped to 16 bits.
    Mono,
    /// Two channels: left is the microphone, right the system audio.
    Stereo,
}

/// The system samples waiting to be combined with microphone samples.
#[derive(Debug)]
pub struct Mixer {
    queue: VecDeque<i16>,
}

/// The samples of a list of buffers, in order.
pub open spec fn all_samples(chunks: Seq<Seq<u8>>) -> Seq<int>
    decreases chunks.len(),
{
    if chunks.len() == 0 {
        seq![]
    } else {
        all_samples(chunks.drop_last()) + samples(chunks.last())
    }
}

/// The last `max` items, or all of them where there are fewer.
pub open spec fn newest(q: Seq<int>, max: int) -> Seq<int> {
    if q.len() > max {
        q.skip(q.len() - max)
    } else {
        q
    }
}

/// The queue after it took in system audio: the newest samples, within the bound.
pub open spec fn refilled(q: Seq<int>, chunks: Seq<Seq<u8>>) -> Seq<int> {
    newest(q + all_samples(chunks), MAX_SYS_BACKLOG as int)
}

/// What is left of the queue after `n` samples were taken from its front.
pub open spec fn taken(q: Seq<int>, n: int) -> Seq<int> {
    if q.len() > n {
        q.skip(n)
    } else {
        seq![]
    }
}

/// The queued sample that meets microphone sample `i`; silence where none waits.
pub open spec fn partner(q: Seq<int>, i: int) -> int {
    if i < q.len() {
        q[i]
    } else {
        0
    }
}

/// A number clamped to the range of a sample.
pub open spec fn clamped(v: int) -> int {
    if v < -0x8000 {
        -0x8000
    } else if v > 0x7fff {
        0x7fff
    } else {
        v
    }
}

/// The mono mix of a microphone buffer with the queue.
pub open spec fn mixed_samples(q: Seq<int>, mic: Seq<u8>) -> Seq<int> {
    Seq::new(samples(mic).len(), |i: int| clamped(samples(mic)[i] + partner(q, i)))
}

/// The stereo interleaving of a microphone buffer with the queue.
pub open spec fn stereo_samples(q: Seq<int>, mic: Seq<u8>) -> Seq<int> {
    Seq::new(
        2 * samples(mic).len(),
        |i: int|
            if i % 2 == 0 {
                samples(mic)[i / 2]
            } else {
                partner(q, i / 2)
            },
    )
}

/// What one microphone buffer becomes.
pub open spec fn combined(mode: MixMode, q: Seq<int>, mic: Seq<u8>) -> Seq<u8> {
    match mode {
        MixMode::Mono => pcm_of(mixed_samples(q, mic)),
        MixMode::Stereo => pcm_of(stereo_samples(q, mic)),
    }
}

/// The buffers of a list, by their bytes.
pub open spec fn byte_lists(v: Seq<Vec<u8>>) -> Seq<Seq<u8>> {
    v.map_values(|b: Vec<u8>| b@)
}

impl Mixer {
    /// The waiting samples, oldest first.
    pub closed spec fn waiting(&self) -> Seq<int> {
        self.queue@.map_values(|v: i16| v as int)
    }

    /// An empty mixer.
    pub fn new() -> (r: Mixer)
        ensures
            r.waiting() == Seq::<int>::empty(),
    {
        let r = Mixer { queue: VecDeque::new() };
        assert(r.waiting() =~= Seq::<int>::empty());
        r
    }

    fn absorb(&mut self, chunk: &[u8])
        ensures
            final(self).waiting() == old(self).waiting() + samples(chunk@),
    {
        let s = to_samples(chunk);
        let ghost start = self.waiting();
        let ghost all = samples(chunk@);
        let mut i: usize = 0;
        assert(start + all.take(0) =~= start);
        while i < s.len()
            invariant
                i <= s@.len(),
                s@.map_values(|v: i16| v as int) == all,
                self.waiting() == start + all.take(i as int),
            decreases s@.len() - i,
        {
            let ghost before = self.waiting();
            self.queue.push_back(s[i]);
            proof {
                assert(s@.map_values(|v: i16| v as int)[i as int] == s@[i as int]);
                assert(self.waiting() =~= before.push(s@[i as int] as int));
                assert(start + all.take(i + 1) =~= (start + all.take(i as int)).push(all[i as int]));
            }
            i += 1;
        }
        assert(all.take(s@.len() as int) =~= all);
    }

    /// Takes in the system audio that has arrived, oldest first, and drops the
    /// oldest samples beyond the bound.
    pub fn drain_system(&mut self, chunks: &Vec<Vec<u8>>)
        ensures
            final(self).waiting() == refilled(old(self).waiting(), byte_lists(chunks@)),
    {
        let ghost start = self.waiting();
        let ghost lists = byte_lists(chunks@);
        let mut i: usize = 0;
        assert(lists.take(0) =~= Seq::<Seq<u8>>::empty());
        assert(start + Seq::<int>::empty() =~= start);
        while i < chunks.len()
            invariant
                i <= chunks@.len(),
                lists == byte_lists(chunks@),
                self.waiting() == start + all_samples(lists.take(i as int)),
            decreases chunks@.len() - i,
        {
            self.absorb(chunks[i].as_slice());
            proof {
                let next = lists.take(i + 1);
                assert(next.drop_last() =~= lists.take(i as int));
                assert(next.last() == chunks@[i as int]@);
                assert(start + all_samples(next) =~= (start + all_samples(lists.take(i as int)))
                    + samples(chunks@[i as int]@));
            }
            i += 1;
        }
        assert(lists.take(i as int) =~= lists);
        let ghost full = self.waiting();
        assert(full.skip(0) =~= full);
        let ghost mut dropped: int = 0;
        while self.queue.len() > MAX_SYS_BACKLOG
            invariant
                0 <= dropped <= full.len(),
                dropped > 0 ==> full.len() - dropped >= MAX_SYS_BACKLOG,
                self.waiting() == full.skip(dropped),
            decreases self.queue@.len(),
        {
            let ghost before = self.waiting();
            let _ = self.queue.pop_front();
            proof {
                assert(self.waiting() =~= before.drop_first());
                assert(full.skip(dropped + 1) =~= full.skip(dropped).drop_first());
                dropped = dropped + 1;
            }
        }
        assert(self.waiting() =~= newest(full, MAX_SYS_BACKLOG as int));
    }

    fn next_system(&mut self) -> (r: i16)
        ensures
            r == partner(old(self).waiting(), 0),
            final(self).waiting() == taken(old(self).waiting(), 1),
    {
        let ghost before = self.waiting();
        match self.queue.pop_front() {
            Some(v) => {
                assert(self.waiting() =~= before.drop_first());
                assert(self.waiting() =~= taken(before, 1));
                v
            },
            None => {
                assert(self.waiting() =~= taken(before, 1));
                0
            },
        }
    }

    /// Combines one microphone buffer with the waiting system samples, one for
    /// one; the samples used leave the queue.
    pub fn combine(&mut self, mode: MixMode, mic: &[u8]) -> (r: Vec<u8>)
        ensures
            r@ == combined(mode, old(self).waiting(), mic@),
            final(self).waiting() == taken(old(self).waiting(), samples(mic@).len() as int),
    {
        let ghost q = self.waiting();
        let ghost s = samples(mic@);
        let n = mic.len() / 2;
        let mut out: Vec<u8> = Vec::new();
        let mut i: usize = 0;
        let ghost target = match mode {
            MixMode::Mono => mixed_samples(q, mic@),
            MixMode::Stereo => stereo_samples(q, mic@),
        };
        let ghost step: int = match mode {
            MixMode::Mono => 1,
            MixMode::Stereo => 2,
        };
        proof {
            assert(pcm_of(target.take(0)) =~= Seq::<u8>::empty());
            assert(taken(q, 0) =~= q);
        }
        while i < n
            invariant
                i <= n,
                n == mic.len() / 2,
                s == samples(mic@),
                self.waiting() == taken(q, i as int),
                target == (match mode {
                    MixMode::Mono => mixed_samples(q, mic@),
                    MixMode::Stereo => stereo_samples(q, mic@),
                }),
                step == (match mode {
                    MixMode::Mono => 1int,
                    MixMode::Stereo => 2int,
                }),
                out@ == pcm_of(target.take(step * i)),
            decreases n - i,
        {
            let m = sample(mic[2 * i], mic[2 * i + 1]);
            let y = self.next_system();
            proof {
                assert(s[i as int] == m);
                assert(y == partner(q, i as int));
                assert(taken(taken(q, i as int), 1) =~= taken(q, i + 1));
            }
            match mode {
                MixMode::Mono => {
                    let sum: i32 = m as i32 + y as i32;
                    let c: i16 = if sum < -0x8000 {
                        -0x8000
                    } else if sum > 0x7fff {
                        0x7fff
                    } else {
                        sum as i16
                    };
                    push_sample(&mut out, c);
                    proof {
                        lemma_pcm_push(target.take(i as int), c as int);
                        assert(target.take(i + 1) =~= target.take(i as int).push(c as int));
                        assert(step * i == i && step * (i + 1) == i + 1);
                    }
                },
                MixMode::Stereo => {
                    push_sample(&mut out, m);
                    push_sample(&mut out, y);
                    proof {
                        assert(step * i == 2 * i && step * (i + 1) == 2 * i + 2);
                        assert((2 * i) % 2 == 0 && (2 * i) / 2 == i);
                        assert((2 * i + 1) % 2 == 1 && (2 * i + 1) / 2 == i);
                        lemma_pcm_push(target.take(2 * i), m as int);
                        assert(target.take(2 * i + 1) =~= target.take(2 * i).push(m as int));
                        lemma_pcm_push(target.take(2 * i + 1), y as int);
                        assert(target.take(2 * i + 2) =~= target.take(2 * i + 1).push(y as int));
                    }
                },
            }
            i += 1;
        }
        proof {
            assert(step * n == target.len());
            assert(target.take(step * n) =~= target);
        }
        out
    }

    /// One turn of the mixing loop: system audio that has arrived is taken in;
    /// a microphone buffer, where one arrived before the timeout, is combined
    /// with it and handed out.
    pub fn step(&mut self, mode: MixMode, mic: Option<&[u8]>, system: &Vec<Vec<u8>>) -> (r: Option<
        Vec<u8>,
    >)
        ensures
            ({
                let q = refilled(old(self).waiting(), byte_lists(system@));
                match mic {
                    Some(m) => {
                        &&& r matches Some(out) && out@ == combined(mode, q, m@)
                        &&& final(self).waiting() == taken(q, samples(m@).len() as int)
                    },
                    None => r is None && final(self).waiting() == q,
                }
            }),
    {
        self.drain_system(system);
        match mic {
            Some(m) => Some(self.combine(mode, m)),
            None => None,
        }
    }
}

/// However much system audio arrives, no more than the bound stays waiting.
pub proof fn backlog_is_bounded(q: Seq<int>, chunks: Seq<Seq<u8>>)
    ensures
        refilled(q, chunks).len() <= MAX_SYS_BACKLOG,
{
}

/// A stereo mix keeps the streams apart: its left channel is the microphone
/// buffer, its right channel the queued system audio, padded with silence.
pub proof fn stereo_keeps_channels_apart(q: Seq<int>, mic: Seq<u8>)
    requires
        mic.len() % 2 == 0,
        in_range(q),
    ensures
        channel_of(combined(MixMode::Stereo, q, mic), 0, 2) == mic,
        channel_of(combined(MixMode::Stereo, q, mic), 1, 2) == pcm_of(
            Seq::new(samples(mic).len(), |i: int| partner(q, i)),
        ),
{
    let s = samples(mic);
    let t = stereo_samples(q, mic);
    let out = pcm_of(t);
    let right = Seq::new(s.len(), |i: int| partner(q, i));
    assert(out.len() == 4 * s.len());
    assert(frame_count(out, 2) == s.len()) by {
        assert(out.len() as int / 4 == s.len());
        assert(2 * 2int == 4);
    }
    pcm_round_trip(mic);
    let l = channel_of(out, 0, 2);
    let r = channel_of(out, 1, 2);
    assert forall|i: int| 0 <= i < 2 * s.len() implies l[i] == mic[i] && r[i] == pcm_of(
        right,
    )[i] by {
        let f = i / 2;
        let k = i % 2;
        assert(f * 4 + k < out.len());
        assert((f * 4 + k) / 2 == 2 * f && (f * 4 + k) % 2 == k);
        assert((f * 4 + 2 + k) / 2 == 2 * f + 1 && (f * 4 + 2 + k) % 2 == k);
        assert((2 * f) % 2 == 0 && (2 * f) / 2 == f);
        assert((2 * f + 1) % 2 == 1 && (2 * f + 1) / 2 == f);
        assert(out[f * 4 + k] == sample_bytes(t[2 * f])[k]);
        assert(out[f * 4 + 2 + k] == sample_bytes(t[2 * f + 1])[k]);
        assert(t[2 * f] == s[f]);
        assert(t[2 * f + 1] == partner(q, f));
        assert(pcm_of(s)[i] == sample_bytes(s[f])[k]);
        assert(pcm_of(right)[i] == sample_bytes(right[f])[k]);
    }
    assert(l =~= mic);
    assert(r =~= pcm_of(right));
}

/// With no system audio waiting, the mono mix is the microphone buffer.
pub proof fn mono_without_system_is_mic(mic: Seq<u8>)
    requires
        mic.len() % 2 == 0,
    ensures
        combined(MixMode::Mono, Seq::<int>::empty(), mic) == mic,
{
    pcm_round_trip(mic);
    assert(mixed_samples(Seq::<int>::empty(), mic) =~= samples(mic));
}

proof fn lemma_mono_samples(q: Seq<int>, mic: Seq<u8>)
    ensures
        samples(combined(MixMode::Mono, q, mic)) == mixed_samples(q, mic),
        combined(MixMode::Mono, q, mic).len() == 2 * samples(mic).len(),
{
    let t = mixed_samples(q, mic);
    assert forall|i: int| 0 <= i < t.len() implies -0x8000 <= #[trigger] t[i] <= 0x7fff by {}
    samples_round_trip(t);
}

/// A mono mix has one sample for each of the microphone's. Each is the sum of
/// the microphone's sample and of the system's, whatever their signs, or the
/// nearer end of the range where 16 bits cannot hold the sum. Where no system
/// audio waits anymore, it is the microphone's sample.
pub proof fn mono_mix_adds(q: Seq<int>, mic: Seq<u8>)
    ensures
        samples(combined(MixMode::Mono, q, mic)).len() == mic.len() / 2,
        forall|i: int|
            0 <= i < mic.len() / 2 && i < q.len() && -32768 <= samples(mic)[i] + q[i] <= 32767
                ==> #[trigger] samples(combined(MixMode::Mono, q, mic))[i] == samples(mic)[i]
                + q[i],
        forall|i: int|
            0 <= i < mic.len() / 2 && i < q.len() && samples(mic)[i] + q[i] > 32767
                ==> #[trigger] samples(combined(MixMode::Mono, q, mic))[i] == 32767,
        forall|i: int|
            0 <= i < mic.len() / 2 && i < q.len() && samples(mic)[i] + q[i] < -32768
                ==> #[trigger] samples(combined(MixMode::Mono, q, mic))[i] == -32768,
        forall|i: int|
            q.len() <= i < mic.len() / 2 ==> #[trigger] samples(
                combined(MixMode::Mono, q, mic),
            )[i] == samples(mic)[i],
{
    lemma_mono_samples(q, mic);
}

/// With a silent microphone, the mono mix is the waiting system audio, followed
/// by silence where there is too little of it.
pub proof fn mono_with_silent_mic_is_system(q: Seq<int>, mic: Seq<u8>)
    requires
        in_range(q),
        forall|i: int| 0 <= i < samples(mic).len() ==> #[trigger] samples(mic)[i] == 0,
    ensures
        samples(mic).len() <= q.len() ==> samples(combined(MixMode::Mono, q, mic)) == q.take(
            samples(mic).len() as int,
        ),
        samples(mic).len() > q.len() ==> samples(combined(MixMode::Mono, q, mic)) == q + Seq::new(
            (samples(mic).len() - q.len()) as nat,
            |i: int| 0,
        ),
{
    lemma_mono_samples(q, mic);
    let out = samples(combined(MixMode::Mono, q, mic));
    let m = samples(mic);
    assert(out == mixed_samples(q, mic));
    assert(out.len() == m.len());
    assert forall|i: int| 0 <= i < m.len() implies out[i] == partner(q, i) by {
        assert(m[i] == 0);
        if i < q.len() {
            assert(-0x8000 <= q[i] <= 0x7fff);
        }
    }
    lemma_front_and_silence(out, q);
}

proof fn lemma_front_and_silence(out: Seq<int>, q: Seq<int>)
    requires
        forall|i: int| 0 <= i < out.len() ==> out[i] == partner(q, i),
    ensures
        out.len() <= q.len() ==> out == q.take(out.len() as int),
        out.len() > q.len() ==> out == q + Seq::new((out.len() - q.len()) as nat, |i: int| 0),
{
    if out.len() <= q.len() {
        assert(out =~= q.take(out.len() as int));
    } else {
        assert(out =~= q + Seq::new((out.len() - q.len()) as nat, |i: int| 0));
    }
}

/// In a mono mix it does not matter which stream is which.
pub proof fn mono_mix_is_symmetric(a: Seq<u8>, b: Seq<u8>)
    requires
        a.len() == b.len(),
    ensures
        combined(MixMode::Mono, samples(a), b) == combined(MixMode::Mono, samples(b), a),
{
    assert(mixed_samples(samples(a), b) =~= mixed_samples(samples(b), a));
}

/// The frames of a stereo mix: the microphone's sample, then the waiting sample
/// of the system, or silence where none waits anymore.
pub proof fn stereo_mix_interleaves(q: Seq<int>, mic: Seq<u8>)
    requires
        in_range(q),
    ensures
        samples(combined(MixMode::Stereo, q, mic)).len() == 2 * samples(mic).len(),
        forall|i: int|
            0 <= i < samples(mic).len() ==> #[trigger] samples(
                combined(MixMode::Stereo, q, mic),
            )[2 * i] == samples(mic)[i],
        forall|i: int|
            0 <= i < samples(mic).len() ==> #[trigger] samples(
                combined(MixMode::Stereo, q, mic),
            )[2 * i + 1] == (if i < q.len() {
                q[i]
            } else {
                0
            }),
{
    let t = stereo_samples(q, mic);
    let n = mic.len() / 2;
    assert forall|i: int| 0 <= i < t.len() implies -0x8000 <= #[trigger] t[i] <= 0x7fff by {
        assert(0 <= i / 2 < samples(mic).len());
    }
    samples_round_trip(t);
    assert forall|i: int| 0 <= i < n implies #[trigger] t[2 * i] == samples(mic)[i] by {
        assert((2 * i) % 2 == 0 && (2 * i) / 2 == i);
    }
    assert forall|i: int| 0 <= i < n implies #[trigger] t[2 * i + 1] == partner(q, i) by {
        assert((2 * i + 1) % 2 == 1 && (2 * i + 1) / 2 == i);
    }
}

/// How a recording is cut into buffers does not matter: mixing two buffers one
/// after the other gives what mixing them as one gives, and leaves the same
/// samples waiting.
pub proof fn mixing_goes_on(mode: MixMode, q: Seq<int>, a: Seq<u8>, b: Seq<u8>)
    requires
        a.len() % 2 == 0,
    ensures
        ({
            let left = taken(q, samples(a).len() as int);
            &&& combined(mode, q, a + b) == combined(mode, q, a) + combined(mode, left, b)
            &&& taken(q, samples(a + b).len() as int) == taken(left, samples(b).len() as int)
        }),
{
    let n = samples(a).len() as int;
    let left = taken(q, n);
    assert(samples(a + b) =~= samples(a) + samples(b));
    assert forall|i: int| 0 <= i implies #[trigger] partner(left, i) == partner(q, n + i) by {}
    assert(taken(q, samples(a + b).len() as int) =~= taken(left, samples(b).len() as int));
    let x = combined(mode, q, a + b);
    let y = combined(mode, q, a) + combined(mode, left, b);
    match mode {
        MixMode::Mono => {
            let t = mixed_samples(q, a + b);
            let u = mixed_samples(q, a);
            let v = mixed_samples(left, b);
            assert(t =~= u + v) by {
                assert forall|i: int| 0 <= i < t.len() implies t[i] == (u + v)[i] by {
                    if i >= n {
                        assert(partner(left, i - n) == partner(q, n + (i - n)));
                    }
                }
            }
            lemma_pcm_append(u, v);
        },
        MixMode::Stereo => {
            let t = stereo_samples(q, a + b);
            let u = stereo_samples(q, a);
            let v = stereo_samples(left, b);
            assert(t =~= u + v) by {
                assert forall|i: int| 0 <= i < t.len() implies t[i] == (u + v)[i] by {
                    if i >= 2 * n {
                        let k = i - 2 * n;
                        assert(i / 2 == n + k / 2 && i % 2 == k % 2);
                        assert(partner(left, k / 2) == partner(q, n + k / 2));
                    }
                }
            }
            lemma_pcm_append(u, v);
        },
    }
    assert(x =~= y);
}

proof fn lemma_pcm_append(a: Seq<int>, b: Seq<int>)
    ensures
        pcm_of(a + b) == pcm_of(a) + pcm_of(b),
{
    let x = pcm_of(a + b);
    let y = pcm_of(a) + pcm_of(b);
    assert forall|i: int| 0 <= i < x.len() implies x[i] == y[i] by {
        if i < 2 * a.len() {
            assert(i / 2 < a.len());
        } else {
            let k = i - 2 * a.len();
            assert(i / 2 == a.len() + k / 2 && i % 2 == k % 2);
        }
    }
    assert(x =~= y);
}

/// What is combined leaves the queue from its front: what is left are the
/// samples behind those that were used, in their order.
pub proof fn used_samples_leave(q: Seq<int>, n: int)
    requires
        n >= 0,
    ensures
        n <= q.len() ==> q.take(n) + taken(q, n) == q,
        n > q.len() ==> taken(q, n).len() == 0,
{
    if n <= q.len() {
        assert(q.take(n) + taken(q, n) =~= q);
    }
}

/// System audio waits in the order in which it arrived. Up to the bound all of
/// it waits; beyond, the oldest samples are dropped and the newest kept.
pub proof fn system_audio_waits_in_order(q: Seq<int>, chunk: Seq<u8>)
    ensures
        ({
            let all = q + samples(chunk);
            let kept = refilled(q, seq![chunk]);
            &&& all.len() <= 32000 ==> kept == all
            &&& all.len() > 32000 ==> kept.len() == 32000 && kept == all.subrange(
                all.len() - 32000,
                all.len() as int,
            )
        }),
{
    let one = seq![chunk];
    assert(one.drop_last() =~= Seq::<Seq<u8>>::empty());
    assert(all_samples(Seq::<Seq<u8>>::empty()) =~= Seq::<int>::empty());
    assert(all_samples(one) =~= samples(chunk));
    let all = q + samples(chunk);
    if all.len() > 32000 {
        assert(refilled(q, one) =~= all.subrange(all.len() - 32000, all.len() as int));
    }
}

/// Taking in buffers together is taking them in one after the other.
pub proof fn system_audio_arrives_in_turn(q: Seq<int>, chunks: Seq<Seq<u8>>, chunk: Seq<u8>)
    ensures
        refilled(q, chunks.push(chunk)) == refilled(refilled(q, chunks), seq![chunk]),
        q.len() <= 32000 ==> refilled(q, seq![]) == q,
{
    system_audio_waits_in_order(refilled(q, chunks), chunk);
    assert(chunks.push(chunk).drop_last() =~= chunks);
    let all = q + all_samples(chunks.push(chunk));
    assert(all =~= (q + all_samples(chunks)) + samples(chunk));
    let before = refilled(q, chunks) + samples(chunk);
    let a = refilled(q, chunks.push(chunk));
    let b = refilled(refilled(q, chunks), seq![chunk]);
    assert(a =~= b) by {
        assert(before =~= all.skip(all.len() - before.len()));
    }
    assert(q + all_samples(seq![]) =~= q);
}

} // verus!
