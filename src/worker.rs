//! The playback worker's decisions: which step follows which event, and how
//! converted samples go into the playback ring and the analysis tap.

use vstd::prelude::*;
use crate::ring::{known_free, producer_capacity, try_push, written};
use crate::layout::{is_deinterleaving, planar_view};
use crate::resample::{BlockRouter, Routed};

verus! {

/// The items of `s` whose flag in `keep` is set, in order.
pub open spec fn select(s: Seq<u32>, keep: Seq<bool>) -> Seq<u32>
    recommends
        s.len() == keep.len(),
    decreases s.len(),
{
    if s.len() == 0 {
        Seq::<u32>::empty()
    } else {
        select(s.drop_last(), keep.drop_last()) + if keep.last() {
            seq![s.last()]
        } else {
            Seq::<u32>::empty()
        }
    }
}

/// Offers `samples[from..]` to the playback ring, in order, until it refuses
/// one; each sample it takes is also offered to the analysis tap, which may
/// drop it. Returns where it stopped: at the end, or at the sample that the
/// full playback ring refused (to be offered again after a back-off).
///
/// The playback ring refuses only when it is full, so the push runs to the
/// end whenever the producer already saw room for all of it. The tap drops
/// a sample only when it is full, so none of the first samples for which the
/// tap already saw room is dropped.
pub fn push_samples(
    playback: &mut rtrb::Producer<u32>,
    tap: &mut rtrb::Producer<u32>,
    samples: &Vec<u32>,
    from: usize,
) -> (r: usize)
    requires
        from <= samples@.len(),
    ensures
        from <= r <= samples@.len(),
        written(*final(playback)) == written(*old(playback)) + samples@.subrange(
            from as int,
            r as int,
        ),
        r < samples@.len() ==> known_free(*final(playback)) == 0,
        r < samples@.len() ==> written(*final(playback)).len() >= producer_capacity(
            *old(playback),
        ),
        known_free(*old(playback)) >= samples@.len() - from ==> r == samples@.len(),
        exists|keep: Seq<bool>|
            {
                &&& keep.len() == r - from
                &&& written(*final(tap)) == written(*old(tap)) + select(
                    samples@.subrange(from as int, r as int),
                    keep,
                )
                &&& forall|i: int| 0 <= i < keep.len() && i < known_free(*old(tap)) ==> keep[i]
            },
        known_free(*old(tap)) >= r - from ==> written(*final(tap)) == written(*old(tap))
            + samples@.subrange(from as int, r as int),
        producer_capacity(*final(playback)) == producer_capacity(*old(playback)),
        producer_capacity(*final(tap)) == producer_capacity(*old(tap)),
{
    let ghost play0 = written(*playback);
    let ghost tap0 = written(*tap);
    let ghost kp = known_free(*playback);
    let ghost kt = known_free(*tap);
    let ghost mut keep: Seq<bool> = Seq::empty();
    let mut i: usize = from;
    while i < samples.len()
        invariant
            from <= i <= samples@.len(),
            play0 == written(*old(playback)),
            tap0 == written(*old(tap)),
            kp == known_free(*old(playback)),
            kt == known_free(*old(tap)),
            written(*playback) == play0 + samples@.subrange(from as int, i as int),
            i - from <= kp ==> known_free(*playback) == kp - (i - from),
            keep.len() == i - from,
            written(*tap) == tap0 + select(samples@.subrange(from as int, i as int), keep),
            forall|j: int| 0 <= j < keep.len() && j < kt ==> keep[j],
            i - from <= kt ==> known_free(*tap) == kt - (i - from),
            producer_capacity(*playback) == producer_capacity(*old(playback)),
            producer_capacity(*tap) == producer_capacity(*old(tap)),
        decreases samples@.len() - i,
    {
        let v = samples[i];
        if !try_push(playback, v) {
            proof {
                lemma_select_all(samples@.subrange(from as int, i as int), keep, kt);
            }
            assert(keep.len() == i - from && written(*tap) == tap0 + select(
                samples@.subrange(from as int, i as int),
                keep,
            ) && forall|j: int| 0 <= j < keep.len() && j < kt ==> keep[j]);
            return i;
        }
        let kept = try_push(tap, v);
        proof {
            let old_keep = keep;
            keep = keep.push(kept);
            let s1 = samples@.subrange(from as int, (i + 1) as int);
            assert(s1.drop_last() =~= samples@.subrange(from as int, i as int));
            assert(keep.drop_last() =~= old_keep);
            assert(s1.last() == v);
            assert(play0 + s1 =~= (play0 + samples@.subrange(from as int, i as int)).push(v));
            if kept {
                assert(tap0 + select(s1, keep) =~= (tap0 + select(
                    samples@.subrange(from as int, i as int),
                    old_keep,
                )).push(v));
            } else {
                assert(tap0 + select(s1, keep) =~= tap0 + select(
                    samples@.subrange(from as int, i as int),
                    old_keep,
                ));
            }
            assert forall|j: int| 0 <= j < keep.len() && j < kt implies keep[j] by {
                if j < old_keep.len() {
                    assert(keep[j] == old_keep[j]);
                }
            }
        }
        i = i + 1;
    }
    proof {
        lemma_select_all(samples@.subrange(from as int, i as int), keep, kt);
    }
    i
}

/// Selecting with flags that are all set keeps everything.
proof fn lemma_select_all(s: Seq<u32>, keep: Seq<bool>, k: nat)
    requires
        s.len() == keep.len(),
        forall|j: int| 0 <= j < keep.len() && j < k ==> keep[j],
    ensures
        k >= keep.len() ==> select(s, keep) == s,
    decreases s.len(),
{
    if s.len() > 0 && k >= keep.len() {
        lemma_select_all(s.drop_last(), keep.drop_last(), k);
        assert(keep.last());
        assert(s.drop_last() + seq![s.last()] =~= s);
    }
}

/// What the worker is doing.
#[derive(Clone, Copy, Debug, PartialEq, Eq, Structural)]
pub enum WorkerState {
    /// Waiting for a play command.
    Idle,
    /// Decoding and pushing a track.
    Decoding,
}

/// What the worker learned since its last step.
#[derive(Clone, Copy, Debug, PartialEq, Eq, Structural)]
pub enum WorkerEvent {
    /// A play command was taken off the command queue.
    PlayRequested,
    /// The requested track could not be opened (unreadable file, no
    /// supported format, no audio track).
    OpenFailed,
    /// The decoder produced a block.
    BlockDecoded,
    /// One packet could not be decoded; the track goes on.
    BadPacket,
    /// The track has no more packets.
    EndOfStream,
    /// The stream cannot be decoded any further.
    StreamCorrupt,
}

/// What the worker does next.
#[derive(Clone, Copy, Debug, PartialEq, Eq, Structural)]
pub enum WorkerAction {
    /// Drop the current track and its staged resampler input, and open the
    /// requested one. Samples already in the playback ring are left to
    /// drain: they are the short tail of the old track.
    OpenTrack,
    /// Route the block and push it, backing off while the ring is full.
    PushBlock,
    /// Decode the next packet.
    DecodeNext,
    /// Block on the command queue.
    AwaitCommand,
}

pub open spec fn step_spec(s: WorkerState, e: WorkerEvent) -> (WorkerState, WorkerAction) {
    match e {
        WorkerEvent::PlayRequested => (WorkerState::Decoding, WorkerAction::OpenTrack),
        WorkerEvent::OpenFailed | WorkerEvent::EndOfStream | WorkerEvent::StreamCorrupt => (
            WorkerState::Idle,
            WorkerAction::AwaitCommand,
        ),
        WorkerEvent::BlockDecoded => match s {
            WorkerState::Decoding => (WorkerState::Decoding, WorkerAction::PushBlock),
            WorkerState::Idle => (WorkerState::Idle, WorkerAction::AwaitCommand),
        },
        WorkerEvent::BadPacket => match s {
            WorkerState::Decoding => (WorkerState::Decoding, WorkerAction::DecodeNext),
            WorkerState::Idle => (WorkerState::Idle, WorkerAction::AwaitCommand),
        },
    }
}

/// The worker's next state and action after an event.
pub fn step(s: WorkerState, e: WorkerEvent) -> (r: (WorkerState, WorkerAction))
    ensures
        r == step_spec(s, e),
{
    match e {
        WorkerEvent::PlayRequested => (WorkerState::Decoding, WorkerAction::OpenTrack),
        WorkerEvent::OpenFailed | WorkerEvent::EndOfStream | WorkerEvent::StreamCorrupt => (
            WorkerState::Idle,
            WorkerAction::AwaitCommand,
        ),
        WorkerEvent::BlockDecoded => match s {
            WorkerState::Decoding => (WorkerState::Decoding, WorkerAction::PushBlock),
            WorkerState::Idle => (WorkerState::Idle, WorkerAction::AwaitCommand),
        },
        WorkerEvent::BadPacket => match s {
            WorkerState::Decoding => (WorkerState::Decoding, WorkerAction::DecodeNext),
            WorkerState::Idle => (WorkerState::Idle, WorkerAction::AwaitCommand),
        },
    }
}

/// A play command preempts whatever the worker is doing: in one step, from
/// any state, it drops the current track and opens the new one.
pub proof fn lemma_play_preempts(s: WorkerState)
    ensures
        step_spec(s, WorkerEvent::PlayRequested) == (WorkerState::Decoding, WorkerAction::OpenTrack),
{
}

/// Of two play commands in a row, the second is the track being decoded:
/// the first is dropped before any block of it is pushed.
pub proof fn lemma_second_play_wins(s: WorkerState)
    ensures
        ({
            let (s1, a1) = step_spec(s, WorkerEvent::PlayRequested);
            let (s2, a2) = step_spec(s1, WorkerEvent::PlayRequested);
            a1 == WorkerAction::OpenTrack && s2 == WorkerState::Decoding && a2
                == WorkerAction::OpenTrack
        }),
{
}

/// A bad packet never ends a track: decoding goes on with the next packet.
pub proof fn lemma_bad_packet_skipped()
    ensures
        step_spec(WorkerState::Decoding, WorkerEvent::BadPacket) == (
            WorkerState::Decoding,
            WorkerAction::DecodeNext,
        ),
{
}

/// The playback worker: what it is doing and, while it decodes, the
/// routing (with any staged resampler input) of the current track.
pub struct Worker {
    state: WorkerState,
    track: Option<BlockRouter>,
}

impl Worker {
    pub closed spec fn state_spec(&self) -> WorkerState {
        self.state
    }

    /// The current track's router, if a track is open.
    pub closed spec fn track_spec(&self) -> Option<BlockRouter> {
        self.track
    }

    pub open spec fn wf(&self) -> bool {
        self.track_spec() is Some ==> self.track_spec()->0.wf()
    }

    pub fn new() -> (r: Worker)
        ensures
            r.wf(),
            r.state_spec() == WorkerState::Idle,
            r.track_spec() is None,
    {
        Worker { state: WorkerState::Idle, track: None }
    }

    pub fn state(&self) -> (r: WorkerState)
        ensures
            r == self.state_spec(),
    {
        self.state
    }

    /// Takes one event and says what to do next. Opening a new track and
    /// waiting for a command both drop the current track, with whatever
    /// resampler input it had staged.
    pub fn handle(&mut self, e: WorkerEvent) -> (a: WorkerAction)
        requires
            old(self).wf(),
        ensures
            final(self).wf(),
            (final(self).state_spec(), a) == step_spec(old(self).state_spec(), e),
            a == WorkerAction::OpenTrack || a == WorkerAction::AwaitCommand
                ==> final(self).track_spec() is None,
            a == WorkerAction::PushBlock || a == WorkerAction::DecodeNext
                ==> final(self).track_spec() == old(self).track_spec(),
    {
        let (next, a) = step(self.state, e);
        self.state = next;
        match a {
            WorkerAction::OpenTrack | WorkerAction::AwaitCommand => {
                self.track = None;
            },
            _ => {},
        }
        a
    }

    /// Installs the routing of the track just opened.
    pub fn begin_track(&mut self, router: BlockRouter)
        requires
            router.wf(),
        ensures
            final(self).wf(),
            final(self).state_spec() == old(self).state_spec(),
            final(self).track_spec() == Some(router),
    {
        self.track = Some(router);
    }

    /// Routes a decoded block of the current track; `None` when no track is
    /// open.
    pub fn route(&mut self, block: Vec<u32>) -> (r: Option<Routed>)
        requires
            old(self).wf(),
        ensures
            final(self).wf(),
            final(self).state_spec() == old(self).state_spec(),
            old(self).track_spec() is None ==> r is None && final(self).track_spec() is None,
            old(self).track_spec() is Some ==> r is Some && final(self).track_spec() is Some
                && BlockRouter::routes(
                old(self).track_spec()->0,
                final(self).track_spec()->0,
                block@,
                r->0,
            ),
    {
        match &mut self.track {
            None => None,
            Some(t) => Some(t.route(block)),
        }
    }
}

/// A second play drops the first track: `handle` turns the command into
/// `OpenTrack` from any state and leaves no track open; the first block then
/// routed through the newly opened track yields samples of that block only,
/// none staged from the first track.
pub proof fn lemma_second_play_discards(
    w0: Worker,
    w1: Worker,
    w2: Worker,
    router: BlockRouter,
    w3: Worker,
    block: Seq<u32>,
    r: Routed,
)
    requires
        (w1.state_spec(), WorkerAction::OpenTrack) == step_spec(
            w0.state_spec(),
            WorkerEvent::PlayRequested,
        ),
        w1.track_spec() is None,
        router.wf(),
        router.is_fresh(),
        w2.track_spec() == Some(router),
        w3.track_spec() is Some,
        BlockRouter::routes(router, w3.track_spec()->0, block, r),
    ensures
        w1.state_spec() == WorkerState::Decoding,
        r is Ready ==> r->Ready_0@ == block,
        r is Chunk ==> is_deinterleaving(
            planar_view(r->Chunk_0@),
            block,
            0,
            router.stager_spec().channels_spec(),
            router.stager_spec().chunk_frames_spec(),
        ),
{
    if !router.passes_through() {
        assert(router.stager_spec().pending_spec() + block =~= block);
    }
}

} // verus!
