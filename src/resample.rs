//! What stands around the sinc resampler: input staging into fixed chunks,
//! and the choice between resampling and passing blocks straight through.

use vstd::prelude::*;
use crate::layout::{deinterleave, is_deinterleaving, planar_view};

verus! {

/// Collects interleaved samples until one chunk of `chunk_frames` frames is
/// there, then hands that chunk out per channel.
pub struct ChunkStager {
    channels: usize,
    chunk_frames: usize,
    pending: Vec<u32>,
}

impl ChunkStager {
    pub closed spec fn channels_spec(&self) -> nat {
        self.channels as nat
    }

    pub closed spec fn chunk_frames_spec(&self) -> nat {
        self.chunk_frames as nat
    }

    /// Samples received and not yet handed out, oldest first.
    pub closed spec fn pending_spec(&self) -> Seq<u32> {
        self.pending@
    }

    /// Interleaved samples in one chunk.
    pub open spec fn chunk_len(&self) -> nat {
        self.channels_spec() * self.chunk_frames_spec()
    }

    pub open spec fn wf(&self) -> bool {
        &&& self.channels_spec() > 0
        &&& self.chunk_frames_spec() > 0
        &&& self.chunk_len() <= usize::MAX
    }

    pub fn new(channels: usize, chunk_frames: usize) -> (r: ChunkStager)
        requires
            channels > 0,
            chunk_frames > 0,
            channels * chunk_frames <= usize::MAX,
        ensures
            r.wf(),
            r.channels_spec() == channels,
            r.chunk_frames_spec() == chunk_frames,
            r.pending_spec() == Seq::<u32>::empty(),
    {
        ChunkStager { channels, chunk_frames, pending: Vec::new() }
    }

    /// Drops whatever was received and not handed out.
    pub fn clear(&mut self)
        ensures
            final(self).channels_spec() == old(self).channels_spec(),
            final(self).chunk_frames_spec() == old(self).chunk_frames_spec(),
            final(self).pending_spec() == Seq::<u32>::empty(),
    {
        self.pending = Vec::new();
    }

    /// Takes one decoded block. When a chunk is complete, the oldest chunk
    /// is handed out per channel and the rest stays; at most one chunk per
    /// block.
    pub fn push_block(&mut self, block: &Vec<u32>) -> (r: Option<Vec<Vec<u32>>>)
        requires
            old(self).wf(),
        ensures
            final(self).wf(),
            final(self).channels_spec() == old(self).channels_spec(),
            final(self).chunk_frames_spec() == old(self).chunk_frames_spec(),
            ({
                let all = old(self).pending_spec() + block@;
                let n = old(self).chunk_len();
                if all.len() >= n {
                    &&& r is Some
                    &&& is_deinterleaving(
                        planar_view(r->0@),
                        all,
                        0,
                        old(self).channels_spec(),
                        old(self).chunk_frames_spec(),
                    )
                    &&& final(self).pending_spec() == all.skip(n as int)
                } else {
                    &&& r is None
                    &&& final(self).pending_spec() == all
                }
            }),
    {
        let ghost start = self.pending@;
        let mut i: usize = 0;
        while i < block.len()
            invariant
                i <= block@.len(),
                self.pending@ == start + block@.subrange(0, i as int),
                self.channels == old(self).channels,
                self.chunk_frames == old(self).chunk_frames,
            decreases block@.len() - i,
        {
            self.pending.push(block[i]);
            assert(start + block@.subrange(0, (i + 1) as int) =~= (start + block@.subrange(
                0,
                i as int,
            )).push(block@[i as int]));
            i = i + 1;
        }
        assert(block@.subrange(0, block@.len() as int) =~= block@);
        let n = self.channels * self.chunk_frames;
        if self.pending.len() < n {
            return None;
        }
        assert(self.chunk_frames * self.channels == self.channels * self.chunk_frames)
            by (nonlinear_arith);
        let chunk = deinterleave(&self.pending, 0, self.channels, self.chunk_frames);
        let mut rest: Vec<u32> = Vec::new();
        let mut k: usize = n;
        while k < self.pending.len()
            invariant
                n <= k <= self.pending@.len(),
                rest@ == self.pending@.subrange(n as int, k as int),
            decreases self.pending@.len() - k,
        {
            rest.push(self.pending[k]);
            assert(rest@ =~= self.pending@.subrange(n as int, (k + 1) as int));
            k = k + 1;
        }
        proof {
            assert(self.pending@.skip(n as int) =~= rest@);
        }
        self.pending = rest;
        Some(chunk)
    }
}

/// Where a decoded block goes next.
pub enum Routed {
    /// The block, unchanged, ready for the rings.
    Ready(Vec<u32>),
    /// One chunk per channel for the resampler.
    Chunk(Vec<Vec<u32>>),
    /// Staged; not enough input for a chunk yet.
    Waiting,
}

/// Per-track routing: straight through when the track already runs at the
/// device rate, through chunk staging and the resampler otherwise.
pub struct BlockRouter {
    stager: Option<ChunkStager>,
}

impl BlockRouter {
    /// No resampling: blocks pass through untouched.
    pub closed spec fn passes_through(&self) -> bool {
        self.stager is None
    }

    pub closed spec fn stager_spec(&self) -> ChunkStager {
        self.stager->0
    }

    pub open spec fn wf(&self) -> bool {
        !self.passes_through() ==> self.stager_spec().wf()
    }

    pub fn new(track_rate: u32, device_rate: u32, channels: usize, chunk_frames: usize) -> (r:
        BlockRouter)
        requires
            channels > 0,
            chunk_frames > 0,
            channels * chunk_frames <= usize::MAX,
        ensures
            r.wf(),
            r.passes_through() <==> track_rate == device_rate,
            r.is_fresh(),
            !r.passes_through() ==> r.stager_spec().channels_spec() == channels
                && r.stager_spec().chunk_frames_spec() == chunk_frames
                && r.stager_spec().pending_spec() == Seq::<u32>::empty(),
    {
        if track_rate == device_rate {
            BlockRouter { stager: None }
        } else {
            BlockRouter { stager: Some(ChunkStager::new(channels, chunk_frames)) }
        }
    }

    /// Holds nothing staged: a new track's router.
    pub open spec fn is_fresh(&self) -> bool {
        self.passes_through() || self.stager_spec().pending_spec() == Seq::<u32>::empty()
    }

    /// `r` is what routing `block` through `before` gives, leaving `after`.
    pub open spec fn routes(before: BlockRouter, after: BlockRouter, block: Seq<u32>, r: Routed) -> bool {
        &&& after.wf()
        &&& after.passes_through() == before.passes_through()
        &&& before.passes_through() ==> r is Ready && r->Ready_0@ == block
        &&& !before.passes_through() ==> ({
            let st = before.stager_spec();
            let all = st.pending_spec() + block;
            let fin = after.stager_spec();
            &&& fin.channels_spec() == st.channels_spec()
            &&& fin.chunk_frames_spec() == st.chunk_frames_spec()
            &&& if all.len() >= st.chunk_len() {
                &&& r is Chunk
                &&& is_deinterleaving(
                    planar_view(r->Chunk_0@),
                    all,
                    0,
                    st.channels_spec(),
                    st.chunk_frames_spec(),
                )
                &&& fin.pending_spec() == all.skip(st.chunk_len() as int)
            } else {
                &&& r is Waiting
                &&& fin.pending_spec() == all
            }
        })
    }

    /// Routes one decoded block of interleaved samples.
    pub fn route(&mut self, block: Vec<u32>) -> (r: Routed)
        requires
            old(self).wf(),
        ensures
            BlockRouter::routes(*old(self), *final(self), block@, r),
            old(self).passes_through() ==> r == Routed::Ready(block),
    {
        match &mut self.stager {
            None => Routed::Ready(block),
            Some(st) => match st.push_block(&block) {
                Some(chunk) => Routed::Chunk(chunk),
                None => Routed::Waiting,
            },
        }
    }
}

} // verus!
