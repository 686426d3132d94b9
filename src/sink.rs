//! The device sink: fills the output device's buffer from the playback
//! ring, one frame at a time, with silence where the ring ran dry.

use vstd::prelude::*;
use crate::ring::{known_avail, silence, taken, try_pop_chunk, RingBuffer};

verus! {

/// Frames that were delivered from the ring, in order.
pub open spec fn count_delivered(d: Seq<bool>) -> nat
    decreases d.len(),
{
    if d.len() == 0 {
        0
    } else {
        (if d.last() { 1nat } else { 0nat }) + count_delivered(d.drop_last())
    }
}

/// What the device hears for a run of frames of `ch` samples: a frame that
/// was delivered is the next `ch` samples of `got`, one that was not is
/// silence.
pub open spec fn frames_output(got: Seq<u32>, d: Seq<bool>, ch: nat) -> Seq<u32>
    decreases d.len(),
{
    if d.len() == 0 {
        Seq::<u32>::empty()
    } else {
        let before = count_delivered(d.drop_last());
        frames_output(got, d.drop_last(), ch) + if d.last() {
            got.subrange((before * ch) as int, ((before + 1) * ch) as int)
        } else {
            silence(ch)
        }
    }
}

/// Output of the frames in `d` depends only on the samples they took.
proof fn lemma_frames_output_prefix(got: Seq<u32>, more: Seq<u32>, d: Seq<bool>, ch: nat)
    requires
        count_delivered(d) * ch <= got.len(),
    ensures
        frames_output(got + more, d, ch) == frames_output(got, d, ch),
    decreases d.len(),
{
    if d.len() > 0 {
        let before = count_delivered(d.drop_last());
        assert(count_delivered(d.drop_last()) <= count_delivered(d));
        assert(count_delivered(d.drop_last()) * ch <= count_delivered(d) * ch) by (nonlinear_arith)
            requires
                count_delivered(d.drop_last()) <= count_delivered(d),
        ;
        lemma_frames_output_prefix(got, more, d.drop_last(), ch);
        if d.last() {
            assert((before + 1) * ch == before * ch + ch) by (nonlinear_arith);
            assert((got + more).subrange((before * ch) as int, ((before + 1) * ch) as int)
                =~= got.subrange((before * ch) as int, ((before + 1) * ch) as int));
        }
    }
}

/// Where nothing was delivered, the device hears only silence.
pub proof fn lemma_nothing_delivered_is_silence(got: Seq<u32>, d: Seq<bool>, ch: nat)
    requires
        forall|i: int| 0 <= i < d.len() ==> !d[i],
    ensures
        count_delivered(d) == 0,
        frames_output(got, d, ch) == silence(d.len() * ch),
    decreases d.len(),
{
    if d.len() > 0 {
        let e = d.drop_last();
        assert forall|i: int| 0 <= i < e.len() implies !e[i] by {
            assert(e[i] == d[i]);
        }
        lemma_nothing_delivered_is_silence(got, e, ch);
        assert(!d.last());
        assert(d.len() * ch == e.len() * ch + ch) by (nonlinear_arith)
            requires
                d.len() == e.len() + 1,
        ;
        assert(silence(e.len() * ch) + silence(ch) =~= silence(d.len() * ch));
    }
}

/// Pulls frames for the output device and counts underruns.
pub struct DeviceSink {
    channels: usize,
    underruns: u64,
}

impl DeviceSink {
    pub closed spec fn channels_spec(&self) -> nat {
        self.channels as nat
    }

    /// Frames written as silence because the ring was empty, over the
    /// sink's life (it stops counting at `u64::MAX`).
    pub closed spec fn underruns_spec(&self) -> nat {
        self.underruns as nat
    }

    pub fn new(channels: usize) -> (r: DeviceSink)
        requires
            channels > 0,
        ensures
            r.channels_spec() == channels,
            r.underruns_spec() == 0,
    {
        DeviceSink { channels, underruns: 0 }
    }

    pub fn channels(&self) -> (r: usize)
        ensures
            r == self.channels_spec(),
    {
        self.channels
    }

    pub fn underruns(&self) -> (r: u64)
        ensures
            r == self.underruns_spec(),
    {
        self.underruns
    }

    /// Appends `frames` frames to `out`: for each, `channels` samples taken
    /// from the ring in one piece, or, when the ring holds fewer, silence and
    /// one underrun. Returns the underruns of this call. A frame is silent
    /// only when the ring held less than a frame: every frame for which the
    /// consumer already saw the samples is played.
    pub fn fill(&mut self, c: &mut rtrb::Consumer<u32>, frames: usize, out: &mut Vec<u32>) -> (misses: u64)
        requires
            old(self).channels_spec() > 0,
        ensures
            final(self).channels_spec() == old(self).channels_spec(),
            exists|d: Seq<bool>, got: Seq<u32>|
                {
                    &&& d.len() == frames
                    &&& got.len() == count_delivered(d) * old(self).channels_spec()
                    &&& taken(*final(c)) == taken(*old(c)) + got
                    &&& final(out)@ == old(out)@ + frames_output(got, d, old(self).channels_spec())
                    &&& misses == frames - count_delivered(d)
                    &&& forall|i: int|
                        0 <= i < frames && (i + 1) * old(self).channels_spec() <= known_avail(
                            *old(c),
                        ) ==> #[trigger] d[i]
                },
            known_avail(*old(c)) >= frames * old(self).channels_spec() ==> misses == 0,
            final(self).underruns_spec() == if old(self).underruns_spec() + misses <= u64::MAX {
                (old(self).underruns_spec() + misses) as nat
            } else {
                u64::MAX as nat
            },
    {
        let ch = self.channels;
        let ghost c0 = taken(*c);
        let ghost out0 = out@;
        let ghost k0 = known_avail(*c);
        let ghost mut d: Seq<bool> = Seq::empty();
        let ghost mut got: Seq<u32> = Seq::empty();
        let mut misses: u64 = 0;
        let mut f: usize = 0;
        assert(count_delivered(d) == 0);
        while f < frames
            invariant
                ch == self.channels,
                ch > 0,
                f <= frames,
                d.len() == f,
                got.len() == count_delivered(d) * ch,
                count_delivered(d) <= d.len(),
                taken(*c) == c0 + got,
                out@ == out0 + frames_output(got, d, ch as nat),
                misses == f - count_delivered(d),
                self.underruns == old(self).underruns,
                k0 == known_avail(*old(c)),
                f * ch <= k0 ==> count_delivered(d) == f && known_avail(*c) == k0 - f * ch,
                forall|i: int| 0 <= i < f && (i + 1) * ch <= k0 ==> #[trigger] d[i],
            decreases frames - f,
        {
            let ghost before = got;
            let ghost out_before = out@;
            let ghost avail_before = known_avail(*c);
            let ok = try_pop_chunk(c, ch, out);
            if ok {
                proof {
                    let g = choose|g: Seq<u32>|
                        g.len() == ch as nat && taken(*c) == c0 + before + g && out@ == out_before + g;
                    lemma_frames_output_prefix(before, g, d, ch as nat);
                    got = before + g;
                    let k = count_delivered(d);
                    let d_old = d;
                    d = d.push(true);
                    assert(d.drop_last() =~= d_old);
                    assert(count_delivered(d) == k + 1);
                    assert((k + 1) * ch == k * ch + ch) by (nonlinear_arith);
                    assert(got.subrange((k * ch) as int, ((k + 1) * ch) as int) =~= g);
                    assert(taken(*c) == c0 + got) by {
                        assert(c0 + before + g =~= c0 + (before + g));
                    }
                    assert(out@ =~= out0 + frames_output(got, d, ch as nat));
                    assert((f + 1) * ch == f * ch + ch) by (nonlinear_arith);
                    assert forall|i: int| 0 <= i < f + 1 && (i + 1) * ch <= k0 implies #[trigger] d[i] by {
                        if i < f {
                            assert(d[i] == d_old[i]);
                        }
                    }
                }
            } else {
                let mut i: usize = 0;
                while i < ch
                    invariant
                        i <= ch,
                        out@ == out_before + silence(i as nat),
                    decreases ch - i,
                {
                    out.push(0);
                    assert(out_before + silence((i + 1) as nat) =~= (out_before + silence(
                        i as nat,
                    )).push(0u32));
                    i = i + 1;
                }
                misses = misses + 1;
                proof {
                    let k = count_delivered(d);
                    let d_old = d;
                    d = d.push(false);
                    assert(d.drop_last() =~= d_old);
                    assert(count_delivered(d) == k);
                    assert(out@ =~= out0 + frames_output(got, d, ch as nat));
                    assert((f + 1) * ch == f * ch + ch) by (nonlinear_arith);
                    assert(f * ch <= k0 ==> avail_before == k0 - f * ch);
                    assert(avail_before < ch);
                    assert((f + 1) * ch > k0);
                    assert forall|i: int| 0 <= i < f + 1 && (i + 1) * ch <= k0 implies #[trigger] d[i] by {
                        if i < f {
                            assert(d[i] == d_old[i]);
                        } else {
                            assert(i == f);
                        }
                    }
                }
            }
            f = f + 1;
        }
        if self.underruns <= u64::MAX - misses {
            self.underruns = self.underruns + misses;
        } else {
            self.underruns = u64::MAX;
        }
        misses
    }

    /// Like `fill`, from a ring that this sink's owner holds whole: the
    /// first frames are played from the ring as long as it holds a whole
    /// frame, the rest are silence, each counted as one underrun.
    pub fn fill_from_ring(&mut self, ring: &mut RingBuffer, frames: usize, out: &mut Vec<u32>) -> (misses: u64)
        requires
            old(self).channels_spec() > 0,
            old(ring).wf(),
        ensures
            final(ring).wf(),
            final(ring).capacity_spec() == old(ring).capacity_spec(),
            final(self).channels_spec() == old(self).channels_spec(),
            ({
                let ch = old(self).channels_spec();
                let q = old(ring).contents();
                let m = if frames <= q.len() / ch { frames as nat } else { q.len() / ch };
                &&& final(out)@ == old(out)@ + q.take((m * ch) as int) + silence(
                    ((frames - m) * ch) as nat,
                )
                &&& final(ring).contents() == q.skip((m * ch) as int)
                &&& misses == frames - m
            }),
            final(self).underruns_spec() == if old(self).underruns_spec() + misses <= u64::MAX {
                (old(self).underruns_spec() + misses) as nat
            } else {
                u64::MAX as nat
            },
    {
        let ch = self.channels;
        let ghost q = ring.contents();
        let ghost out0 = out@;
        let ghost qf = q.len() / (ch as nat);
        proof {
            vstd::arithmetic::div_mod::lemma_fundamental_div_mod(q.len() as int, ch as int);
            vstd::arithmetic::div_mod::lemma_mod_pos_bound(q.len() as int, ch as int);
            assert(qf * ch == ch * qf) by (nonlinear_arith);
        }
        let mut misses: u64 = 0;
        let mut f: usize = 0;
        while f < frames
            invariant
                ch == self.channels,
                ch > 0,
                f <= frames,
                qf == q.len() / (ch as nat),
                qf * ch <= q.len() < qf * ch + ch,
                q == old(ring).contents(),
                out0 == old(out)@,
                ring.wf(),
                ring.capacity_spec() == old(ring).capacity_spec(),
                self.underruns == old(self).underruns,
                ({
                    let m = if f <= qf { f as nat } else { qf };
                    &&& out@ == out0 + q.take((m * ch) as int) + silence(((f - m) * ch) as nat)
                    &&& ring.contents() == q.skip((m * ch) as int)
                    &&& misses == f - m
                }),
            decreases frames - f,
        {
            let ghost out_before = out@;
            let ghost m = if f <= qf { f as nat } else { qf };
            proof {
                assert(m * ch <= qf * ch) by (nonlinear_arith)
                    requires
                        m <= qf,
                ;
            }
            let ok = ring.try_pop_chunk(ch, out);
            if ok {
                proof {
                    assert(f < qf) by {
                        if f >= qf {
                            assert(m == qf);
                        }
                    }
                    assert((f + 1) * ch == f * ch + ch) by (nonlinear_arith);
                    assert((f + 1) * ch <= qf * ch) by (nonlinear_arith)
                        requires
                            f + 1 <= qf,
                    ;
                    assert(out@ =~= out0 + q.take(((f + 1) * ch) as int) + silence(0));
                    assert(ring.contents() =~= q.skip(((f + 1) * ch) as int));
                }
            } else {
                proof {
                    assert(f >= qf) by {
                        if f < qf {
                            assert((f + 1) * ch <= qf * ch) by (nonlinear_arith)
                                requires
                                    f + 1 <= qf,
                            ;
                            assert((f + 1) * ch == f * ch + ch) by (nonlinear_arith);
                        }
                    }
                }
                let mut i: usize = 0;
                while i < ch
                    invariant
                        i <= ch,
                        out@ == out_before + silence(i as nat),
                    decreases ch - i,
                {
                    out.push(0);
                    assert(out_before + silence((i + 1) as nat) =~= (out_before + silence(
                        i as nat,
                    )).push(0u32));
                    i = i + 1;
                }
                misses = misses + 1;
                proof {
                    let m1 = if f + 1 <= qf { (f + 1) as nat } else { qf };
                    assert(m1 == m);
                    assert((f + 1 - m) * ch == (f - m) * ch + ch) by (nonlinear_arith)
                        requires
                            f >= m,
                    ;
                    assert(silence(((f - m) * ch) as nat) + silence(ch as nat) =~= silence(
                        ((f + 1 - m) * ch) as nat,
                    ));
                    assert(out@ =~= out0 + q.take((m * ch) as int) + silence(
                        ((f + 1 - m) * ch) as nat,
                    ));
                }
            }
            f = f + 1;
        }
        if self.underruns <= u64::MAX - misses {
            self.underruns = self.underruns + misses;
        } else {
            self.underruns = u64::MAX;
        }
        misses
    }
}

} // verus!
