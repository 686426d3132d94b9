//! The level meter's share of the analysis path: how much it drains from
//! the analysis ring per poll, and which snapshot a poll reports.

use vstd::prelude::*;
use crate::config::frames_in_spec;
use crate::layout::{is_deinterleaving, planar_view};
use crate::ring::{known_avail, taken, try_pop_chunk};

verus! {

/// Frames in `nanos` nanoseconds at `rate` frames per second, rounded to
/// the nearest.
pub fn frames_in(nanos: u64, rate: u32) -> (r: u128)
    ensures
        r as nat == frames_in_spec(nanos as nat, rate as nat),
{
    let a: u128 = nanos as u128;
    let b: u128 = rate as u128;
    assert(a * b <= 0xffff_ffff_ffff_ffffu128 * 0xffff_ffffu128) by (nonlinear_arith)
        requires
            a <= 0xffff_ffff_ffff_ffffu128,
            b <= 0xffff_ffffu128,
    ;
    (2 * (a * b) + 1_000_000_000) / 2_000_000_000
}

/// The snapshot after a poll that drained `frames` frames and measured
/// `fresh` from them: the fresh one when any frame came, the previous one
/// otherwise.
pub open spec fn settled(prev: (u32, u32), frames: nat, fresh: (u32, u32)) -> (u32, u32) {
    if frames > 0 {
        fresh
    } else {
        prev
    }
}

/// Stereo level meter fed by the analysis ring. Levels are kept as the bit
/// patterns of their 32-bit float values.
pub struct LevelMeter {
    rate: u32,
    snapshot: (u32, u32),
}

impl LevelMeter {
    pub closed spec fn rate_spec(&self) -> nat {
        self.rate as nat
    }

    /// The last reported per-channel levels.
    pub closed spec fn snapshot_spec(&self) -> (u32, u32) {
        self.snapshot
    }

    /// A meter for a device running at `rate` frames per second; it reports
    /// silence (`0.0` on both channels) until the first frames arrive.
    pub fn new(rate: u32) -> (r: LevelMeter)
        ensures
            r.rate_spec() == rate,
            r.snapshot_spec() == (0u32, 0u32),
    {
        LevelMeter { rate, snapshot: (0, 0) }
    }

    pub fn snapshot(&self) -> (r: (u32, u32))
        ensures
            r == self.snapshot_spec(),
    {
        self.snapshot
    }

    /// Drains whole frames, up to the frames that the device played in
    /// `nanos` nanoseconds, fewer only when the ring holds fewer; never
    /// blocks. Returns the drained frames per channel: exactly the samples
    /// taken, in order, and no partial frame.
    pub fn drain(&self, c: &mut rtrb::Consumer<u32>, nanos: u64) -> (r: (Vec<u32>, Vec<u32>))
        ensures
            r.0@.len() == r.1@.len(),
            r.0@.len() <= frames_in_spec(nanos as nat, self.rate_spec()),
            exists|got: Seq<u32>|
                {
                    &&& got.len() == 2 * r.0@.len()
                    &&& taken(*final(c)) == taken(*old(c)) + got
                    &&& is_deinterleaving(seq![r.0@, r.1@], got, 0, 2, r.0@.len())
                },
            r.0@.len() == frames_in_spec(nanos as nat, self.rate_spec()) || r.0@.len()
                >= known_avail(*old(c)) / 2,
            r.0@.len() < frames_in_spec(nanos as nat, self.rate_spec()) ==> known_avail(*final(c))
                < 2,
    {
        let wanted = frames_in(nanos, self.rate);
        let ghost c0 = taken(*c);
        let ghost mut got: Seq<u32> = Seq::empty();
        let mut left: Vec<u32> = Vec::new();
        let mut right: Vec<u32> = Vec::new();
        let ghost k0 = known_avail(*c);
        let mut more = true;
        while more && (left.len() as u128) < wanted
            invariant
                k0 == known_avail(*old(c)),
                more && 2 * left@.len() <= k0 ==> known_avail(*c) == k0 - 2 * left@.len(),
                !more ==> known_avail(*c) < 2 && left@.len() >= k0 / 2,
                left@.len() == right@.len(),
                left@.len() <= wanted,
                wanted == frames_in_spec(nanos as nat, self.rate_spec()),
                taken(*c) == c0 + got,
                got.len() == 2 * left@.len(),
                c0 == taken(*old(c)),
                is_deinterleaving(seq![left@, right@], got, 0, 2, left@.len()),
            decreases wanted - left@.len(), (if more { 1int } else { 0int }),
        {
            let mut frame: Vec<u32> = Vec::new();
            let ghost before = got;
            let ghost avail_before = known_avail(*c);
            if !try_pop_chunk(c, 2, &mut frame) {
                more = false;
                assert(avail_before < 2);
                continue;
            }
            let ghost n = left@.len();
            let ghost l0 = left@;
            let ghost r0 = right@;
            proof {
                let g = choose|g: Seq<u32>| g.len() == 2 && taken(*c) == c0 + before + g && frame@ == g;
                got = before + g;
                assert(c0 + before + g =~= c0 + got);
            }
            left.push(frame[0]);
            right.push(frame[1]);
            proof {
                let p = seq![left@, right@];
                assert(got.len() == 2 * n + 2);
                let q = seq![l0, r0];
                assert forall|h: int, d: int| 0 <= h < n + 1 && 0 <= d < 2 implies #[trigger] p[d][h]
                    == got[0 + h * 2 + d] by {
                    if h < n {
                        assert(p[d][h] == q[d][h]);
                        assert(q[d][h] == before[0 + h * 2 + d]);
                    } else {
                        assert(h * 2 + d == 2 * n + d);
                    }
                }
                assert forall|d: int| 0 <= d < 2 implies #[trigger] p[d].len() == n + 1 by {}
            }
        }
        (left, right)
    }

    /// Ends a poll: keeps `fresh` when `frames > 0`, else the previous
    /// snapshot, and returns what is kept.
    pub fn settle(&mut self, frames: usize, fresh: (u32, u32)) -> (r: (u32, u32))
        ensures
            final(self).rate_spec() == old(self).rate_spec(),
            final(self).snapshot_spec() == settled(old(self).snapshot_spec(), frames as nat, fresh),
            r == final(self).snapshot_spec(),
    {
        if frames > 0 {
            self.snapshot = fresh;
        }
        self.snapshot
    }
}

/// A poll with no elapsed time drains nothing and reports the previous
/// snapshot unchanged, not zero.
pub proof fn lemma_idle_poll_keeps_snapshot(rate: nat, prev: (u32, u32), fresh: (u32, u32))
    ensures
        frames_in_spec(0, rate) == 0,
        settled(prev, frames_in_spec(0, rate), fresh) == prev,
{
    assert(0 * rate == 0);
    assert(1_000_000_000nat / 2_000_000_000nat == 0) by (nonlinear_arith);
}

} // verus!
