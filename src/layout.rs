//! Sample layouts: interleaved (L, R, L, R, ...) and planar (all L, then
//! all R).

use vstd::prelude::*;

verus! {

/// How a decoded block is laid out when it is copied out of the decoder.
#[derive(Clone, Copy, Debug, PartialEq, Eq, Structural)]
pub enum CopyMethod {
    Interleaved,
    Planar,
}

/// The contents of per-channel buffers.
pub open spec fn planar_view(p: Seq<Vec<u32>>) -> Seq<Seq<u32>> {
    p.map_values(|v: Vec<u32>| v@)
}

/// `planar` holds `ch` channels of at least `frames` samples each.
pub open spec fn planar_covers(planar: Seq<Seq<u32>>, ch: nat, frames: nat) -> bool {
    planar.len() == ch && forall|c: int| 0 <= c < ch ==> #[trigger] planar[c].len() >= frames
}

/// `r` interleaves the first `frames` samples of each of the `ch` channels.
pub open spec fn is_interleaving(r: Seq<u32>, planar: Seq<Seq<u32>>, ch: nat, frames: nat) -> bool {
    &&& r.len() == frames * ch
    &&& forall|g: int, c: int|
        0 <= g < frames && 0 <= c < ch ==> r[g * ch + c] == #[trigger] planar[c][g]
}

/// `r` is the planar form of `frames` frames of `ch` interleaved samples
/// starting at `s[start]`.
pub open spec fn is_deinterleaving(
    r: Seq<Seq<u32>>,
    s: Seq<u32>,
    start: nat,
    ch: nat,
    frames: nat,
) -> bool {
    &&& r.len() == ch
    &&& forall|c: int| 0 <= c < ch ==> #[trigger] r[c].len() == frames
    &&& forall|g: int, c: int|
        0 <= g < frames && 0 <= c < ch ==> #[trigger] r[c][g] == s[start + g * ch + c]
}

proof fn lemma_index_bounds(g: int, c: int, ch: int, frames: int)
    requires
        0 <= g < frames,
        0 <= c < ch,
    ensures
        0 <= g * ch + c < frames * ch,
        g * ch + c >= g * ch,
{
    assert(0 <= g * ch + c < frames * ch) by (nonlinear_arith)
        requires
            0 <= g < frames,
            0 <= c < ch,
    ;
}

/// Interleaves the first `frames` samples of each channel.
pub fn interleave(planar: &Vec<Vec<u32>>, frames: usize) -> (r: Vec<u32>)
    requires
        planar@.len() > 0,
        planar_covers(planar_view(planar@), planar@.len(), frames as nat),
        frames * planar@.len() <= usize::MAX,
    ensures
        is_interleaving(r@, planar_view(planar@), planar@.len(), frames as nat),
{
    let ch = planar.len();
    let ghost p = planar_view(planar@);
    let mut r: Vec<u32> = Vec::new();
    let mut g: usize = 0;
    while g < frames
        invariant
            ch == planar@.len(),
            ch > 0,
            p == planar_view(planar@),
            planar_covers(p, ch as nat, frames as nat),
            frames * ch <= usize::MAX,
            g <= frames,
            r@.len() == g * ch,
            forall|h: int, c: int| 0 <= h < g && 0 <= c < ch ==> r@[h * ch + c] == #[trigger] p[c][h],
        decreases frames - g,
    {
        let mut c: usize = 0;
        while c < ch
            invariant
                ch == planar@.len(),
                ch > 0,
                p == planar_view(planar@),
                planar_covers(p, ch as nat, frames as nat),
                frames * ch <= usize::MAX,
                g < frames,
                c <= ch,
                r@.len() == g * ch + c,
                forall|h: int, d: int| 0 <= h < g && 0 <= d < ch ==> r@[h * ch + d] == #[trigger] p[d][h],
                forall|d: int| 0 <= d < c ==> r@[g * ch + d] == #[trigger] p[d][g as int],
            decreases ch - c,
        {
            assert(planar@[c as int]@ == p[c as int]);
            assert(p[c as int].len() >= frames);
            r.push(planar[c][g]);
            proof {
                assert forall|h: int, d: int| 0 <= h < g && 0 <= d < ch implies r@[h * ch + d]
                    == #[trigger] p[d][h] by {
                    lemma_index_bounds(h, d, ch as int, g as int);
                }
            }
            c = c + 1;
        }
        proof {
            assert((g + 1) * ch == g * ch + ch) by (nonlinear_arith);
            assert forall|h: int, d: int| 0 <= h < g + 1 && 0 <= d < ch implies r@[h * ch + d]
                == #[trigger] p[d][h] by {
                if h < g {
                } else {
                    assert(h == g);
                }
            }
        }
        g = g + 1;
    }
    r
}

/// Splits `frames` interleaved frames of `ch` samples, starting at
/// `s[start]`, into one buffer per channel.
pub fn deinterleave(s: &Vec<u32>, start: usize, ch: usize, frames: usize) -> (r: Vec<Vec<u32>>)
    requires
        ch > 0,
        start + frames * ch <= s@.len(),
    ensures
        is_deinterleaving(planar_view(r@), s@, start as nat, ch as nat, frames as nat),
{
    let n = s.len();
    let mut r: Vec<Vec<u32>> = Vec::new();
    let mut c: usize = 0;
    while c < ch
        invariant
            n == s@.len(),
            ch > 0,
            start + frames * ch <= s@.len(),
            c <= ch,
            r@.len() == c,
            forall|d: int| 0 <= d < c ==> #[trigger] r@[d]@.len() == frames,
            forall|g: int, d: int|
                0 <= g < frames && 0 <= d < c ==> #[trigger] r@[d]@[g] == s@[start + g * ch + d],
        decreases ch - c,
    {
        let mut v: Vec<u32> = Vec::new();
        let mut g: usize = 0;
        while g < frames
            invariant
                n == s@.len(),
                ch > 0,
                start + frames * ch <= s@.len(),
                c < ch,
                g <= frames,
                v@.len() == g,
                forall|h: int| 0 <= h < g ==> #[trigger] v@[h] == s@[start + h * ch + c],
            decreases frames - g,
        {
            proof {
                lemma_index_bounds(g as int, c as int, ch as int, frames as int);
                assert(g * ch + c < frames * ch);
                assert(start + g * ch + c < s@.len());
            }
            let k: usize = g * ch;
            v.push(s[start + k + c]);
            g = g + 1;
        }
        r.push(v);
        c = c + 1;
    }
    proof {
        let p = planar_view(r@);
        assert forall|d: int| 0 <= d < ch implies #[trigger] p[d].len() == frames by {
            assert(p[d] == r@[d]@);
        }
        assert forall|g: int, d: int| 0 <= g < frames && 0 <= d < ch implies #[trigger] p[d][g]
            == s@[start + g * ch + d] by {
            assert(p[d] == r@[d]@);
        }
    }
    r
}

/// Splits a planar stereo block into its left and right halves.
pub fn split_halves(s: &Vec<u32>) -> (r: (Vec<u32>, Vec<u32>))
    ensures
        r.0@ == s@.subrange(0, (s@.len() / 2) as int),
        r.1@ == s@.subrange((s@.len() / 2) as int, s@.len() as int),
{
    let mid = s.len() / 2;
    let mut left: Vec<u32> = Vec::new();
    let mut right: Vec<u32> = Vec::new();
    let mut i: usize = 0;
    while i < s.len()
        invariant
            mid == s@.len() / 2,
            i <= s@.len(),
            i <= mid ==> left@ == s@.subrange(0, i as int) && right@.len() == 0,
            i > mid ==> left@ == s@.subrange(0, mid as int) && right@ == s@.subrange(mid as int, i as int),
        decreases s@.len() - i,
    {
        if i < mid {
            left.push(s[i]);
            assert(left@ =~= s@.subrange(0, (i + 1) as int));
        } else {
            right.push(s[i]);
            assert(right@ =~= s@.subrange(mid as int, (i + 1) as int));
        }
        i = i + 1;
    }
    (left, right)
}

/// Splitting interleaved frames per channel and interleaving them again
/// gives back the same samples.
pub proof fn lemma_interleave_deinterleave(
    r: Seq<u32>,
    planar: Seq<Seq<u32>>,
    s: Seq<u32>,
    ch: nat,
    frames: nat,
)
    requires
        ch > 0,
        frames * ch <= s.len(),
        is_deinterleaving(planar, s, 0, ch, frames),
        is_interleaving(r, planar, ch, frames),
    ensures
        r == s.subrange(0, (frames * ch) as int),
{
    assert forall|i: int| 0 <= i < r.len() implies r[i] == s[i] by {
        let g = i / (ch as int);
        let c = i % (ch as int);
        vstd::arithmetic::div_mod::lemma_fundamental_div_mod(i, ch as int);
        vstd::arithmetic::div_mod::lemma_mod_pos_bound(i, ch as int);
        assert(0 <= g < frames) by (nonlinear_arith)
            requires
                i == ch * g + c,
                0 <= c < ch,
                0 <= i < frames * ch,
        ;
        assert(g * ch == ch * g) by (nonlinear_arith);
        assert(r[g * ch + c] == planar[c][g]);
        assert(planar[c][g] == s[0 + g * ch + c]);
    }
    assert(r =~= s.subrange(0, (frames * ch) as int));
}

} // verus!
