//! Single-producer/single-consumer sample rings, backed by `rtrb`.
//!
//! The two handles of one ring usually live on different threads, so each
//! handle is described by what it alone has done and seen: the producer by
//! every sample it has written and the free room it last saw, the consumer by
//! every sample it has taken out and the samples it last saw waiting. Where
//! one owner holds both handles (`RingBuffer`), the ring is an exact FIFO
//! queue of fixed capacity.

use vstd::prelude::*;

verus! {

/// A sample as the bit pattern of its 32-bit float value.
pub type Sample = u32;

#[verifier::external_type_specification]
#[verifier::external_body]
#[verifier::reject_recursive_types(T)]
pub struct ExProducer<T>(rtrb::Producer<T>);

#[verifier::external_type_specification]
#[verifier::external_body]
#[verifier::reject_recursive_types(T)]
pub struct ExConsumer<T>(rtrb::Consumer<T>);

/// Largest ring, in samples: its storage stays under `isize::MAX` bytes
/// on every target.
pub const MAX_RING_CAPACITY: usize = 0x1fff_ffff;

/// Every sample that this producer has written into its ring, oldest first.
pub uninterp spec fn written(p: rtrb::Producer<u32>) -> Seq<u32>;

/// The capacity of the ring that this producer writes into.
pub uninterp spec fn producer_capacity(p: rtrb::Producer<u32>) -> nat;

/// Free slots as this producer last saw them; the consumer may have freed
/// more since.
pub uninterp spec fn known_free(p: rtrb::Producer<u32>) -> nat;

/// Every sample that this consumer has taken out of its ring, oldest first.
pub uninterp spec fn taken(c: rtrb::Consumer<u32>) -> Seq<u32>;

/// Samples waiting as this consumer last saw them; the producer may have
/// written more since.
pub uninterp spec fn known_avail(c: rtrb::Consumer<u32>) -> nat;

/// The two handles belong to one ring.
pub uninterp spec fn same_ring(p: rtrb::Producer<u32>, c: rtrb::Consumer<u32>) -> bool;

/// What a ring holds while both handles stand still: `taken` is a prefix of
/// `written`, and the difference fits the capacity.
pub open spec fn in_step(w: Seq<u32>, t: Seq<u32>, cap: nat) -> bool {
    &&& t.len() <= w.len()
    &&& t == w.subrange(0, t.len() as int)
    &&& w.len() - t.len() <= cap
}

/// Relies on `rtrb::RingBuffer::new`: a fresh ring of the given capacity,
/// nothing written and nothing taken. Its storage is one allocation of
/// `capacity` samples, which must stay under `isize::MAX` bytes.
#[verifier::external_body]
fn ring_new(capacity: usize) -> (r: (rtrb::Producer<u32>, rtrb::Consumer<u32>))
    requires
        capacity <= MAX_RING_CAPACITY,
    ensures
        same_ring(r.0, r.1),
        written(r.0) == Seq::<u32>::empty(),
        producer_capacity(r.0) == capacity as nat,
        known_free(r.0) == capacity as nat,
        taken(r.1) == Seq::<u32>::empty(),
        known_avail(r.1) == 0,
{
    rtrb::RingBuffer::<u32>::new(capacity)
}

/// Relies on `rtrb::Producer::push`: on success the sample is written after
/// all earlier ones. It cannot fail while the producer already saw a free
/// slot; otherwise it looks again, and fails only when the ring holds
/// `capacity` samples.
#[verifier::external_body]
fn ring_push(p: &mut rtrb::Producer<u32>, v: u32) -> (ok: bool)
    ensures
        ok ==> written(*final(p)) == written(*old(p)).push(v),
        !ok ==> written(*final(p)) == written(*old(p)),
        !ok ==> written(*old(p)).len() >= producer_capacity(*old(p)),
        !ok ==> known_free(*final(p)) == 0,
        known_free(*old(p)) > 0 ==> ok && known_free(*final(p)) == known_free(*old(p)) - 1,
        producer_capacity(*final(p)) == producer_capacity(*old(p)),
        forall|c: rtrb::Consumer<u32>| same_ring(*old(p), c) ==> same_ring(*final(p), c),
{
    p.push(v).is_ok()
}

/// Relies on `rtrb::Consumer::read_chunk` and the consuming iterator of the
/// chunk: either `n` samples are taken, in ring order, and appended to `out`,
/// or (too few are there) nothing is taken. It cannot fail while the
/// consumer already saw `n` waiting.
#[verifier::external_body]
fn ring_read(c: &mut rtrb::Consumer<u32>, n: usize, out: &mut Vec<u32>) -> (ok: bool)
    ensures
        ok ==> exists|got: Seq<u32>|
            got.len() == n as nat && taken(*final(c)) == taken(*old(c)) + got && final(out)@
                == old(out)@ + got,
        !ok ==> taken(*final(c)) == taken(*old(c)) && final(out)@ == old(out)@,
        !ok ==> known_avail(*final(c)) < n,
        known_avail(*old(c)) >= n ==> ok && known_avail(*final(c)) == known_avail(*old(c)) - n,
        forall|p: rtrb::Producer<u32>| same_ring(p, *old(c)) ==> same_ring(p, *final(c)),
{
    match c.read_chunk(n) {
        Ok(chunk) => {
            out.extend(chunk);
            true
        },
        Err(_) => false,
    }
}

/// Relies on `rtrb::Producer::slots`: the free slots, read afresh. With the
/// consumer borrowed here nothing moves meanwhile, so the count is exact.
#[verifier::external_body]
fn producer_slots(p: &mut rtrb::Producer<u32>, c: &rtrb::Consumer<u32>) -> (r: usize)
    ensures
        written(*final(p)) == written(*old(p)),
        producer_capacity(*final(p)) == producer_capacity(*old(p)),
        known_free(*final(p)) == r,
        forall|d: rtrb::Consumer<u32>| same_ring(*old(p), d) ==> same_ring(*final(p), d),
        same_ring(*old(p), *c) ==> in_step(written(*old(p)), taken(*c), producer_capacity(*old(p)))
            && r + written(*old(p)).len() - taken(*c).len() == producer_capacity(*old(p)),
{
    p.slots()
}

/// Relies on `rtrb::Consumer::slots`: the samples waiting, read afresh.
/// With the producer borrowed here nothing moves meanwhile, so the count is
/// exact.
#[verifier::external_body]
fn consumer_slots(c: &mut rtrb::Consumer<u32>, p: &rtrb::Producer<u32>) -> (r: usize)
    ensures
        taken(*final(c)) == taken(*old(c)),
        known_avail(*final(c)) == r,
        forall|q: rtrb::Producer<u32>| same_ring(q, *old(c)) ==> same_ring(q, *final(c)),
        same_ring(*p, *old(c)) ==> in_step(written(*p), taken(*old(c)), producer_capacity(*p)) && r
            == written(*p).len() - taken(*old(c)).len(),
{
    c.slots()
}

/// Creates a ring of `capacity` samples and returns its two handles.
pub fn new_ring(capacity: usize) -> (r: (rtrb::Producer<u32>, rtrb::Consumer<u32>))
    requires
        capacity <= MAX_RING_CAPACITY,
    ensures
        same_ring(r.0, r.1),
        written(r.0) == Seq::<u32>::empty(),
        producer_capacity(r.0) == capacity as nat,
        known_free(r.0) == capacity as nat,
        taken(r.1) == Seq::<u32>::empty(),
        known_avail(r.1) == 0,
{
    ring_new(capacity)
}

/// Offers one sample to the ring without blocking; `false` when it is full.
pub fn try_push(p: &mut rtrb::Producer<u32>, v: Sample) -> (ok: bool)
    ensures
        ok ==> written(*final(p)) == written(*old(p)).push(v),
        !ok ==> written(*final(p)) == written(*old(p)),
        !ok ==> written(*old(p)).len() >= producer_capacity(*old(p)),
        !ok ==> known_free(*final(p)) == 0,
        known_free(*old(p)) > 0 ==> ok && known_free(*final(p)) == known_free(*old(p)) - 1,
        producer_capacity(*final(p)) == producer_capacity(*old(p)),
        forall|c: rtrb::Consumer<u32>| same_ring(*old(p), c) ==> same_ring(*final(p), c),
{
    ring_push(p, v)
}

/// Takes exactly `n` samples, appending them to `out`, or takes none.
pub fn try_pop_chunk(c: &mut rtrb::Consumer<u32>, n: usize, out: &mut Vec<Sample>) -> (ok: bool)
    ensures
        ok ==> exists|got: Seq<u32>|
            got.len() == n as nat && taken(*final(c)) == taken(*old(c)) + got && final(out)@
                == old(out)@ + got,
        !ok ==> taken(*final(c)) == taken(*old(c)) && final(out)@ == old(out)@,
        !ok ==> known_avail(*final(c)) < n,
        known_avail(*old(c)) >= n ==> ok && known_avail(*final(c)) == known_avail(*old(c)) - n,
        forall|p: rtrb::Producer<u32>| same_ring(p, *old(c)) ==> same_ring(p, *final(c)),
{
    ring_read(c, n, out)
}

/// `n` samples of silence.
pub open spec fn silence(n: nat) -> Seq<u32> {
    Seq::new(n, |i: int| 0u32)
}

/// Writes `n` samples of silence, so that playback starts with a latency
/// cushion. The room must be there: a producer that has written fewer than
/// `capacity` samples in all is never refused.
pub fn prefill_silence(p: &mut rtrb::Producer<u32>, n: usize)
    requires
        written(*old(p)).len() + n <= producer_capacity(*old(p)),
    ensures
        written(*final(p)) == written(*old(p)) + silence(n as nat),
        producer_capacity(*final(p)) == producer_capacity(*old(p)),
{
    let ghost start = written(*p);
    let mut i: usize = 0;
    while i < n
        invariant
            i <= n,
            written(*p) == start + silence(i as nat),
            producer_capacity(*p) == producer_capacity(*old(p)),
            start.len() + n <= producer_capacity(*p),
        decreases n - i,
    {
        let ok = ring_push(p, 0);
        assert(ok);
        assert(start + silence((i + 1) as nat) =~= (start + silence(i as nat)).push(0u32));
        i = i + 1;
    }
}

/// A ring whose two handles are held by one owner: a fixed-capacity FIFO
/// queue of samples. `into_handles` parts it for two threads.
pub struct RingBuffer {
    producer: rtrb::Producer<u32>,
    consumer: rtrb::Consumer<u32>,
}

impl RingBuffer {
    pub closed spec fn capacity_spec(&self) -> nat {
        producer_capacity(self.producer)
    }

    /// The samples in the ring, oldest first.
    pub closed spec fn contents(&self) -> Seq<u32> {
        written(self.producer).skip(taken(self.consumer).len() as int)
    }

    pub closed spec fn wf(&self) -> bool {
        &&& same_ring(self.producer, self.consumer)
        &&& in_step(written(self.producer), taken(self.consumer), producer_capacity(self.producer))
    }

    pub fn new(capacity: usize) -> (r: RingBuffer)
        requires
            capacity <= MAX_RING_CAPACITY,
        ensures
            r.wf(),
            r.capacity_spec() == capacity,
            r.contents() == Seq::<u32>::empty(),
    {
        let (producer, consumer) = ring_new(capacity);
        let r = RingBuffer { producer, consumer };
        assert(r.contents() =~= Seq::<u32>::empty());
        r
    }

    /// Samples in the ring; never more than its capacity.
    pub fn len(&mut self) -> (r: usize)
        requires
            old(self).wf(),
        ensures
            final(self).wf(),
            r == old(self).contents().len(),
            r <= old(self).capacity_spec(),
            final(self).contents() == old(self).contents(),
            final(self).capacity_spec() == old(self).capacity_spec(),
    {
        consumer_slots(&mut self.consumer, &self.producer)
    }

    /// Offers one sample; it is taken exactly when fewer than `capacity`
    /// samples are in the ring.
    pub fn try_push(&mut self, v: Sample) -> (ok: bool)
        requires
            old(self).wf(),
        ensures
            final(self).wf(),
            ok <==> old(self).contents().len() < old(self).capacity_spec(),
            ok ==> final(self).contents() == old(self).contents().push(v),
            !ok ==> final(self).contents() == old(self).contents(),
            final(self).capacity_spec() == old(self).capacity_spec(),
    {
        let ghost w0 = written(self.producer);
        let ghost t0 = taken(self.consumer);
        let free = producer_slots(&mut self.producer, &self.consumer);
        if free == 0 {
            return false;
        }
        let ok = ring_push(&mut self.producer, v);
        proof {
            let w1 = written(self.producer);
            assert(w1 == w0.push(v));
            assert(t0 =~= w1.subrange(0, t0.len() as int));
            assert(w1.skip(t0.len() as int) =~= w0.skip(t0.len() as int).push(v));
        }
        ok
    }

    /// Takes exactly `n` samples, the oldest, appending them to `out`; takes
    /// none when fewer are in the ring.
    pub fn try_pop_chunk(&mut self, n: usize, out: &mut Vec<Sample>) -> (ok: bool)
        requires
            old(self).wf(),
        ensures
            final(self).wf(),
            ok <==> n <= old(self).contents().len(),
            ok ==> final(out)@ == old(out)@ + old(self).contents().take(n as int)
                && final(self).contents() == old(self).contents().skip(n as int),
            !ok ==> final(out)@ == old(out)@ && final(self).contents() == old(self).contents(),
            final(self).capacity_spec() == old(self).capacity_spec(),
    {
        let ghost w0 = written(self.producer);
        let ghost t0 = taken(self.consumer);
        let ghost out0 = out@;
        let avail = consumer_slots(&mut self.consumer, &self.producer);
        if avail < n {
            return false;
        }
        let ok = ring_read(&mut self.consumer, n, out);
        assert(ok);
        let _ = consumer_slots(&mut self.consumer, &self.producer);
        proof {
            let t1 = taken(self.consumer);
            let got = choose|got: Seq<u32>|
                got.len() == n as nat && t1 == t0 + got && out@ == out0 + got;
            assert(t1 == w0.subrange(0, t1.len() as int));
            assert(got =~= w0.skip(t0.len() as int).take(n as int)) by {
                assert forall|i: int| 0 <= i < n implies got[i] == w0.skip(t0.len() as int).take(
                    n as int,
                )[i] by {
                    assert(got[i] == t1[t0.len() + i]);
                    assert(t1[t0.len() + i] == w0[t0.len() + i]);
                }
            }
            assert(w0.skip(t1.len() as int) =~= w0.skip(t0.len() as int).skip(n as int));
        }
        true
    }

    /// Parts the ring into its producer and consumer, for two threads. Each
    /// handle has just looked at the other, so the producer sees all the
    /// free room and the consumer all the samples held.
    pub fn into_handles(self) -> (r: (rtrb::Producer<u32>, rtrb::Consumer<u32>))
        requires
            self.wf(),
        ensures
            same_ring(r.0, r.1),
            in_step(written(r.0), taken(r.1), producer_capacity(r.0)),
            producer_capacity(r.0) == self.capacity_spec(),
            written(r.0).skip(taken(r.1).len() as int) == self.contents(),
            known_free(r.0) + self.contents().len() == self.capacity_spec(),
            known_avail(r.1) == self.contents().len(),
    {
        let mut producer = self.producer;
        let mut consumer = self.consumer;
        let _ = producer_slots(&mut producer, &consumer);
        let _ = consumer_slots(&mut consumer, &producer);
        (producer, consumer)
    }
}

/// The samples held never exceed the capacity.
pub proof fn lemma_contents_fit(r: &RingBuffer)
    requires
        r.wf(),
    ensures
        r.contents().len() <= r.capacity_spec(),
{
}

/// `rs` is a run of ring states in which `s` is pushed sample by sample
/// into an empty ring, each push taken, and then `k` chunks of `n` samples
/// are taken out, each appended to the output, from `outs[0]` to `outs[k]`.
pub open spec fn pushes_then_pops(
    rs: Seq<RingBuffer>,
    s: Seq<u32>,
    n: nat,
    k: nat,
    outs: Seq<Seq<u32>>,
) -> bool {
    &&& rs.len() == s.len() + k + 1
    &&& outs.len() == k + 1
    &&& rs[0].contents() == Seq::<u32>::empty()
    &&& forall|i: int|
        0 <= i < s.len() ==> #[trigger] rs[i + 1].contents() == rs[i].contents().push(s[i])
    &&& forall|j: int|
        0 <= j < k ==> #[trigger] rs[s.len() + j + 1].contents() == rs[s.len() + j].contents().skip(
            n as int,
        ) && outs[j + 1] == outs[j] + rs[s.len() + j].contents().take(n as int)
}

proof fn lemma_pushes(rs: Seq<RingBuffer>, s: Seq<u32>, n: nat, k: nat, outs: Seq<Seq<u32>>, i: nat)
    requires
        pushes_then_pops(rs, s, n, k, outs),
        i <= s.len(),
    ensures
        rs[i as int].contents() == s.take(i as int),
    decreases i,
{
    if i > 0 {
        lemma_pushes(rs, s, n, k, outs, (i - 1) as nat);
        assert(rs[(i - 1) + 1].contents() == rs[i - 1].contents().push(s[i - 1]));
        assert(s.take(i - 1).push(s[i - 1]) =~= s.take(i as int));
    } else {
        assert(s.take(0) =~= Seq::<u32>::empty());
    }
}

proof fn lemma_pops(rs: Seq<RingBuffer>, s: Seq<u32>, n: nat, k: nat, outs: Seq<Seq<u32>>, j: nat)
    requires
        pushes_then_pops(rs, s, n, k, outs),
        s.len() == k * n,
        j <= k,
    ensures
        j * n <= s.len(),
        rs[s.len() + j as int].contents() == s.skip((j * n) as int),
        outs[j as int] == outs[0] + s.take((j * n) as int),
    decreases j,
{
    assert(j * n <= k * n) by (nonlinear_arith)
        requires
            j <= k,
    ;
    if j > 0 {
        let j1 = (j - 1) as nat;
        lemma_pops(rs, s, n, k, outs, j1);
        assert(j1 * n + n == j * n) by (nonlinear_arith)
            requires
                j1 == j - 1,
        ;
        let here = rs[s.len() + j1 as int].contents();
        assert(rs[s.len() + j1 as int + 1].contents() == here.skip(n as int) && outs[j1 as int + 1]
            == outs[j1 as int] + here.take(n as int));
        assert(here.skip(n as int) =~= s.skip((j * n) as int));
        assert(outs[0] + s.take((j1 * n) as int) + here.take(n as int) =~= outs[0] + s.take(
            (j * n) as int,
        ));
    } else {
        assert(j * n == 0) by (nonlinear_arith)
            requires
                j == 0,
        ;
        lemma_pushes(rs, s, n, k, outs, s.len());
        assert(s.take(s.len() as int) =~= s);
        assert(s.skip(0) =~= s);
        assert(outs[0] + s.take(0) =~= outs[0]);
    }
}

/// Round trip: samples pushed one by one into an empty ring and then taken
/// out in chunks of `n` come out as they went in, in order, each exactly
/// once, and the ring is empty again.
pub proof fn lemma_round_trip(
    rs: Seq<RingBuffer>,
    s: Seq<u32>,
    n: nat,
    k: nat,
    outs: Seq<Seq<u32>>,
)
    requires
        pushes_then_pops(rs, s, n, k, outs),
        s.len() == k * n,
    ensures
        outs[k as int] == outs[0] + s,
        rs[s.len() + k as int].contents() == Seq::<u32>::empty(),
{
    lemma_pops(rs, s, n, k, outs, k);
    assert(s.take((k * n) as int) =~= s);
    assert(s.skip((k * n) as int) =~= Seq::<u32>::empty());
}

} // verus!
