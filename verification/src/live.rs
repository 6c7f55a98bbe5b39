//! The hand-over of a DJ's audio to the mixer: a bounded ring of samples with
//! a cap on latency.
//!
//! A sample is the bit pattern of a 32-bit float.

use ringbuf::traits::{Consumer, Observer, Producer};
use vstd::prelude::*;

verus! {

/// A ring buffer of `ringbuf`, with samples as its items.
#[verifier::external_body]
pub struct SampleRing {
    ring: ringbuf::HeapRb<u32>,
}

/// The samples that a ring holds, oldest first.
pub uninterp spec fn ring_samples(r: SampleRing) -> Seq<u32>;

/// The samples that a ring can hold.
pub uninterp spec fn ring_capacity(r: SampleRing) -> nat;

/// The smaller number.
pub open spec fn smaller(a: nat, b: nat) -> nat {
    if a < b {
        a
    } else {
        b
    }
}

/// `ringbuf::HeapRb::new`: an empty ring of the given capacity.
#[verifier::external_body]
fn ring_new(capacity: usize) -> (r: SampleRing)
    requires
        capacity > 0,
    ensures
        ring_samples(r).len() == 0,
        ring_capacity(r) == capacity,
{
    SampleRing { ring: ringbuf::HeapRb::new(capacity) }
}

/// `ringbuf::traits::Observer::occupied_len`: the number of samples in the
/// ring, never more than its capacity.
#[verifier::external_body]
fn ring_len(r: &SampleRing) -> (n: usize)
    ensures
        n == ring_samples(*r).len(),
        n <= ring_capacity(*r),
{
    r.ring.occupied_len()
}

/// `ringbuf::traits::Producer::push_slice`: appends as many samples as there
/// is room for, from the front of the slice, and returns their number.
#[verifier::external_body]
fn ring_push(r: &mut SampleRing, samples: &[u32]) -> (n: usize)
    ensures
        n == smaller(
            samples@.len(),
            (ring_capacity(*old(r)) - ring_samples(*old(r)).len()) as nat,
        ),
        n <= samples@.len(),
        ring_samples(*final(r)) == ring_samples(*old(r)) + samples@.take(n as int),
        ring_capacity(*final(r)) == ring_capacity(*old(r)),
{
    r.ring.push_slice(samples)
}

/// `ringbuf::traits::Consumer::skip`: removes the oldest samples, at most
/// `count` of them.
#[verifier::external_body]
fn ring_skip(r: &mut SampleRing, count: usize) -> (n: usize)
    ensures
        n == smaller(count as nat, ring_samples(*old(r)).len()),
        ring_samples(*final(r)) == ring_samples(*old(r)).skip(n as int),
        ring_capacity(*final(r)) == ring_capacity(*old(r)),
{
    r.ring.skip(count)
}

/// `ringbuf::traits::Consumer::pop_slice`: moves the oldest samples to the
/// front of the slice, as many as it has room for, and returns their number;
/// the rest of the slice stays as it is.
#[verifier::external_body]
fn ring_pop(r: &mut SampleRing, out: &mut [u32]) -> (n: usize)
    ensures
        n == smaller(old(out)@.len(), ring_samples(*old(r)).len()),
        final(out)@ == ring_samples(*old(r)).take(n as int) + old(out)@.skip(n as int),
        ring_samples(*final(r)) == ring_samples(*old(r)).skip(n as int),
        ring_capacity(*final(r)) == ring_capacity(*old(r)),
{
    r.ring.pop_slice(out)
}

/// Samples that a live input buffers before the oldest are dropped: about
/// five seconds of stereo audio.
pub const MAX_LIVE_FRAMES: usize = 441_000;

/// What a live buffer holds.
pub struct LiveView {
    /// Samples that wait, oldest first.
    pub samples: Seq<u32>,
    /// Room for samples.
    pub capacity: nat,
    /// Samples that are kept when the mixer pulls.
    pub max_samples: nat,
    /// The DJ has gone.
    pub ended: bool,
}

/// The part of the waiting samples that a pull still sees: the most recent
/// `max_samples`.
pub open spec fn window(v: LiveView) -> Seq<u32> {
    if v.samples.len() > v.max_samples {
        v.samples.skip(v.samples.len() - v.max_samples)
    } else {
        v.samples
    }
}

/// The buffer after a push, and how many samples it took: as many as there is
/// room for.
pub open spec fn pushed(v: LiveView, samples: Seq<u32>) -> (LiveView, nat) {
    let n = smaller(samples.len(), (v.capacity - v.samples.len()) as nat);
    (LiveView { samples: v.samples + samples.take(n as int), ..v }, n)
}

/// The buffer after a pull of up to `len` samples, and those that came.
pub open spec fn pulled(v: LiveView, len: nat) -> (LiveView, Seq<u32>) {
    let n = smaller(len, window(v).len());
    (LiveView { samples: window(v).skip(n as int), ..v }, window(v).take(n as int))
}

/// The DJ has gone and every sample was pulled.
pub open spec fn played_out(v: LiveView) -> bool {
    v.ended && v.samples.len() == 0
}

/// The live DJ buffer: the decoder pushes samples, the mixer pulls them.
pub struct LiveBuffer {
    ring: SampleRing,
    max_samples: usize,
    ended: bool,
}

impl View for LiveBuffer {
    type V = LiveView;

    closed spec fn view(&self) -> LiveView {
        LiveView {
            samples: ring_samples(self.ring),
            capacity: ring_capacity(self.ring),
            max_samples: self.max_samples as nat,
            ended: self.ended,
        }
    }
}

impl LiveBuffer {
    /// A buffer with room for `capacity` samples, of which a pull sees the
    /// most recent `max_samples`.
    pub fn new(capacity: usize, max_samples: usize) -> (b: LiveBuffer)
        requires
            capacity > 0,
        ensures
            b@.samples.len() == 0,
            b@.capacity == capacity,
            b@.max_samples == max_samples,
            !b@.ended,
    {
        LiveBuffer { ring: ring_new(capacity), max_samples, ended: false }
    }

    /// Appends as many samples as there is room for and returns their number;
    /// the caller waits and offers the rest again, so that none is lost.
    pub fn push_samples(&mut self, samples: &[u32]) -> (n: usize)
        ensures
            n <= samples@.len(),
            (final(self)@, n as nat) == pushed(old(self)@, samples@),
    {
        ring_push(&mut self.ring, samples)
    }

    /// The number of waiting samples.
    pub fn buffered(&self) -> (n: usize)
        ensures
            n == self@.samples.len(),
    {
        ring_len(&self.ring)
    }

    /// Fills the front of `buffer` with the oldest samples of the window and
    /// returns their number; samples older than the window are dropped.
    pub fn next_buffer(&mut self, buffer: &mut [u32]) -> (n: usize)
        ensures
            n == pulled(old(self)@, old(buffer)@.len()).1.len(),
            n <= old(buffer)@.len(),
            final(buffer)@ == pulled(old(self)@, old(buffer)@.len()).1 + old(buffer)@.skip(n as int),
            final(self)@ == pulled(old(self)@, old(buffer)@.len()).0,
    {
        let have: usize = ring_len(&self.ring);
        if have > self.max_samples {
            let over: usize = have - self.max_samples;
            ring_skip(&mut self.ring, over);
        }
        assert(ring_samples(self.ring) == window(old(self)@));
        ring_pop(&mut self.ring, buffer)
    }

    /// The DJ has gone.
    pub fn end(&mut self)
        ensures
            final(self)@ == (LiveView { ended: true, ..old(self)@ }),
    {
        self.ended = true;
    }

    /// Whether the DJ has gone and every sample was pulled.
    pub fn is_exhausted(&self) -> (b: bool)
        ensures
            b == played_out(self@),
    {
        self.ended && ring_len(&self.ring) == 0
    }

    /// The title while a DJ is on air.
    pub fn label(&self) -> (s: &'static str)
        ensures
            s@ == "LIVE DJ"@,
    {
        "LIVE DJ"
    }
}

// ---------------------------------------------------------------------------
// Laws
// ---------------------------------------------------------------------------

/// The samples that a series of pushes leaves over, when nothing is pulled:
/// everything that was accepted, in order.
pub proof fn law_push_keeps_order(v: LiveView, a: Seq<u32>, b: Seq<u32>)
    ensures
        v.samples + (a + b) == (v.samples + a) + b,
{
    assert(v.samples + (a + b) =~= (v.samples + a) + b);
}

/// What a DJ plays is heard as it was played: samples that wait within the cap
/// are pulled in the order of their pushes, each once, and what a pull leaves
/// over comes with the next one. A push takes everything while there is room,
/// and never more than there is room for.
pub proof fn law_samples_are_heard_in_order(v: LiveView, a: Seq<u32>, n: nat)
    requires
        v.samples.len() <= v.capacity,
    ensures
        ({
            let (t, taken) = pushed(v, a);
            &&& taken <= a.len()
            &&& t.samples == v.samples + a.take(taken as int)
            &&& t.samples.len() <= t.capacity
            &&& v.samples.len() + a.len() <= v.capacity ==> taken == a.len()
            &&& taken < a.len() ==> t.samples.len() == t.capacity
            &&& t.ended == v.ended && t.max_samples == v.max_samples && t.capacity == v.capacity
        }),
        ({
            let (t, out) = pulled(v, n);
            &&& v.samples.len() <= v.max_samples ==> out + t.samples == v.samples
            &&& v.samples.len() > v.max_samples ==> out + t.samples == v.samples.skip(
                v.samples.len() - v.max_samples,
            )
            &&& out.len() <= n
            &&& out.len() < n ==> t.samples.len() == 0
            &&& t.ended == v.ended && t.max_samples == v.max_samples && t.capacity == v.capacity
        }),
{
    let (t, out) = pulled(v, n);
    assert(out + t.samples =~= window(v));
}

/// A DJ's stream is over only when the DJ has gone and nothing is left to be
/// heard.
pub proof fn law_live_ends_played_out(v: LiveView)
    ensures
        played_out(v) <==> v.ended && v.samples == Seq::<u32>::empty(),
{
    assert(v.samples.len() == 0 ==> v.samples =~= Seq::<u32>::empty());
}

/// A pull never sees more than the cap, and what it sees ends with the most
/// recent sample.
pub proof fn law_window_is_most_recent(v: LiveView)
    ensures
        window(v).len() <= v.max_samples,
        window(v).len() <= v.samples.len(),
        window(v) == v.samples.skip(v.samples.len() - window(v).len()),
{
    assert(v.samples.skip(0) =~= v.samples);
}

} // verus!
