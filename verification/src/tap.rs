//! The engine tap: pacing, recycled buffers, and what becomes of each pull.

use vstd::prelude::*;
use crate::http::opt_text;
use crate::text::{owned, same};

verus! {

/// Frames that a tap buffers before a slow consumer starts dropping.
pub const TAP_BOUND: usize = 4;

/// Milliseconds that the puller waits when there is nothing to publish.
pub const IDLE_WAIT_MS: u64 = 10;

/// Buffers that the pool of an engine with `taps` consumers keeps.
pub fn pool_size(taps: usize) -> (n: usize)
    requires
        taps * TAP_BOUND + 2 <= usize::MAX,
    ensures
        n == taps * TAP_BOUND + 2,
{
    taps * TAP_BOUND + 2
}

/// The contents of the buffers.
pub open spec fn buffer_views<T>(v: Seq<Vec<T>>) -> Seq<Seq<T>> {
    Seq::new(v.len(), |i: int| v[i]@)
}

/// The idle buffers of a pool once a buffer came back.
pub open spec fn recycled<T>(idle: Seq<Seq<T>>, limit: nat, buf: Seq<T>) -> Seq<Seq<T>> {
    if idle.len() < limit {
        idle.push(buf)
    } else {
        idle
    }
}

/// Recycled buffers. The puller takes an idle one; each returns once its last
/// consumer is done.
pub struct FramePool<T> {
    idle: Vec<Vec<T>>,
    max_idle: usize,
}

impl<T: Copy> FramePool<T> {
    /// The idle buffers; the last one is taken first.
    pub closed spec fn idle(&self) -> Seq<Seq<T>> {
        buffer_views(self.idle@)
    }

    /// The most buffers that are kept idle.
    pub closed spec fn limit(&self) -> usize {
        self.max_idle
    }

    /// No more buffers are idle than the limit allows.
    pub open spec fn wf(&self) -> bool {
        self.idle().len() <= self.limit()
    }

    /// A pool of as many buffers of silence as the limit allows.
    pub fn new(buffer_capacity: usize, max_idle: usize, silence: T) -> (p: FramePool<T>)
        ensures
            p.wf(),
            p.limit() == max_idle,
            p.idle() == Seq::new(
                max_idle as nat,
                |i: int| Seq::new(buffer_capacity as nat, |k: int| silence),
            ),
    {
        let mut idle: Vec<Vec<T>> = Vec::new();
        let mut i: usize = 0;
        while i < max_idle
            invariant
                i <= max_idle,
                idle@.len() == i,
                forall|k: int|
                    0 <= k < i ==> (#[trigger] idle@[k])@ == Seq::new(
                        buffer_capacity as nat,
                        |j: int| silence,
                    ),
            decreases max_idle - i,
        {
            let mut buf: Vec<T> = Vec::new();
            let mut j: usize = 0;
            while j < buffer_capacity
                invariant
                    j <= buffer_capacity,
                    buf@ == Seq::new(j as nat, |k: int| silence),
                decreases buffer_capacity - j,
            {
                buf.push(silence);
                j = j + 1;
                assert(buf@ =~= Seq::new(j as nat, |k: int| silence));
            }
            idle.push(buf);
            i = i + 1;
        }
        let p = FramePool { idle, max_idle };
        assert(p.idle() =~= Seq::new(
            max_idle as nat,
            |i: int| Seq::new(buffer_capacity as nat, |k: int| silence),
        ));
        p
    }

    /// Takes an idle buffer, if there is one.
    pub fn pop(&mut self) -> (r: Option<Vec<T>>)
        requires
            old(self).wf(),
        ensures
            final(self).wf(),
            final(self).limit() == old(self).limit(),
            match r {
                Some(b) => {
                    &&& old(self).idle().len() > 0
                    &&& b@ == old(self).idle().last()
                    &&& final(self).idle() == old(self).idle().drop_last()
                },
                None => old(self).idle().len() == 0 && final(self).idle() == old(self).idle(),
            },
    {
        let ghost before = self.idle@;
        let r = self.idle.pop();
        proof {
            if before.len() > 0 {
                assert(buffer_views(self.idle@) =~= buffer_views(before).drop_last());
            }
        }
        r
    }

    /// Takes a buffer back. Above the limit it is let go.
    pub fn recycle(&mut self, buf: Vec<T>)
        requires
            old(self).wf(),
        ensures
            final(self).wf(),
            final(self).limit() == old(self).limit(),
            final(self).idle() == recycled(old(self).idle(), old(self).limit() as nat, buf@),
    {
        if self.idle.len() < self.max_idle {
            self.idle.push(buf);
            assert(self.idle() =~= old(self).idle().push(buf@));
        }
    }
}

/// What becomes of a pull.
#[derive(Clone, Copy, Debug, PartialEq, Eq, Structural)]
pub enum PullOutcome {
    /// The source has ended: so does the stream.
    End,
    /// Nothing came: the buffer goes back, and the puller waits a little.
    Wait,
    /// The first samples of the buffer are published to every tap.
    Publish,
}

/// What becomes of a pull of `n` samples.
pub open spec fn outcome_of(n: nat, exhausted: bool) -> PullOutcome {
    if n > 0 {
        PullOutcome::Publish
    } else if exhausted {
        PullOutcome::End
    } else {
        PullOutcome::Wait
    }
}

/// Microseconds to wait for the next pull after so many frames.
pub open spec fn wait_of(frames: nat, rate: nat, elapsed_us: nat) -> nat {
    if elapsed_us < frames * 1_000_000 / rate {
        (frames * 1_000_000 / rate - elapsed_us) as nat
    } else {
        0
    }
}

/// Paces the pulls by the wall clock, and remembers the label that
/// consecutive frames share.
pub struct TapClock {
    frames_pulled: u64,
    sample_rate: u32,
    channels: usize,
    last_label: Option<String>,
}

impl TapClock {
    /// Frames pulled so far.
    pub closed spec fn frames(&self) -> nat {
        self.frames_pulled as nat
    }

    /// Frames in a second.
    pub closed spec fn rate(&self) -> nat {
        self.sample_rate as nat
    }

    /// Samples in a frame.
    pub closed spec fn chans(&self) -> nat {
        self.channels as nat
    }

    /// The label of the last frame.
    pub closed spec fn label_text(&self) -> Option<Seq<char>> {
        opt_text(self.last_label)
    }

    /// The clock runs, and its microseconds fit into 64 bits.
    pub open spec fn wf(&self) -> bool {
        self.rate() > 0 && self.chans() > 0 && self.frames() * 1_000_000 <= u64::MAX
    }

    /// The clock at the start of a stream.
    pub fn new(sample_rate: u32, channels: usize) -> (c: TapClock)
        requires
            sample_rate > 0,
            channels > 0,
        ensures
            c.wf(),
            c.frames() == 0,
            c.rate() == sample_rate,
            c.chans() == channels,
            c.label_text() is None,
    {
        TapClock { frames_pulled: 0, sample_rate, channels, last_label: None }
    }

    /// Microseconds to wait before the next pull, when so many have passed
    /// since the start: it is due once the frames pulled so far have played.
    pub fn wait_us(&self, elapsed_us: u64) -> (us: u64)
        requires
            self.wf(),
        ensures
            us == wait_of(self.frames(), self.rate(), elapsed_us as nat),
    {
        let due: u64 = self.frames_pulled * 1_000_000 / self.sample_rate as u64;
        if elapsed_us < due {
            due - elapsed_us
        } else {
            0
        }
    }

    /// Whether the clock has room for another buffer of `n` samples.
    pub fn has_room(&self, n: usize) -> (b: bool)
        requires
            self.wf(),
        ensures
            b == ((self.frames() + n as nat / self.chans()) * 1_000_000 <= u64::MAX),
    {
        let frames: u128 = self.frames_pulled as u128 + (n / self.channels) as u128;
        frames * 1_000_000 <= u64::MAX as u128
    }

    /// `n` samples were pulled, and the source may have ended; its label is
    /// given.
    pub fn on_pull(&mut self, n: usize, exhausted: bool, label: Option<&str>) -> (o: PullOutcome)
        requires
            old(self).wf(),
            (old(self).frames() + n as nat / old(self).chans()) * 1_000_000 <= u64::MAX,
        ensures
            final(self).wf(),
            final(self).rate() == old(self).rate(),
            final(self).chans() == old(self).chans(),
            o == outcome_of(n as nat, exhausted),
            n == 0 ==> final(self).frames() == old(self).frames() && final(self).label_text()
                == old(self).label_text(),
            n > 0 ==> final(self).frames() == old(self).frames() + n as nat / old(self).chans(),
            n > 0 ==> final(self).label_text() == (match label {
                Some(l) => Some(l@),
                None => None,
            }),
    {
        if n == 0 {
            return if exhausted { PullOutcome::End } else { PullOutcome::Wait };
        }
        self.frames_pulled = self.frames_pulled + (n / self.channels) as u64;
        match (label, &self.last_label) {
            (Some(l), Some(last)) => {
                if !same(l, last.as_str()) {
                    self.last_label = Some(owned(l));
                }
            },
            (Some(l), None) => {
                self.last_label = Some(owned(l));
            },
            (None, _) => {
                self.last_label = None;
            },
        }
        PullOutcome::Publish
    }

    /// The label of the last frame.
    pub fn label(&self) -> (s: Option<&str>)
        ensures
            match s {
                Some(l) => self.label_text() == Some(l@),
                None => self.label_text() is None,
            },
    {
        match &self.last_label {
            Some(l) => Some(l.as_str()),
            None => None,
        }
    }
}

// ---------------------------------------------------------------------------
// Laws
// ---------------------------------------------------------------------------

/// A pull comes when the frames before it have played, to the microsecond: not
/// earlier, and without a wait where it is late already.
pub proof fn law_pulls_keep_time(frames: nat, rate: nat, elapsed_us: nat)
    requires
        rate > 0,
    ensures
        ({
            let at = elapsed_us + wait_of(frames, rate, elapsed_us);
            &&& (at + 1) * rate > frames * 1_000_000
            &&& wait_of(frames, rate, elapsed_us) > 0 ==> at * rate <= frames * 1_000_000
            &&& elapsed_us * rate >= frames * 1_000_000 ==> wait_of(frames, rate, elapsed_us) == 0
        }),
{
    let total = frames * 1_000_000;
    let due = total / rate;
    let at = elapsed_us + wait_of(frames, rate, elapsed_us);
    vstd::arithmetic::div_mod::lemma_fundamental_div_mod(total as int, rate as int);
    vstd::arithmetic::div_mod::lemma_mod_bound(total as int, rate as int);
    assert(rate * due <= total < rate * (due + 1)) by (nonlinear_arith)
        requires
            total == rate * due + total as int % rate as int,
            0 <= total as int % rate as int,
            (total as int % rate as int) < rate,
    ;
    assert(at >= due);
    assert((at + 1) * rate >= rate * (due + 1)) by (nonlinear_arith)
        requires
            at >= due,
            rate > 0,
    ;
    if wait_of(frames, rate, elapsed_us) > 0 {
        assert(at == due);
        assert(at * rate == rate * due) by (nonlinear_arith)
            requires
                at == due,
        ;
        assert(elapsed_us * rate < total) by (nonlinear_arith)
            requires
                elapsed_us < due,
                rate * due <= total,
                rate > 0,
        ;
    }
}

/// The stream ends only where its source has ended and nothing came; whatever
/// came is published.
pub proof fn law_nothing_pulled_is_lost(n: nat, exhausted: bool)
    ensures
        outcome_of(n, exhausted) == PullOutcome::Publish <==> n > 0,
        outcome_of(n, exhausted) == PullOutcome::End <==> n == 0 && exhausted,
        outcome_of(n, exhausted) == PullOutcome::Wait <==> n == 0 && !exhausted,
{
}

/// A buffer that comes back to a pool with room is the next one taken; a full
/// pool stays as it is.
pub proof fn law_buffers_are_recycled<T>(idle: Seq<Seq<T>>, limit: nat, buf: Seq<T>)
    requires
        idle.len() <= limit,
    ensures
        recycled(idle, limit, buf).len() <= limit,
        idle.len() < limit ==> recycled(idle, limit, buf).last() == buf && recycled(
            idle,
            limit,
            buf,
        ).drop_last() == idle,
        idle.len() == limit ==> recycled(idle, limit, buf) == idle,
{
    if idle.len() < limit {
        assert(idle.push(buf).drop_last() =~= idle);
    }
}

} // verus!
