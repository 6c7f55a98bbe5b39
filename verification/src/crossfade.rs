//! The crossfade from track to track: when the next track is preloaded, how
//! the two are blended, and when the next one takes over.

use vstd::prelude::*;
use crate::http::opt_text;
use crate::text::owned;

verus! {

/// The seconds before its end at which the successor of a track is preloaded:
/// the track's own fade-out, else the margin of the level-aware mode, else
/// the global window.
pub open spec fn margin_of<T>(
    active: Option<(Option<T>, Option<T>)>,
    smart_fade_out: Option<T>,
    global: T,
) -> T {
    match active {
        Some((_, Some(fade_out))) => fade_out,
        _ => match smart_fade_out {
            Some(s) => s,
            None => global,
        },
    }
}

/// The seconds before its end at which the successor of a track is preloaded.
/// A track's own fades are given as `(fade_in, fade_out)`.
pub fn preload_margin<T: Copy>(
    active: Option<(Option<T>, Option<T>)>,
    smart_fade_out: Option<T>,
    global: T,
) -> (m: T)
    ensures
        m == margin_of(active, smart_fade_out, global),
{
    match active {
        Some((_, Some(fade_out))) => fade_out,
        _ => match smart_fade_out {
            Some(s) => s,
            None => global,
        },
    }
}

/// The window of a transition: the incoming track's fade-in, else the
/// outgoing track's fade-out, else the window of the level-aware mode, else
/// the global one.
pub open spec fn window_of<T>(
    incoming: Option<(Option<T>, Option<T>)>,
    active: Option<(Option<T>, Option<T>)>,
    smart: Option<T>,
    global: T,
) -> T {
    match incoming {
        Some((Some(fade_in), _)) => fade_in,
        _ => margin_of(active, smart, global),
    }
}

/// The window of a transition, in seconds.
pub fn fade_window<T: Copy>(
    incoming: Option<(Option<T>, Option<T>)>,
    active: Option<(Option<T>, Option<T>)>,
    smart: Option<T>,
    global: T,
) -> (w: T)
    ensures
        w == window_of(incoming, active, smart, global),
{
    match incoming {
        Some((Some(fade_in), _)) => fade_in,
        _ => preload_margin(active, smart, global),
    }
}

/// The window of the level-aware mode: the full one behind a loud tail, or
/// where nothing was measured; the short one behind a quiet tail.
pub open spec fn level_window<T>(fade_out: T, fade_mid: T, loud: Option<bool>) -> T {
    if loud == Some(false) {
        fade_mid
    } else {
        fade_out
    }
}

/// The window of the level-aware mode: the full one behind a loud tail, or
/// where nothing was measured; the short one behind a quiet tail.
pub fn smart_window<T: Copy>(fade_out: T, fade_mid: T, loud: Option<bool>) -> (w: T)
    ensures
        w == level_window(fade_out, fade_mid, loud),
{
    match loud {
        Some(b) => if b {
            fade_out
        } else {
            fade_mid
        },
        None => fade_out,
    }
}

/// The successor is preloaded now: the track is within its margin, or has
/// ended where its remaining time is not known.
pub open spec fn successor_due(within_margin: Option<bool>, exhausted: bool) -> bool {
    match within_margin {
        Some(w) => w,
        None => exhausted,
    }
}

/// Whether the successor is preloaded now: the track is within its margin, or
/// has ended where its remaining time is not known.
pub fn preload_due(within_margin: Option<bool>, exhausted: bool) -> (b: bool)
    ensures
        b == successor_due(within_margin, exhausted),
{
    match within_margin {
        Some(w) => w,
        None => exhausted,
    }
}

/// The rest of a fade whose outgoing track ended early: the new track still
/// rises to full gain.
#[derive(Clone, Copy, Debug, PartialEq, Eq, Structural)]
pub struct Tail {
    /// The place in the fade at which the new track took over, and the length
    /// of the fade, in frames.
    pub pos: usize,
    pub fade_frames: usize,
    /// Frames left of the rest, and its length.
    pub remaining: usize,
    pub total: usize,
}

/// How a buffer is made of what was pulled.
#[derive(Clone, Copy, Debug, PartialEq, Eq, Structural)]
pub enum Blend {
    /// There is nothing to deliver.
    Nothing,
    /// This many samples of the active track, as they are.
    Pass { n: usize },
    /// This many samples of the active track, on the rest of a fade.
    Ramp { n: usize, tail: Tail },
    /// Both tracks, from this place in the fade: the first `n_a` samples of
    /// the active one and the first `n_b` of the next one. Where one is
    /// shorter, silence stands in for it. Where `promoted` is set, the next
    /// track has become the active one.
    Fade { n_a: usize, n_b: usize, pos: usize, fade_frames: usize, promoted: bool },
}

/// What the mixer does next.
#[derive(Clone, Copy, Debug, PartialEq, Eq, Structural)]
pub enum FadeStep {
    /// Nothing, until a buffer is wanted or a skip requested.
    Idle,
    /// Ask the provider for the first track. Is it for a buffer or a skip?
    First { skip: bool },
    /// Look whether the successor is due.
    CheckDue,
    /// Ask the provider for the successor.
    Preload,
    /// Pull from the active track.
    PullActive,
    /// Ask the provider for a track that replaces the one that ended.
    Advance,
    /// Pull from the next track, of whose active one `n_a` samples came.
    PullNext { n_a: usize },
    /// Deliver a buffer.
    Deliver(Blend),
    /// Make the next track the active one.
    Promote,
    /// Ask the provider for a track to skip to.
    SkipTo,
}

/// What came of it.
pub enum FadeEvent<'a> {
    /// A buffer is wanted.
    Wanted,
    /// A skip is requested.
    Skip,
    /// The provider's next track, by its label, if there is one.
    Provided(Option<&'a str>),
    /// Whether the successor is due.
    Due(bool),
    /// The successor and the frames of the fade to it, if there is one.
    Successor(Option<(&'a str, usize)>),
    /// Samples came from the active track, and whether it has ended.
    Active { n: usize, exhausted: bool },
    /// Samples came from the next track, and whether the active one has
    /// ended.
    Next { n: usize, active_exhausted: bool },
    /// The step is done.
    Done,
}

/// The state of the mixer.
pub struct FadeState {
    pub step: FadeStep,
    pub started: bool,
    pub label: Seq<char>,
    /// The label of the preloaded track, if there is one.
    pub next: Option<Seq<char>>,
    pub fade_frames: usize,
    pub fade_pos: usize,
    pub tail: Option<Tail>,
    pub channels: usize,
}

/// The state with the next step.
pub open spec fn step_to(s: FadeState, step: FadeStep) -> FadeState {
    FadeState { step, ..s }
}

/// The state with a new active track.
pub open spec fn activated(s: FadeState, label: Seq<char>) -> FadeState {
    FadeState { label, ..s }
}

/// The state once the preloaded track is the active one.
pub open spec fn promoted(s: FadeState) -> FadeState {
    FadeState {
        label: match s.next {
            Some(l) => l,
            None => Seq::empty(),
        },
        next: None,
        ..s
    }
}

/// The step before anything is pulled: without a preloaded track it is looked
/// whether one is due.
pub open spec fn before_pull(s: FadeState) -> FadeState {
    step_to(
        s,
        if s.next is None {
            FadeStep::CheckDue
        } else {
            FadeStep::PullActive
        },
    )
}

/// The step that a skip takes.
pub open spec fn skip_step(s: FadeState) -> FadeState {
    step_to(
        s,
        if s.next is Some {
            FadeStep::Promote
        } else {
            FadeStep::SkipTo
        },
    )
}

/// The rest of a fade after some frames.
pub open spec fn tail_after(t: Tail, frames: nat) -> Option<Tail> {
    if frames >= t.remaining {
        None
    } else {
        Some(Tail { remaining: (t.remaining - frames) as usize, ..t })
    }
}

/// A place in a fade after some frames; it stops at the largest number.
pub open spec fn pos_after(pos: usize, frames: nat) -> usize {
    if pos + frames <= usize::MAX {
        (pos + frames) as usize
    } else {
        usize::MAX
    }
}

/// The longer of two lengths.
pub open spec fn longer(a: usize, b: usize) -> usize {
    if a >= b {
        a
    } else {
        b
    }
}

/// The state after samples came from the active track. A track that has ended
/// without a successor is replaced at once.
pub open spec fn after_active(s: FadeState, n: usize, exhausted: bool) -> FadeState {
    if n == 0 && exhausted && s.next is None {
        step_to(s, FadeStep::Advance)
    } else {
        match s.tail {
            Some(t) => FadeState {
                step: FadeStep::Deliver(Blend::Ramp { n, tail: t }),
                tail: tail_after(t, n as nat / s.channels as nat),
                ..s
            },
            None => if s.next is Some {
                step_to(s, FadeStep::PullNext { n_a: n })
            } else {
                step_to(s, FadeStep::Deliver(Blend::Pass { n }))
            },
        }
    }
}

/// The state after samples came from both tracks: the fade moves on by the
/// longer of the two. Once the active track has ended, the next one takes
/// over, and what is left of the fade becomes a ramp.
pub open spec fn after_next(s: FadeState, n_a: usize, n_b: usize, active_exhausted: bool) -> FadeState {
    let pos = pos_after(s.fade_pos, longer(n_a, n_b) as nat / s.channels as nat);
    let blend = Blend::Fade {
        n_a,
        n_b,
        pos: s.fade_pos,
        fade_frames: s.fade_frames,
        promoted: active_exhausted,
    };
    let moved = FadeState { step: FadeStep::Deliver(blend), fade_pos: pos, ..s };
    if active_exhausted {
        FadeState {
            tail: if pos < s.fade_frames {
                Some(
                    Tail {
                        pos,
                        fade_frames: s.fade_frames,
                        remaining: (s.fade_frames - pos) as usize,
                        total: (s.fade_frames - pos) as usize,
                    },
                )
            } else {
                s.tail
            },
            ..promoted(moved)
        }
    } else {
        moved
    }
}

/// The state after an event. What does not belong to the step is ignored.
pub open spec fn fade_after(s: FadeState, e: FadeEvent) -> FadeState {
    match (s.step, e) {
        (FadeStep::Idle, FadeEvent::Wanted) => if s.started {
            before_pull(s)
        } else {
            FadeState { step: FadeStep::First { skip: false }, started: true, ..s }
        },
        (FadeStep::Idle, FadeEvent::Skip) => if s.started {
            skip_step(s)
        } else {
            FadeState { step: FadeStep::First { skip: true }, started: true, ..s }
        },
        (FadeStep::First { skip }, FadeEvent::Provided(track)) => {
            let t = match track {
                Some(label) => activated(s, label@),
                None => s,
            };
            if skip {
                skip_step(t)
            } else {
                before_pull(t)
            }
        },
        (FadeStep::CheckDue, FadeEvent::Due(due)) => step_to(
            s,
            if due {
                FadeStep::Preload
            } else {
                FadeStep::PullActive
            },
        ),
        (FadeStep::Preload, FadeEvent::Successor(track)) => match track {
            Some((label, frames)) => FadeState {
                step: FadeStep::PullActive,
                next: Some(label@),
                fade_frames: frames,
                fade_pos: 0,
                tail: None,
                ..s
            },
            None => step_to(s, FadeStep::PullActive),
        },
        (FadeStep::PullActive, FadeEvent::Active { n, exhausted }) => after_active(s, n, exhausted),
        (FadeStep::Advance, FadeEvent::Provided(track)) => match track {
            Some(label) => before_pull(activated(s, label@)),
            None => step_to(s, FadeStep::Deliver(Blend::Nothing)),
        },
        (FadeStep::PullNext { n_a }, FadeEvent::Next { n, active_exhausted }) => after_next(
            s,
            n_a,
            n,
            active_exhausted,
        ),
        (FadeStep::Deliver(_), FadeEvent::Done) => step_to(s, FadeStep::Idle),
        (FadeStep::Promote, FadeEvent::Done) => FadeState {
            step: FadeStep::Idle,
            fade_pos: 0,
            tail: None,
            ..promoted(s)
        },
        (FadeStep::SkipTo, FadeEvent::Provided(track)) => match track {
            Some(label) => FadeState {
                step: FadeStep::Idle,
                fade_pos: 0,
                tail: None,
                ..activated(s, label@)
            },
            None => step_to(s, FadeStep::Idle),
        },
        _ => s,
    }
}

/// Nothing is left to play: before the start that is up to the provider;
/// afterwards both tracks must have ended too.
pub open spec fn all_played(
    started: bool,
    active_exhausted: bool,
    next_exhausted: Option<bool>,
    has_next: bool,
) -> bool {
    !has_next && (started ==> active_exhausted && next_exhausted != Some(false))
}

/// Decides, step by step, how tracks follow one another without a gap. The
/// caller holds the tracks, performs the step and reports what came of it.
pub struct CrossfadeMixer {
    step: FadeStep,
    started: bool,
    active_label: String,
    next_label: Option<String>,
    fade_frames: usize,
    fade_pos: usize,
    tail: Option<Tail>,
    channels: usize,
}

impl View for CrossfadeMixer {
    type V = FadeState;

    closed spec fn view(&self) -> FadeState {
        FadeState {
            step: self.step,
            started: self.started,
            label: self.active_label@,
            next: opt_text(self.next_label),
            fade_frames: self.fade_frames,
            fade_pos: self.fade_pos,
            tail: self.tail,
            channels: self.channels,
        }
    }
}

impl CrossfadeMixer {
    /// There is a channel.
    pub open spec fn wf(&self) -> bool {
        self@.channels > 0
    }

    /// A mixer before its first track, with the frames of the global window.
    pub fn new(fade_frames: usize, channels: usize) -> (m: CrossfadeMixer)
        requires
            channels > 0,
        ensures
            m.wf(),
            m@ == (FadeState {
                step: FadeStep::Idle,
                started: false,
                label: Seq::empty(),
                next: None,
                fade_frames,
                fade_pos: 0,
                tail: None,
                channels,
            }),
    {
        CrossfadeMixer {
            step: FadeStep::Idle,
            started: false,
            active_label: String::new(),
            next_label: None,
            fade_frames,
            fade_pos: 0,
            tail: None,
            channels,
        }
    }

    /// What to do now.
    pub fn step(&self) -> (s: FadeStep)
        ensures
            s == self@.step,
    {
        self.step
    }

    /// The label of the active track.
    pub fn label(&self) -> (s: &str)
        ensures
            s@ == self@.label,
    {
        self.active_label.as_str()
    }

    /// Whether nothing is left to play: before the start that is up to the
    /// provider; afterwards both tracks must have ended too.
    pub fn is_exhausted(
        &self,
        active_exhausted: bool,
        next_exhausted: Option<bool>,
        has_next: bool,
    ) -> (b: bool)
        ensures
            b == all_played(self@.started, active_exhausted, next_exhausted, has_next),
    {
        if !self.started {
            return !has_next;
        }
        active_exhausted && (match next_exhausted {
            Some(n) => n,
            None => true,
        }) && !has_next
    }

    fn before_pull(&mut self)
        ensures
            final(self)@ == before_pull(old(self)@),
    {
        self.step = if self.next_label.is_none() {
            FadeStep::CheckDue
        } else {
            FadeStep::PullActive
        };
    }

    fn skip_step(&mut self)
        ensures
            final(self)@ == skip_step(old(self)@),
    {
        self.step = if self.next_label.is_some() { FadeStep::Promote } else { FadeStep::SkipTo };
    }

    fn promote(&mut self)
        ensures
            final(self)@ == promoted(old(self)@),
    {
        self.active_label = match &self.next_label {
            Some(l) => owned(l.as_str()),
            None => String::new(),
        };
        self.next_label = None;
    }

    fn on_active(&mut self, n: usize, exhausted: bool)
        requires
            old(self).wf(),
        ensures
            final(self)@ == after_active(old(self)@, n, exhausted),
    {
        if n == 0 && exhausted && self.next_label.is_none() {
            self.step = FadeStep::Advance;
            return;
        }
        match self.tail {
            Some(t) => {
                let frames: usize = n / self.channels;
                self.step = FadeStep::Deliver(Blend::Ramp { n, tail: t });
                self.tail = if frames >= t.remaining {
                    None
                } else {
                    Some(
                        Tail {
                            pos: t.pos,
                            fade_frames: t.fade_frames,
                            remaining: t.remaining - frames,
                            total: t.total,
                        },
                    )
                };
            },
            None => {
                self.step = if self.next_label.is_some() {
                    FadeStep::PullNext { n_a: n }
                } else {
                    FadeStep::Deliver(Blend::Pass { n })
                };
            },
        }
    }

    fn on_next(&mut self, n_a: usize, n_b: usize, active_exhausted: bool)
        requires
            old(self).wf(),
        ensures
            final(self)@ == after_next(old(self)@, n_a, n_b, active_exhausted),
    {
        let out: usize = if n_a >= n_b { n_a } else { n_b };
        let frames: usize = out / self.channels;
        self.step = FadeStep::Deliver(
            Blend::Fade {
                n_a,
                n_b,
                pos: self.fade_pos,
                fade_frames: self.fade_frames,
                promoted: active_exhausted,
            },
        );
        self.fade_pos = if frames <= usize::MAX - self.fade_pos {
            self.fade_pos + frames
        } else {
            usize::MAX
        };
        if active_exhausted {
            self.promote();
            if self.fade_pos < self.fade_frames {
                let remaining: usize = self.fade_frames - self.fade_pos;
                self.tail = Some(
                    Tail {
                        pos: self.fade_pos,
                        fade_frames: self.fade_frames,
                        remaining,
                        total: remaining,
                    },
                );
            }
        }
    }

    /// Takes what came of the step; says what to do next.
    pub fn on_event(&mut self, e: FadeEvent) -> (step: FadeStep)
        requires
            old(self).wf(),
        ensures
            final(self).wf(),
            final(self)@ == fade_after(old(self)@, e),
            step == final(self)@.step,
    {
        match self.step {
            FadeStep::Idle => match e {
                FadeEvent::Wanted => {
                    if self.started {
                        self.before_pull();
                    } else {
                        self.started = true;
                        self.step = FadeStep::First { skip: false };
                    }
                },
                FadeEvent::Skip => {
                    if self.started {
                        self.skip_step();
                    } else {
                        self.started = true;
                        self.step = FadeStep::First { skip: true };
                    }
                },
                _ => {},
            },
            FadeStep::First { skip } => match e {
                FadeEvent::Provided(track) => {
                    match track {
                        Some(label) => {
                            self.active_label = owned(label);
                        },
                        None => {},
                    }
                    if skip {
                        self.skip_step();
                    } else {
                        self.before_pull();
                    }
                },
                _ => {},
            },
            FadeStep::CheckDue => match e {
                FadeEvent::Due(due) => {
                    self.step = if due { FadeStep::Preload } else { FadeStep::PullActive };
                },
                _ => {},
            },
            FadeStep::Preload => match e {
                FadeEvent::Successor(track) => {
                    match track {
                        Some((label, frames)) => {
                            self.next_label = Some(owned(label));
                            self.fade_frames = frames;
                            self.fade_pos = 0;
                            self.tail = None;
                        },
                        None => {},
                    }
                    self.step = FadeStep::PullActive;
                },
                _ => {},
            },
            FadeStep::PullActive => match e {
                FadeEvent::Active { n, exhausted } => self.on_active(n, exhausted),
                _ => {},
            },
            FadeStep::Advance => match e {
                FadeEvent::Provided(track) => match track {
                    Some(label) => {
                        self.active_label = owned(label);
                        self.before_pull();
                    },
                    None => {
                        self.step = FadeStep::Deliver(Blend::Nothing);
                    },
                },
                _ => {},
            },
            FadeStep::PullNext { n_a } => match e {
                FadeEvent::Next { n, active_exhausted } => self.on_next(n_a, n, active_exhausted),
                _ => {},
            },
            FadeStep::Deliver(_) => match e {
                FadeEvent::Done => {
                    self.step = FadeStep::Idle;
                },
                _ => {},
            },
            FadeStep::Promote => match e {
                FadeEvent::Done => {
                    self.promote();
                    self.step = FadeStep::Idle;
                    self.fade_pos = 0;
                    self.tail = None;
                },
                _ => {},
            },
            FadeStep::SkipTo => match e {
                FadeEvent::Provided(track) => {
                    match track {
                        Some(label) => {
                            self.active_label = owned(label);
                            self.fade_pos = 0;
                            self.tail = None;
                        },
                        None => {},
                    }
                    self.step = FadeStep::Idle;
                },
                _ => {},
            },
        }
        self.step
    }
}

/// Puts silence in place of what an earlier buffer left behind `n` samples.
pub fn silence_rest<T: Copy>(buf: &mut Vec<T>, n: usize, end: usize, silence: T)
    requires
        n <= end <= old(buf)@.len(),
    ensures
        final(buf)@ == old(buf)@.take(n as int) + Seq::new((end - n) as nat, |i: int| silence)
            + old(buf)@.skip(end as int),
{
    let ghost before = buf@;
    let mut i: usize = n;
    while i < end
        invariant
            n <= i <= end <= before.len(),
            buf@.len() == before.len(),
            forall|k: int| 0 <= k < n ==> buf@[k] == before[k],
            forall|k: int| n <= k < i ==> buf@[k] == silence,
            forall|k: int| i <= k < before.len() ==> buf@[k] == before[k],
        decreases end - i,
    {
        buf.set(i, silence);
        i = i + 1;
    }
    assert(buf@ =~= before.take(n as int) + Seq::new((end - n) as nat, |i: int| silence)
        + before.skip(end as int));
}

/// The number of samples of some chunks.
pub open spec fn sample_total(chunks: Seq<u64>) -> nat
    decreases chunks.len(),
{
    if chunks.len() == 0 {
        0
    } else {
        sample_total(chunks.drop_last()) + chunks.last() as nat
    }
}

/// The chunks of samples over which the level of a track's tail is measured:
/// the latest ones that fit into a window.
pub struct LevelWindow {
    chunks: Vec<u64>,
    total: u64,
}

impl View for LevelWindow {
    type V = Seq<u64>;

    closed spec fn view(&self) -> Seq<u64> {
        self.chunks@
    }
}

proof fn lemma_total_front(chunks: Seq<u64>)
    requires
        chunks.len() > 0,
    ensures
        sample_total(chunks) == chunks[0] + sample_total(chunks.skip(1)),
    decreases chunks.len(),
{
    let rest = chunks.skip(1);
    if chunks.len() == 1 {
        assert(rest =~= Seq::<u64>::empty());
        assert(chunks.drop_last() =~= Seq::<u64>::empty());
    } else {
        lemma_total_front(chunks.drop_last());
        assert(chunks.drop_last().skip(1) =~= rest.drop_last());
    }
}

impl LevelWindow {
    /// The total is that of the chunks.
    pub closed spec fn wf(&self) -> bool {
        self.total == sample_total(self.chunks@)
    }

    /// A window before the first chunk.
    pub fn new() -> (w: LevelWindow)
        ensures
            w.wf(),
            w@ == Seq::<u64>::empty(),
    {
        LevelWindow { chunks: Vec::new(), total: 0 }
    }

    /// The number of samples.
    pub fn samples(&self) -> (n: u64)
        requires
            self.wf(),
        ensures
            n == sample_total(self@),
    {
        self.total
    }

    /// A new track became active: nothing is measured yet.
    pub fn clear(&mut self)
        ensures
            final(self).wf(),
            final(self)@ == Seq::<u64>::empty(),
    {
        self.chunks = Vec::new();
        self.total = 0;
    }

    /// Appends a chunk, and drops chunks from the front until the rest fits
    /// into the window. Says how many were dropped: no more than needed.
    pub fn push(&mut self, count: u64, window: u64) -> (dropped: usize)
        requires
            old(self).wf(),
            sample_total(old(self)@) + count <= u64::MAX,
        ensures
            final(self).wf(),
            dropped <= old(self)@.len() + 1,
            final(self)@ == old(self)@.push(count).skip(dropped as int),
            sample_total(final(self)@) <= window,
            dropped > 0 ==> sample_total(old(self)@.push(count).skip(dropped - 1)) > window,
    {
        let ghost all = self.chunks@.push(count);
        self.chunks.push(count);
        proof {
            assert(all.drop_last() =~= old(self).chunks@);
            assert(all.skip(0) =~= all);
        }
        let n: usize = self.chunks.len();
        let mut total: u64 = self.total + count;
        let mut k: usize = 0;
        while total > window
            invariant
                k <= n,
                n == all.len(),
                self.chunks@ == all,
                total == sample_total(all.skip(k as int)),
                k > 0 ==> sample_total(all.skip(k - 1)) > window,
            decreases n - k,
        {
            proof {
                if k == n {
                    assert(all.skip(k as int) =~= Seq::<u64>::empty());
                }
                lemma_total_front(all.skip(k as int));
                assert(all.skip(k as int).skip(1) =~= all.skip(k as int + 1));
            }
            total = total - self.chunks[k];
            k = k + 1;
        }
        let mut rest: Vec<u64> = Vec::new();
        let mut i: usize = k;
        while i < n
            invariant
                k <= i <= n,
                n == all.len(),
                self.chunks@ == all,
                rest@ == all.subrange(k as int, i as int),
            decreases n - i,
        {
            rest.push(self.chunks[i]);
            i = i + 1;
            assert(rest@ =~= all.subrange(k as int, i as int));
        }
        assert(rest@ =~= all.skip(k as int));
        self.chunks = rest;
        self.total = total;
        k
    }
}

// ---------------------------------------------------------------------------
// Laws
// ---------------------------------------------------------------------------

/// What holds of the mixer at every step: a fade and the rest of an earlier
/// one never run at the same time, and the rest of a fade has frames left.
pub open spec fn sound_fade(s: FadeState) -> bool {
    &&& s.channels > 0
    &&& s.next is Some ==> s.tail is None
    &&& s.tail matches Some(t) ==> 0 < t.remaining <= t.total && t.pos + t.total == t.fade_frames
    &&& s.step is PullNext ==> s.next is Some
    &&& (s.step == FadeStep::CheckDue || s.step == FadeStep::Preload || s.step == FadeStep::Advance
        || s.step == FadeStep::SkipTo) ==> s.next is None
    &&& s.step == FadeStep::Promote ==> s.next is Some
    &&& s.step is First ==> s.next is None
    &&& s.step matches FadeStep::Deliver(Blend::Ramp { tail, .. }) ==> 0 < tail.remaining
        <= tail.total
    &&& !s.started ==> s.step == FadeStep::Idle && s.next is None && s.tail is None
}

/// Every event keeps the mixer sound.
pub proof fn law_fade_stays_sound(s: FadeState, e: FadeEvent)
    requires
        sound_fade(s),
    ensures
        sound_fade(fade_after(s, e)),
{
}

/// The next track takes over exactly when the active one has ended; with
/// frames of the fade left, they become a ramp that starts where the fade
/// stood.
pub proof fn law_takeover(s: FadeState, n_a: usize, n_b: usize, ended: bool)
    requires
        sound_fade(s),
        s.next is Some,
    ensures
        ({
            let t = after_next(s, n_a, n_b, ended);
            &&& t.next is None <==> ended
            &&& ended ==> t.label == s.next->0
            &&& t.fade_frames == s.fade_frames
            &&& ended && t.fade_pos < s.fade_frames ==> (t.tail matches Some(r) && r.pos
                == t.fade_pos && r.remaining == s.fade_frames - t.fade_pos)
            &&& ended && t.fade_pos >= s.fade_frames ==> t.tail is None
        }),
{
}

/// The state after one more buffer of a fade: samples come from both tracks,
/// the blend is delivered, and the next buffer is wanted.
pub open spec fn fade_round(s: FadeState, n_a: usize, n_b: usize) -> FadeState {
    let pulled = fade_after(s, FadeEvent::Active { n: n_a, exhausted: false });
    let blended = fade_after(pulled, FadeEvent::Next { n: n_b, active_exhausted: false });
    fade_after(fade_after(blended, FadeEvent::Done), FadeEvent::Wanted)
}

/// The state after buffers of a fade.
pub open spec fn fade_rounds(s: FadeState, pulls: Seq<(usize, usize)>) -> FadeState
    decreases pulls.len(),
{
    if pulls.len() == 0 {
        s
    } else {
        fade_round(fade_rounds(s, pulls.drop_last()), pulls.last().0, pulls.last().1)
    }
}

/// The frames of buffers of a fade: each is as long as the longer of its two
/// sides.
pub open spec fn frames_of(pulls: Seq<(usize, usize)>, channels: usize) -> nat
    decreases pulls.len(),
{
    if pulls.len() == 0 {
        0
    } else {
        let (a, b) = pulls.last();
        frames_of(pulls.drop_last(), channels) + (if a > b {
            a as nat
        } else {
            b as nat
        }) / (channels as nat)
    }
}

proof fn lemma_fade_rounds(s: FadeState, label: Seq<char>, f: usize, pulls: Seq<(usize, usize)>)
    requires
        s.channels > 0,
        s.started,
        s.step == FadeStep::PullActive,
        s.next == Some(label),
        s.fade_frames == f,
        s.fade_pos == 0,
        s.tail is None,
        frames_of(pulls, s.channels) <= usize::MAX,
    ensures
        ({
            let t = fade_rounds(s, pulls);
            &&& t.channels == s.channels
            &&& t.started
            &&& t.step == FadeStep::PullActive
            &&& t.next == Some(label)
            &&& t.label == s.label
            &&& t.fade_frames == f
            &&& t.fade_pos == frames_of(pulls, s.channels)
            &&& t.tail is None
        }),
    decreases pulls.len(),
{
    if pulls.len() > 0 {
        lemma_fade_rounds(s, label, f, pulls.drop_last());
    }
}

/// Every transition fades from its beginning: whatever fades ran before, the
/// blends for a successor count from the frame at which it was handed over,
/// over exactly the frames that it was given. Both tracks are in every blend.
/// Once the outgoing track has ended, the successor is the active one, and the
/// frames that are left of the fade become its ramp.
pub proof fn law_fades_from_the_beginning(
    s: FadeState,
    label: &str,
    f: usize,
    pulls: Seq<(usize, usize)>,
    n_a: usize,
    n_b: usize,
    ended: bool,
)
    requires
        sound_fade(s),
        s.step == FadeStep::Preload,
        frames_of(pulls.push((n_a, n_b)), s.channels) <= usize::MAX,
    ensures
        ({
            let t = fade_rounds(fade_after(s, FadeEvent::Successor(Some((label, f)))), pulls);
            let u = fade_after(
                fade_after(t, FadeEvent::Active { n: n_a, exhausted: ended }),
                FadeEvent::Next { n: n_b, active_exhausted: ended },
            );
            let pos = frames_of(pulls, s.channels);
            let end = frames_of(pulls.push((n_a, n_b)), s.channels);
            &&& u.step == FadeStep::Deliver(
                Blend::Fade { n_a, n_b, pos: pos as usize, fade_frames: f, promoted: ended },
            )
            &&& pulls.len() == 0 ==> pos == 0
            &&& !ended ==> u.next == Some(label@) && u.label == s.label && u.tail is None
            &&& ended ==> u.next is None && u.label == label@
            &&& ended && end >= f ==> u.tail is None
            &&& ended && end < f ==> u.tail == Some(
                Tail {
                    pos: end as usize,
                    fade_frames: f,
                    remaining: (f - end) as usize,
                    total: (f - end) as usize,
                },
            )
        }),
{
    let all = pulls.push((n_a, n_b));
    assert(all.drop_last() =~= pulls);
    assert(frames_of(pulls, s.channels) <= frames_of(all, s.channels));
    let t0 = fade_after(s, FadeEvent::Successor(Some((label, f))));
    lemma_fade_rounds(t0, label@, f, pulls);
}

/// The state after one more buffer while no track is preloaded: samples come
/// from the active track, are delivered, and the next buffer is wanted, for
/// which no successor is due yet.
pub open spec fn plain_round(s: FadeState, n: usize) -> FadeState {
    let made = fade_after(s, FadeEvent::Active { n, exhausted: false });
    let wanted = fade_after(fade_after(made, FadeEvent::Done), FadeEvent::Wanted);
    fade_after(wanted, FadeEvent::Due(false))
}

/// The state after such buffers.
pub open spec fn plain_rounds(s: FadeState, pulls: Seq<usize>) -> FadeState
    decreases pulls.len(),
{
    if pulls.len() == 0 {
        s
    } else {
        plain_round(plain_rounds(s, pulls.drop_last()), pulls.last())
    }
}

/// The frames of buffers.
pub open spec fn plain_frames(pulls: Seq<usize>, channels: usize) -> nat
    decreases pulls.len(),
{
    if pulls.len() == 0 {
        0
    } else {
        plain_frames(pulls.drop_last(), channels) + pulls.last() as nat / channels as nat
    }
}

/// What is left of a fade goes on over the frames that were left, without a
/// jump: each buffer of the ramp stands behind the frames of those before it,
/// and after them the track passes as it is. A track that is not in a fade
/// always passes as it is.
pub proof fn law_ramp_goes_on(s: FadeState, pulls: Seq<usize>, n: usize)
    requires
        sound_fade(s),
        s.started,
        s.step == FadeStep::PullActive,
        s.next is None,
    ensures
        ({
            let t = plain_rounds(s, pulls);
            let u = fade_after(t, FadeEvent::Active { n, exhausted: false });
            let done = plain_frames(pulls, s.channels);
            &&& t.label == s.label
            &&& u.step == (match s.tail {
                Some(r) => if done < r.remaining {
                    FadeStep::Deliver(
                        Blend::Ramp {
                            n,
                            tail: Tail { remaining: (r.remaining - done) as usize, ..r },
                        },
                    )
                } else {
                    FadeStep::Deliver(Blend::Pass { n })
                },
                None => FadeStep::Deliver(Blend::Pass { n }),
            })
        }),
    decreases pulls.len(),
{
    lemma_plain_rounds(s, pulls);
}

proof fn lemma_plain_rounds(s: FadeState, pulls: Seq<usize>)
    requires
        sound_fade(s),
        s.started,
        s.step == FadeStep::PullActive,
        s.next is None,
    ensures
        ({
            let t = plain_rounds(s, pulls);
            let done = plain_frames(pulls, s.channels);
            &&& t.channels == s.channels
            &&& t.started
            &&& t.step == FadeStep::PullActive
            &&& t.next is None
            &&& t.label == s.label
            &&& t.tail == (match s.tail {
                Some(r) => if done < r.remaining {
                    Some(Tail { remaining: (r.remaining - done) as usize, ..r })
                } else {
                    None
                },
                None => None,
            })
        }),
    decreases pulls.len(),
{
    if pulls.len() > 0 {
        lemma_plain_rounds(s, pulls.drop_last());
    }
}

/// The successor is asked for exactly when it is due, and never while one
/// waits already; a provider without one changes nothing.
pub proof fn law_preloads_when_due(s: FadeState, due: bool)
    requires
        sound_fade(s),
        s.step == FadeStep::Idle,
        s.started,
    ensures
        ({
            let t = fade_after(s, FadeEvent::Wanted);
            let u = fade_after(t, FadeEvent::Due(due));
            &&& s.next is Some ==> t.step == FadeStep::PullActive
            &&& s.next is None ==> t.step == FadeStep::CheckDue
            &&& s.next is None && due ==> u == (FadeState { step: FadeStep::Preload, ..s })
            &&& s.next is None && due ==> fade_after(u, FadeEvent::Successor(None)) == (FadeState {
                step: FadeStep::PullActive,
                ..s
            })
            &&& s.next is None && !due ==> u == (FadeState { step: FadeStep::PullActive, ..s })
        }),
{
}

/// The first buffer and the first skip both start with the provider's first
/// track, if it has one; the buffer then plays it, and the skip goes past it.
pub proof fn law_first_track(s: FadeState, track: Option<&str>)
    requires
        sound_fade(s),
        !s.started,
    ensures
        ({
            let t = fade_after(fade_after(s, FadeEvent::Wanted), FadeEvent::Provided(track));
            let u = fade_after(fade_after(s, FadeEvent::Skip), FadeEvent::Provided(track));
            &&& t.started && u.started
            &&& t.step == FadeStep::CheckDue
            &&& u.step == FadeStep::SkipTo
            &&& track matches Some(label) ==> t.label == label@ && u.label == label@
            &&& track is None ==> t.label == s.label && u.label == s.label
        }),
{
}

/// A skip without a preloaded track plays the provider's next one at once,
/// without a fade.
pub proof fn law_skip_asks_the_provider(s: FadeState, label: &str, n: usize)
    requires
        sound_fade(s),
        s.step == FadeStep::Idle,
        s.started,
        s.next is None,
    ensures
        ({
            let t = fade_after(fade_after(s, FadeEvent::Skip), FadeEvent::Provided(Some(label)));
            let u = fade_after(
                fade_after(fade_after(t, FadeEvent::Wanted), FadeEvent::Due(false)),
                FadeEvent::Active { n, exhausted: false },
            );
            &&& t.label == label@
            &&& t.step == FadeStep::Idle
            &&& t.next is None
            &&& u.step == FadeStep::Deliver(Blend::Pass { n })
        }),
{
}

/// A track's own fades win: the window of a transition is the incoming fade-in
/// where there is one, else the outgoing fade-out, else the level-aware
/// window, else the global one; the successor is preloaded as long before the
/// end as the outgoing side fades.
pub proof fn law_windows<T>(
    fade_in: T,
    fade_out: T,
    own_in: Option<T>,
    own_out: Option<T>,
    smart: T,
    global: T,
)
    ensures
        forall|active: Option<(Option<T>, Option<T>)>, level: Option<T>|
            #[trigger] window_of(Some((Some(fade_in), own_out)), active, level, global) == fade_in,
        forall|incoming: Option<(Option<T>, Option<T>)>, level: Option<T>|
            !(incoming matches Some((Some(_), _))) ==> #[trigger] window_of(
                incoming,
                Some((own_in, Some(fade_out))),
                level,
                global,
            ) == fade_out,
        forall|incoming: Option<(Option<T>, Option<T>)>, active: Option<(Option<T>, Option<T>)>|
            !(incoming matches Some((Some(_), _))) && !(active matches Some((_, Some(_)))) ==> {
                &&& #[trigger] window_of(incoming, active, Some(smart), global) == smart
                &&& window_of(incoming, active, None, global) == global
            },
        forall|level: Option<T>|
            #[trigger] margin_of(Some((own_in, Some(fade_out))), level, global) == fade_out,
        forall|active: Option<(Option<T>, Option<T>)>|
            !(active matches Some((_, Some(_)))) ==> {
                &&& #[trigger] margin_of(active, Some(smart), global) == smart
                &&& margin_of(active, None, global) == global
            },
        level_window(fade_in, fade_out, Some(true)) == fade_in,
        level_window(fade_in, fade_out, None) == fade_in,
        level_window(fade_in, fade_out, Some(false)) == fade_out,
{
}

/// A track whose remaining time is known is followed up within its margin,
/// ended or not; any other one once it has ended.
pub proof fn law_due_within_the_margin(exhausted: bool)
    ensures
        successor_due(Some(true), exhausted),
        !successor_due(Some(false), exhausted),
        successor_due(None, true),
        !successor_due(None, false),
{
}

/// The stream is over only when nothing at all is left: not while the provider
/// has a track, nor while one that was started or preloaded still plays.
pub proof fn law_over_only_at_the_end(active_exhausted: bool, next_exhausted: Option<bool>)
    ensures
        forall|started: bool|
            !#[trigger] all_played(started, active_exhausted, next_exhausted, true),
        all_played(false, active_exhausted, next_exhausted, false),
        !active_exhausted ==> !all_played(true, active_exhausted, next_exhausted, false),
        next_exhausted == Some(false) ==> !all_played(
            true,
            active_exhausted,
            next_exhausted,
            false,
        ),
        all_played(true, true, None, false),
        all_played(true, true, Some(true), false),
{
}

/// The rest of a fade, delivered in buffers of any sizes, ends after as many
/// frames as were left of it.
pub proof fn law_ramp_ends(t: Tail, a: nat, b: nat)
    requires
        t.remaining > 0,
    ensures
        tail_after(t, a + b) == (match tail_after(t, a) {
            Some(r) => tail_after(r, b),
            None => None,
        }),
        tail_after(t, t.remaining as nat) is None,
        a < t.remaining ==> tail_after(t, a) is Some,
{
}

/// With nothing to skip to, a skip changes nothing that is heard.
pub proof fn law_skip_without_successor(s: FadeState)
    requires
        sound_fade(s),
        s.step == FadeStep::Idle,
        s.started,
        s.next is None,
    ensures
        fade_after(fade_after(s, FadeEvent::Skip), FadeEvent::Provided(None)) == s,
{
}

/// A skip with a preloaded track makes it the active one at once, without a
/// fade.
pub proof fn law_skip_takes_the_successor(s: FadeState)
    requires
        sound_fade(s),
        s.step == FadeStep::Idle,
        s.started,
        s.next is Some,
    ensures
        ({
            let t = fade_after(fade_after(s, FadeEvent::Skip), FadeEvent::Done);
            &&& t.step == FadeStep::Idle
            &&& t.label == s.next->0
            &&& t.next is None
            &&& t.tail is None
            &&& t.fade_pos == 0
        }),
{
}

/// The stream never stalls on a track that has ended: it is replaced while
/// the provider has another one, and only without one nothing is delivered.
pub proof fn law_no_stall(s: FadeState, track: Option<&str>)
    requires
        sound_fade(s),
        s.step == FadeStep::PullActive,
        s.next is None,
    ensures
        ({
            let t = fade_after(
                fade_after(s, FadeEvent::Active { n: 0, exhausted: true }),
                FadeEvent::Provided(track),
            );
            match track {
                Some(label) => t.label == label@ && t.step == FadeStep::CheckDue,
                None => t.step == FadeStep::Deliver(Blend::Nothing),
            }
        }),
{
}

} // verus!
