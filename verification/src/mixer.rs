//! Engine status and the mixing rules.

use vstd::prelude::*;
use crate::text::owned;

verus! {

// ---------------------------------------------------------------------------
// Status
// ---------------------------------------------------------------------------

/// `std::time::Instant`: a point on the monotonic clock.
#[verifier::external_type_specification]
#[verifier::external_body]
pub struct ExInstant(std::time::Instant);

/// `std::time::Instant::now`: the current time; nothing is claimed of it.
#[verifier::external_body]
fn clock_now() -> (t: std::time::Instant) {
    std::time::Instant::now()
}

/// The length of time that `std::time::Instant` gives from an earlier instant
/// to a later one.
pub uninterp spec fn time_between(
    later: std::time::Instant,
    earlier: std::time::Instant,
) -> std::time::Duration;

/// `std::time::Instant::saturating_duration_since`: fixed by the two instants.
/// That it is no time at all where the first instant is not the later one is
/// left unsaid, since the order of instants is not modelled.
#[verifier::external_body]
fn elapsed(later: &std::time::Instant, earlier: &std::time::Instant) -> (d: std::time::Duration)
    ensures
        d == time_between(*later, *earlier),
{
    later.saturating_duration_since(*earlier)
}

/// The whole seconds of a `std::time::Duration`.
pub uninterp spec fn whole_seconds(d: std::time::Duration) -> u64;

/// `std::time::Duration::as_secs`: the whole seconds, fixed by the duration.
#[verifier::external_body]
fn seconds_of(d: &std::time::Duration) -> (secs: u64)
    ensures
        secs == whole_seconds(*d),
{
    d.as_secs()
}

/// Whole seconds from an instant to a later one.
pub open spec fn seconds_between(later: std::time::Instant, earlier: std::time::Instant) -> u64 {
    whole_seconds(time_between(later, earlier))
}

/// What the control port reports of the engine at one moment.
pub struct StatusView {
    pub playing: Seq<char>,
    pub uptime_seconds: u64,
    pub live: bool,
}

/// What the control port reports of the engine at one moment.
#[derive(Clone, Debug)]
pub struct EngineStatus {
    /// Title of the current track.
    pub playing: String,
    /// Seconds since the engine started.
    pub uptime_seconds: u64,
    /// A DJ holds the live input.
    pub live: bool,
}

impl View for EngineStatus {
    type V = StatusView;

    open spec fn view(&self) -> StatusView {
        StatusView {
            playing: self.playing@,
            uptime_seconds: self.uptime_seconds,
            live: self.live,
        }
    }
}

/// Engine status consumed by the control port.
pub struct StatusHandle {
    started: std::time::Instant,
    current: String,
    harbor_connected: bool,
}

impl StatusHandle {
    /// The title of the current track.
    pub closed spec fn title(&self) -> Seq<char> {
        self.current@
    }

    /// A DJ holds the live input.
    pub closed spec fn live(&self) -> bool {
        self.harbor_connected
    }

    /// When the engine started.
    pub closed spec fn start(&self) -> std::time::Instant {
        self.started
    }

    /// The status of an engine that starts now.
    pub fn new() -> (s: StatusHandle)
        ensures
            s.title() == Seq::<char>::empty(),
            !s.live(),
    {
        StatusHandle { started: clock_now(), current: String::new(), harbor_connected: false }
    }

    /// The flag that the live input sets while a DJ is connected.
    pub fn harbor_flag(&mut self) -> (flag: &mut bool)
        ensures
            *flag == old(self).live(),
            final(self).live() == *final(flag),
            final(self).title() == old(self).title(),
            final(self).start() == old(self).start(),
    {
        &mut self.harbor_connected
    }

    /// Whether a DJ holds the live input.
    pub fn harbor_connected(&self) -> (b: bool)
        ensures
            b == self.live(),
    {
        self.harbor_connected
    }

    /// Sets the title of the current track.
    pub fn set_current(&mut self, title: &str)
        ensures
            final(self).title() == title@,
            final(self).live() == old(self).live(),
            final(self).start() == old(self).start(),
    {
        self.current = owned(title);
    }

    /// The title of the current track.
    pub fn current(&self) -> (s: String)
        ensures
            s@ == self.title(),
    {
        self.current.clone()
    }

    /// Whole seconds from the start of the engine to an instant.
    pub fn uptime_at(&self, now: &std::time::Instant) -> (secs: u64)
        ensures
            secs == seconds_between(*now, self.start()),
    {
        seconds_of(&elapsed(now, &self.started))
    }

    /// Whole seconds since the engine started: up to the instant that the
    /// monotonic clock gives during the call.
    pub fn uptime_seconds(&self) -> (secs: u64)
        ensures
            exists|now: std::time::Instant| secs == #[trigger] seconds_between(now, self.start()),
    {
        let now = clock_now();
        self.uptime_at(&now)
    }

    /// The status at this moment.
    pub fn snapshot(&self) -> (s: EngineStatus)
        ensures
            s@.playing == self.title(),
            s@.live == self.live(),
            exists|now: std::time::Instant|
                s@.uptime_seconds == #[trigger] seconds_between(now, self.start()),
    {
        EngineStatus {
            playing: self.current(),
            uptime_seconds: self.uptime_seconds(),
            live: self.harbor_connected,
        }
    }
}

impl Default for StatusHandle {
    fn default() -> (s: StatusHandle)
        ensures
            s.title() == Seq::<char>::empty(),
            !s.live(),
    {
        StatusHandle::new()
    }
}

} // verus!
