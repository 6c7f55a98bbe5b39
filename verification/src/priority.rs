//! The priority of a live DJ and of jingles over the playlist.

use vstd::prelude::*;

verus! {

/// Commands to the mixer. The audio of a DJ is handed over beside the
/// command.
#[derive(Clone, Debug)]
pub enum MixCommand {
    SetLive,
    ClearLive,
    PlayJingle(String),
    /// Skip the current track of the playlist.
    Skip,
    Shutdown,
}

/// The gain of the override, between the playlist alone and the override
/// alone.
#[derive(Clone, Copy, Debug, PartialEq, Eq, Structural)]
pub enum GainLevel {
    /// The playlist alone.
    Zero,
    /// Above zero, up to a half.
    Low,
    /// Above a half, below one.
    High,
    /// The override alone.
    Full,
}

/// How the gain changes with a buffer.
#[derive(Clone, Copy, Debug, PartialEq, Eq, Structural)]
pub enum GainMove {
    Hold,
    Rise,
    Fall,
}

/// What a command asks of the caller.
#[derive(Clone, Copy, Debug, PartialEq, Eq, Structural)]
pub enum CommandStep {
    /// Nothing more.
    Done,
    /// Take the DJ's audio as the override, and drop a jingle.
    TakeLive,
    /// Open the jingle, and report whether that worked.
    OpenJingle,
    /// Skip the current track of the playlist.
    SkipTrack,
}

/// What plays over the playlist.
#[derive(Clone, Copy, Debug, PartialEq, Eq, Structural)]
pub enum Override {
    Live,
    Jingle,
    Nothing,
}

/// The state of the mixer.
pub struct DuckState {
    pub live: bool,
    pub jingle: bool,
    pub level: GainLevel,
    pub rising: bool,
    pub falling: bool,
    /// The override has delivered audio.
    pub override_started: bool,
    pub shutdown: bool,
}

/// The state after a command, and what it asks of the caller. A jingle is
/// ignored while a DJ is live.
pub open spec fn commanded(s: DuckState, c: MixCommand) -> (DuckState, CommandStep) {
    match c {
        MixCommand::SetLive => (
            DuckState {
                live: true,
                jingle: false,
                override_started: false,
                rising: true,
                falling: false,
                ..s
            },
            CommandStep::TakeLive,
        ),
        MixCommand::ClearLive => (
            DuckState { rising: false, falling: true, ..s },
            CommandStep::Done,
        ),
        MixCommand::PlayJingle(_) => (
            s,
            if s.live {
                CommandStep::Done
            } else {
                CommandStep::OpenJingle
            },
        ),
        MixCommand::Skip => (s, CommandStep::SkipTrack),
        MixCommand::Shutdown => (DuckState { shutdown: true, ..s }, CommandStep::Done),
    }
}

/// The state once a jingle is open.
pub open spec fn jingle_opened(s: DuckState) -> DuckState {
    DuckState { jingle: true, override_started: false, rising: true, falling: false, ..s }
}

/// What plays over the playlist.
pub open spec fn override_of(s: DuckState) -> Override {
    if s.live {
        Override::Live
    } else if s.jingle {
        Override::Jingle
    } else {
        Override::Nothing
    }
}

/// The state after the override was pulled: `n` samples came, and it may have
/// ended. One that has ended fades back out.
pub open spec fn pulled(s: DuckState, n: usize, ended: bool) -> DuckState {
    let t = DuckState { override_started: s.override_started || n > 0, ..s };
    if ended && (s.live || s.jingle) && s.level != GainLevel::Zero && !s.falling {
        DuckState { rising: false, falling: true, ..t }
    } else {
        t
    }
}

/// How the gain changes with a buffer: it rises once the override has
/// delivered audio.
pub open spec fn gain_move(s: DuckState) -> GainMove {
    if s.rising && s.override_started {
        GainMove::Rise
    } else if s.falling {
        GainMove::Fall
    } else {
        GainMove::Hold
    }
}

/// The state once the gain has changed: at full gain it stops rising, and at
/// none the override is gone.
pub open spec fn gained(s: DuckState, level: GainLevel) -> DuckState {
    match gain_move(s) {
        GainMove::Hold => s,
        GainMove::Rise => DuckState {
            level,
            rising: s.rising && level != GainLevel::Full,
            ..s
        },
        GainMove::Fall => if level == GainLevel::Zero {
            DuckState {
                level,
                falling: false,
                live: false,
                jingle: false,
                override_started: false,
                ..s
            }
        } else {
            DuckState { level, ..s }
        },
    }
}

/// The stream is over: shutdown was requested, or the playlist has ended.
pub open spec fn stream_over(s: DuckState, main_exhausted: bool) -> bool {
    s.shutdown || main_exhausted
}

/// The gain is above a half.
pub open spec fn dominant(level: GainLevel) -> bool {
    level == GainLevel::High || level == GainLevel::Full
}

/// Whose label is shown: that of an override above a half, else that of the
/// playlist.
pub open spec fn label_of(s: DuckState) -> Override {
    if dominant(s.level) {
        override_of(s)
    } else {
        Override::Nothing
    }
}

/// Decides what plays over the playlist. The caller holds the audio and the
/// gain, and reports what it pulled and where the gain stands.
#[derive(Clone, Copy, Debug)]
pub struct PriorityMixer {
    live: bool,
    jingle: bool,
    level: GainLevel,
    rising: bool,
    falling: bool,
    override_started: bool,
    shutdown: bool,
}

impl View for PriorityMixer {
    type V = DuckState;

    closed spec fn view(&self) -> DuckState {
        DuckState {
            live: self.live,
            jingle: self.jingle,
            level: self.level,
            rising: self.rising,
            falling: self.falling,
            override_started: self.override_started,
            shutdown: self.shutdown,
        }
    }
}

/// The state at the start: the playlist alone.
pub open spec fn duck_start() -> DuckState {
    DuckState {
        live: false,
        jingle: false,
        level: GainLevel::Zero,
        rising: false,
        falling: false,
        override_started: false,
        shutdown: false,
    }
}

impl PriorityMixer {
    /// The mixer at the start: the playlist alone.
    pub fn new() -> (m: PriorityMixer)
        ensures
            m@ == duck_start(),
    {
        PriorityMixer {
            live: false,
            jingle: false,
            level: GainLevel::Zero,
            rising: false,
            falling: false,
            override_started: false,
            shutdown: false,
        }
    }

    /// Whether shutdown was requested.
    pub fn is_shutdown(&self) -> (b: bool)
        ensures
            b == self@.shutdown,
    {
        self.shutdown
    }

    /// Whether the stream is over: shutdown was requested, or the playlist
    /// has ended.
    pub fn is_exhausted(&self, main_exhausted: bool) -> (b: bool)
        ensures
            b == stream_over(self@, main_exhausted),
    {
        self.shutdown || main_exhausted
    }

    /// Takes a command; says what it asks of the caller.
    pub fn on_command(&mut self, c: &MixCommand) -> (r: CommandStep)
        ensures
            (final(self)@, r) == commanded(old(self)@, *c),
    {
        match c {
            MixCommand::SetLive => {
                self.live = true;
                self.jingle = false;
                self.override_started = false;
                self.rising = true;
                self.falling = false;
                CommandStep::TakeLive
            },
            MixCommand::ClearLive => {
                self.rising = false;
                self.falling = true;
                CommandStep::Done
            },
            MixCommand::PlayJingle(_) => if self.live {
                CommandStep::Done
            } else {
                CommandStep::OpenJingle
            },
            MixCommand::Skip => CommandStep::SkipTrack,
            MixCommand::Shutdown => {
                self.shutdown = true;
                CommandStep::Done
            },
        }
    }

    /// A jingle was opened.
    pub fn on_jingle_open(&mut self)
        ensures
            final(self)@ == jingle_opened(old(self)@),
    {
        self.jingle = true;
        self.override_started = false;
        self.rising = true;
        self.falling = false;
    }

    /// What plays over the playlist, and is pulled beside it.
    pub fn overriding(&self) -> (o: Override)
        ensures
            o == override_of(self@),
    {
        if self.live {
            Override::Live
        } else if self.jingle {
            Override::Jingle
        } else {
            Override::Nothing
        }
    }

    /// The override was pulled: `n` samples came, and it may have ended.
    pub fn on_override(&mut self, n: usize, ended: bool)
        ensures
            final(self)@ == pulled(old(self)@, n, ended),
    {
        if n > 0 {
            self.override_started = true;
        }
        if ended && (self.live || self.jingle) && self.level != GainLevel::Zero && !self.falling {
            self.rising = false;
            self.falling = true;
        }
    }

    /// How the gain changes with this buffer.
    pub fn gain_move(&self) -> (g: GainMove)
        ensures
            g == gain_move(self@),
    {
        if self.rising && self.override_started {
            GainMove::Rise
        } else if self.falling {
            GainMove::Fall
        } else {
            GainMove::Hold
        }
    }

    /// The gain has changed. Says whether the override is gone.
    pub fn on_gain(&mut self, level: GainLevel) -> (gone: bool)
        ensures
            final(self)@ == gained(old(self)@, level),
            gone == (gain_move(old(self)@) == GainMove::Fall && level == GainLevel::Zero),
    {
        match self.gain_move() {
            GainMove::Hold => false,
            GainMove::Rise => {
                self.level = level;
                if level == GainLevel::Full {
                    self.rising = false;
                }
                false
            },
            GainMove::Fall => {
                self.level = level;
                if level == GainLevel::Zero {
                    self.falling = false;
                    self.live = false;
                    self.jingle = false;
                    self.override_started = false;
                    return true;
                }
                false
            },
        }
    }

    /// Whose label is shown.
    pub fn label_source(&self) -> (o: Override)
        ensures
            o == label_of(self@),
    {
        if self.level == GainLevel::High || self.level == GainLevel::Full {
            self.overriding()
        } else {
            Override::Nothing
        }
    }
}

// ---------------------------------------------------------------------------
// Laws
// ---------------------------------------------------------------------------

/// What holds of the mixer at every step: a jingle never plays beside a DJ,
/// and the gain never rises and falls at once.
pub open spec fn sound_duck(s: DuckState) -> bool {
    &&& !(s.live && s.jingle)
    &&& !(s.rising && s.falling)
}

/// Everything that happens keeps the mixer sound. A jingle is opened only
/// where a command asked for it.
pub proof fn law_duck_stays_sound(s: DuckState, c: MixCommand, n: usize, ended: bool, level: GainLevel)
    requires
        sound_duck(s),
    ensures
        sound_duck(duck_start()),
        sound_duck(commanded(s, c).0),
        commanded(s, c).1 == CommandStep::OpenJingle ==> sound_duck(
            jingle_opened(commanded(s, c).0),
        ),
        sound_duck(pulled(s, n, ended)),
        sound_duck(gained(s, level)),
{
}

/// A live DJ wins over a jingle: while one is live a jingle changes nothing,
/// and one that connects ends the jingle.
pub proof fn law_dj_wins(s: DuckState, path: String)
    ensures
        s.live ==> commanded(s, MixCommand::PlayJingle(path)) == (s, CommandStep::Done),
        override_of(commanded(s, MixCommand::SetLive).0) == Override::Live,
        !commanded(s, MixCommand::SetLive).0.jingle,
{
}

/// Once the gain of an override has fallen to nothing, the playlist plays
/// alone.
pub proof fn law_override_ends(s: DuckState)
    requires
        gain_move(s) == GainMove::Fall,
    ensures
        override_of(gained(s, GainLevel::Zero)) == Override::Nothing,
        gain_move(gained(s, GainLevel::Zero)) == GainMove::Hold,
        label_of(gained(s, GainLevel::Zero)) == Override::Nothing,
{
}

/// An override that has delivered nothing yet does not raise the gain: the
/// playlist stays until there is something to hear.
pub proof fn law_silent_override_waits(s: DuckState, c: MixCommand)
    requires
        c == MixCommand::SetLive,
    ensures
        gain_move(pulled(commanded(s, c).0, 0, false)) == GainMove::Hold,
        forall|n: usize|
            n > 0 ==> gain_move(#[trigger] pulled(commanded(s, c).0, n, false)) == GainMove::Rise,
{
}

/// Whatever plays over the playlist, a DJ or a jingle, gives it back: once it
/// has ended and can be heard, the gain falls, and goes on falling until the
/// playlist is alone again. So it does when the DJ is taken off.
pub proof fn law_ended_override_gives_back(s: DuckState, n: usize, level: GainLevel)
    requires
        sound_duck(s),
    ensures
        (s.live || s.jingle) && s.level != GainLevel::Zero ==> {
            let t = pulled(s, n, true);
            let u = gained(t, level);
            &&& gain_move(t) == GainMove::Fall
            &&& t.live == s.live && t.jingle == s.jingle && t.level == s.level
            &&& u.level == level
            &&& level != GainLevel::Zero ==> gain_move(u) == GainMove::Fall && u.live == s.live
                && u.jingle == s.jingle
            &&& level == GainLevel::Zero ==> gain_move(u) == GainMove::Hold && !u.live && !u.jingle
        },
        ({
            let t = commanded(s, MixCommand::ClearLive).0;
            let u = gained(t, level);
            &&& gain_move(t) == GainMove::Fall
            &&& t.live == s.live && t.jingle == s.jingle && t.level == s.level
            &&& u.level == level
            &&& level == GainLevel::Zero ==> !u.live && !u.jingle && gain_move(u)
                == GainMove::Hold
        }),
{
}

/// An override that goes on is left alone: while it plays, pulling it changes
/// neither what plays nor the gain, and at full gain it stays there.
pub proof fn law_playing_override_stays(s: DuckState, n: usize)
    requires
        sound_duck(s),
    ensures
        ({
            let t = pulled(s, n, false);
            &&& t.live == s.live && t.jingle == s.jingle && t.level == s.level
            &&& t.rising == s.rising && t.falling == s.falling && t.shutdown == s.shutdown
            &&& !s.rising && !s.falling ==> gain_move(t) == GainMove::Hold && gained(
                t,
                s.level,
            ) == t
        }),
{
}

/// Whatever takes over is faded in: from its first sample on the gain rises
/// until it is full, and then holds, and what took over still plays.
pub proof fn law_override_rises(s: DuckState, n: usize, level: GainLevel)
    requires
        sound_duck(s),
        n > 0,
    ensures
        ({
            let t = pulled(commanded(s, MixCommand::SetLive).0, n, false);
            let u = gained(t, level);
            &&& gain_move(t) == GainMove::Rise
            &&& u.level == level && u.live && !u.jingle
            &&& level != GainLevel::Full ==> gain_move(u) == GainMove::Rise
            &&& level == GainLevel::Full ==> gain_move(u) == GainMove::Hold
        }),
        !s.live ==> {
            let t = pulled(jingle_opened(s), n, false);
            let u = gained(t, level);
            &&& override_of(t) == Override::Jingle
            &&& gain_move(t) == GainMove::Rise
            &&& u.level == level && u.jingle && !u.live
            &&& level != GainLevel::Full ==> gain_move(u) == GainMove::Rise
            &&& level == GainLevel::Full ==> gain_move(u) == GainMove::Hold
        },
        gain_move(pulled(jingle_opened(s), 0, false)) == GainMove::Hold,
{
}

/// A jingle that is asked for while no DJ is live is opened; a skip is passed
/// on to the playlist; neither changes what plays, and only a shutdown ends
/// the stream.
pub proof fn law_commands_ask(s: DuckState, path: String)
    ensures
        !s.live ==> commanded(s, MixCommand::PlayJingle(path)) == (s, CommandStep::OpenJingle),
        commanded(s, MixCommand::Skip) == (s, CommandStep::SkipTrack),
        commanded(s, MixCommand::SetLive).1 == CommandStep::TakeLive,
        commanded(s, MixCommand::Shutdown) == (
            DuckState { shutdown: true, ..s },
            CommandStep::Done,
        ),
        commanded(s, MixCommand::SetLive).0.shutdown == s.shutdown,
        commanded(s, MixCommand::ClearLive).0.shutdown == s.shutdown,
        !s.shutdown ==> stream_over(s, true) && !stream_over(s, false),
{
}

/// The label is that of whatever is louder: of the override above a half, of
/// the playlist up to it.
pub proof fn law_label_of_the_louder(s: DuckState)
    requires
        sound_duck(s),
    ensures
        s.level == GainLevel::Zero || s.level == GainLevel::Low ==> label_of(s)
            == Override::Nothing,
        s.level == GainLevel::High || s.level == GainLevel::Full ==> {
            &&& s.live ==> label_of(s) == Override::Live
            &&& s.jingle ==> label_of(s) == Override::Jingle
            &&& !s.live && !s.jingle ==> label_of(s) == Override::Nothing
        },
{
}

/// Shutdown is final.
pub proof fn law_shutdown_is_final(s: DuckState, c: MixCommand, n: usize, ended: bool, level: GainLevel)
    requires
        s.shutdown,
    ensures
        commanded(s, c).0.shutdown,
        pulled(s, n, ended).shutdown,
        gained(s, level).shutdown,
        jingle_opened(s).shutdown,
        stream_over(s, ended),
{
}

} // verus!
