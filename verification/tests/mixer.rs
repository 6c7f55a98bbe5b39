use crabsoup::crossfade::{
    fade_window, preload_due, preload_margin, silence_rest, smart_window, Blend, CrossfadeMixer,
    FadeEvent, FadeStep, LevelWindow,
};
use crabsoup::priority::{
    CommandStep, GainLevel, GainMove, MixCommand, Override, PriorityMixer,
};
use crabsoup::tap::{pool_size, FramePool, PullOutcome, TapClock, TAP_BOUND};

const RATE: usize = 100;
const CHANS: usize = 2;

type Fades = Option<(Option<f64>, Option<f64>)>;

struct FakeSource {
    value: f32,
    total_frames: usize,
    pos_frames: usize,
    fades: Fades,
}

impl FakeSource {
    fn new(value: f32, total_frames: usize, fades: Fades) -> Self {
        Self { value, total_frames, pos_frames: 0, fades }
    }

    fn next_buffer(&mut self, buffer: &mut [f32]) -> usize {
        let want = buffer.len() / CHANS;
        let avail = self.total_frames.saturating_sub(self.pos_frames);
        let n_frames = avail.min(want);
        let n = n_frames * CHANS;
        buffer[..n].fill(self.value);
        self.pos_frames += n_frames;
        n
    }

    fn is_exhausted(&self) -> bool {
        self.pos_frames >= self.total_frames
    }

    fn remaining_seconds(&self) -> f64 {
        (self.total_frames - self.pos_frames) as f64 / RATE as f64
    }

    fn label(&self) -> String {
        format!("src({})", self.value)
    }
}

#[derive(Clone, Copy)]
struct SmartFade {
    fade_out: f64,
    fade_mid: f64,
    threshold_db: f32,
}

/// Plays tracks as the crossfade decides, with a linear fade curve.
struct Player {
    mixer: CrossfadeMixer,
    tracks: Vec<FakeSource>,
    active: Option<FakeSource>,
    next: Option<FakeSource>,
    crossfade_seconds: f64,
    smart: Option<SmartFade>,
    window: LevelWindow,
    energies: Vec<f64>,
    scratch_a: Vec<f32>,
    scratch_b: Vec<f32>,
}

impl Player {
    fn new(tracks: Vec<FakeSource>, crossfade_seconds: f64) -> Self {
        let frames = (crossfade_seconds * RATE as f64).max(1.0) as usize;
        Self {
            mixer: CrossfadeMixer::new(frames, CHANS),
            tracks,
            active: None,
            next: None,
            crossfade_seconds,
            smart: None,
            window: LevelWindow::new(),
            energies: Vec::new(),
            scratch_a: Vec::new(),
            scratch_b: Vec::new(),
        }
    }

    fn take_track(&mut self) -> Option<(FakeSource, String)> {
        if self.tracks.is_empty() {
            return None;
        }
        let s = self.tracks.remove(0);
        let label = s.label();
        Some((s, label))
    }

    fn reset_tail(&mut self) {
        self.window.clear();
        self.energies.clear();
    }

    fn fades(&self) -> Fades {
        self.active.as_ref().and_then(|a| a.fades)
    }

    fn loud(&self, s: SmartFade) -> Option<bool> {
        if self.window.samples() == 0 {
            return None;
        }
        let sum: f64 = self.energies.iter().sum();
        let rms = (sum / self.window.samples() as f64).sqrt();
        Some(20.0 * rms.max(1e-9).log10() as f32 >= s.threshold_db)
    }

    fn accumulate(&mut self, n: usize) {
        let Some(smart) = self.smart else { return };
        let sum: f64 = self.scratch_a[..n].iter().map(|&s| s as f64 * s as f64).sum();
        self.energies.push(sum);
        let limit = (smart.fade_out * RATE as f64 * CHANS as f64).max(1.0) as u64;
        let dropped = self.window.push(n as u64, limit);
        self.energies.drain(..dropped);
    }

    fn blend(&mut self, blend: Blend, buffer: &mut [f32]) -> usize {
        match blend {
            Blend::Nothing => 0,
            Blend::Pass { n } => {
                self.accumulate(n);
                buffer[..n].copy_from_slice(&self.scratch_a[..n]);
                n
            }
            Blend::Ramp { n, tail } => {
                self.accumulate(n);
                let start = tail.pos as f64 / tail.fade_frames as f64;
                for f in 0..n / CHANS {
                    let left = tail.remaining.saturating_sub(f);
                    let progress = 1.0 - left as f64 / tail.total as f64;
                    let ramp = start + (1.0 - start) * progress;
                    for ch in 0..CHANS {
                        let i = f * CHANS + ch;
                        buffer[i] = (self.scratch_a[i] as f64 * ramp) as f32;
                    }
                }
                n
            }
            Blend::Fade { n_a, n_b, pos, fade_frames, .. } => {
                let out = n_a.max(n_b);
                silence_rest(&mut self.scratch_a, n_a, out, 0.0);
                silence_rest(&mut self.scratch_b, n_b, out, 0.0);
                for (i, o) in buffer.iter_mut().take(out).enumerate() {
                    let t = ((pos + i / CHANS) as f64 / fade_frames as f64).clamp(0.0, 1.0) as f32;
                    *o = (self.scratch_a[i] as f64 * (1.0 - t) as f64
                        + self.scratch_b[i] as f64 * t as f64) as f32;
                }
                out
            }
        }
    }

    /// Performs steps until the mixer is idle; returns the samples delivered.
    fn run(&mut self, buffer: &mut [f32]) -> usize {
        let mut delivered = 0;
        self.scratch_a.resize(buffer.len(), 0.0);
        self.scratch_b.resize(buffer.len(), 0.0);
        loop {
            match self.mixer.step() {
                FadeStep::Idle => return delivered,
                FadeStep::First { .. } | FadeStep::Advance | FadeStep::SkipTo => {
                    match self.take_track() {
                        Some((s, label)) => {
                            self.active = Some(s);
                            self.reset_tail();
                            self.mixer.on_event(FadeEvent::Provided(Some(&label)));
                        }
                        None => {
                            self.mixer.on_event(FadeEvent::Provided(None));
                        }
                    }
                }
                FadeStep::CheckDue => {
                    let margin = preload_margin(
                        self.fades(),
                        self.smart.map(|s| s.fade_out),
                        self.crossfade_seconds,
                    );
                    let within = self.active.as_ref().map(|a| a.remaining_seconds() <= margin);
                    let over = self.active.as_ref().map(|a| a.is_exhausted()).unwrap_or(true);
                    self.mixer.on_event(FadeEvent::Due(preload_due(within, over)));
                }
                FadeStep::Preload => match self.take_track() {
                    Some((s, label)) => {
                        let smart = self
                            .smart
                            .map(|f| smart_window(f.fade_out, f.fade_mid, self.loud(f)));
                        let w = fade_window(s.fades, self.fades(), smart, self.crossfade_seconds);
                        let frames = (w * RATE as f64).max(1.0) as usize;
                        self.next = Some(s);
                        self.mixer.on_event(FadeEvent::Successor(Some((&label, frames))));
                    }
                    None => {
                        self.mixer.on_event(FadeEvent::Successor(None));
                    }
                },
                FadeStep::PullActive => {
                    let n = match self.active.as_mut() {
                        Some(a) => a.next_buffer(&mut self.scratch_a),
                        None => 0,
                    };
                    let exhausted = self.active.as_ref().map(|a| a.is_exhausted()).unwrap_or(true);
                    self.mixer.on_event(FadeEvent::Active { n, exhausted });
                }
                FadeStep::PullNext { .. } => {
                    let n = self.next.as_mut().unwrap().next_buffer(&mut self.scratch_b);
                    let active_exhausted = self.active.as_ref().unwrap().is_exhausted();
                    self.mixer.on_event(FadeEvent::Next { n, active_exhausted });
                }
                FadeStep::Deliver(blend) => {
                    delivered = self.blend(blend, buffer);
                    if matches!(blend, Blend::Fade { promoted: true, .. }) {
                        self.active = self.next.take();
                        self.reset_tail();
                    }
                    self.mixer.on_event(FadeEvent::Done);
                }
                FadeStep::Promote => {
                    self.active = self.next.take();
                    self.reset_tail();
                    self.mixer.on_event(FadeEvent::Done);
                }
            }
        }
    }

    fn next_buffer(&mut self, buffer: &mut [f32]) -> usize {
        self.mixer.on_event(FadeEvent::Wanted);
        self.run(buffer)
    }

    fn skip(&mut self) {
        self.mixer.on_event(FadeEvent::Skip);
        self.run(&mut []);
    }
}

fn tracks(values: &[(f32, usize)]) -> Vec<FakeSource> {
    values.iter().map(|&(v, n)| FakeSource::new(v, n, None)).collect()
}

fn near(a: f32, b: f32) -> bool {
    (a - b).abs() < 1e-6
}

#[test]
fn seamless_crossfade_with_gain_ramp() {
    // Track A: 1.0s (100 frames), track B: value 2.0.
    // Crossfade window: 0.2s (20 frames), buffers of 10 frames.
    let mut mix = Player::new(tracks(&[(1.0, 100), (2.0, 1000)]), 0.2);
    let mut buf = vec![0f32; 10 * CHANS];
    let n = mix.next_buffer(&mut buf);
    assert_eq!(n, 20);

    // Buffer 1: remaining 0.9s > 0.2s -> passthrough A.
    assert!(near(buf[0], 1.0));

    // Buffers 2..=8: passthrough A (remaining 0.8 -> 0.2).
    for _ in 0..7 {
        mix.next_buffer(&mut buf);
    }
    assert!(near(buf[0], 1.0));

    // Buffer 9: remaining == 0.2s -> preload B, fade begins (t=0).
    mix.next_buffer(&mut buf);
    assert!(near(buf[0], 1.0));

    // Buffer 10: t=0.5 -> 0.5*A + 0.5*B = 1.5.
    mix.next_buffer(&mut buf);
    assert!(near(buf[0], 1.5));

    // Buffer 11: t=1.0 -> B only = 2.0, A now exhausted and promoted.
    mix.next_buffer(&mut buf);
    assert!(near(buf[0], 2.0));

    // Buffer 12: B continues at full gain.
    mix.next_buffer(&mut buf);
    assert!(near(buf[0], 2.0));
}

#[test]
fn tail_ramp_when_track_ends_mid_fade() {
    // A is only one buffer long (10 frames) while the crossfade window is
    // 20 frames, so it is promoted while the fade is only half done.
    let mut mix = Player::new(tracks(&[(1.0, 10), (2.0, 1000)]), 0.2);
    let mut buf = vec![0f32; 10 * CHANS];
    mix.next_buffer(&mut buf);
    // A.remaining = 0.1s <= 0.2s -> preload B. Frame 0: t=0 -> 1.0.
    assert!(near(buf[0], 1.0));
    // Frame 9 (samples 18/19): t=0.45 -> 0.55*A + 0.45*B = 0.55 + 0.90 = 1.45.
    assert!(near(buf[18], 1.45));
    assert!(near(buf[19], 1.45));
    // A exhausted -> promoted with tail(start_gain=0.5, remaining=10).

    // Tail ramp 0.5 -> 1.0 across the remaining 10 frames.
    mix.next_buffer(&mut buf);
    assert!(near(buf[0], 1.0)); // 2.0 * 0.5
    assert!(near(buf[18], 1.9)); // 2.0 * (0.5 + 0.5*0.9)
    assert!(near(buf[19], 1.9));

    // B at full gain.
    mix.next_buffer(&mut buf);
    assert!(near(buf[0], 2.0));
}

#[test]
fn skip_advances_to_the_next_track() {
    let mut mix = Player::new(tracks(&[(1.0, 1000), (2.0, 1000)]), 0.2);
    let mut buf = vec![0f32; 10 * CHANS];
    mix.next_buffer(&mut buf);
    assert!(near(buf[0], 1.0));

    mix.skip();
    mix.next_buffer(&mut buf);
    assert!(near(buf[0], 2.0));
    assert_eq!(mix.mixer.label(), "src(2)");
}

#[test]
fn skip_is_a_noop_with_nothing_next() {
    let mut mix = Player::new(tracks(&[(1.0, 10)]), 0.2);
    mix.skip();
    let mut buf = vec![0f32; 10 * CHANS];
    assert_eq!(mix.next_buffer(&mut buf), 20);
    assert!(near(buf[0], 1.0));
}

#[test]
fn fade_out_override_moves_the_preload_and_lengthens_the_fade() {
    // Global window is 0.2s (20 frames). Track A overrides fade_out to
    // 0.4s, so the next track is preloaded 0.4s early (not 0.2s) and the
    // overlap spans 40 frames. Buffers are 10 frames (0.1s).
    let mut mix = Player::new(
        vec![
            FakeSource::new(1.0, 1000, Some((None, Some(0.4)))),
            FakeSource::new(2.0, 1000, None),
        ],
        0.2,
    );
    let mut buf = vec![0f32; 10 * CHANS];
    // Buffers 1..=96: A has more than 0.4s left -> passthrough.
    for _ in 0..96 {
        mix.next_buffer(&mut buf);
        assert!(near(buf[0], 1.0));
    }
    // Buffer 97: A has 0.4s left -> preload, fade begins (t=0).
    mix.next_buffer(&mut buf);
    assert!(near(buf[0], 1.0));
    // Buffer 98: t=0.25 -> 0.75*A + 0.25*B = 1.25. (With the global 20
    // frame window this would already be t=0.5 -> 1.5.)
    mix.next_buffer(&mut buf);
    assert!(near(buf[0], 1.25));
    mix.next_buffer(&mut buf);
    assert!(near(buf[0], 1.5));
    mix.next_buffer(&mut buf);
    assert!(near(buf[0], 1.75));
    // Buffer 101: fade complete (40 frames), B at full gain.
    mix.next_buffer(&mut buf);
    assert!(near(buf[0], 2.0));
}

#[test]
fn incoming_fade_in_override_lengthens_the_fade_into_a_tail_ramp() {
    // Track B overrides fade_in to 0.4s while A keeps the global 0.2s
    // margin: the fade window is 40 frames but A only has 20 frames left
    // when it starts, so the remainder is finished by the tail ramp.
    let mut mix = Player::new(
        vec![
            FakeSource::new(1.0, 1000, None),
            FakeSource::new(2.0, 1000, Some((Some(0.4), None))),
        ],
        0.2,
    );
    let mut buf = vec![0f32; 10 * CHANS];
    for _ in 0..98 {
        mix.next_buffer(&mut buf);
    }
    // Buffer 99: A has 0.2s left -> preload, fade begins (t=0).
    mix.next_buffer(&mut buf);
    assert!(near(buf[0], 1.0));
    // Buffer 100: t=0.25 -> 1.25 (40-frame window; a 20-frame window
    // would give 1.5). A exhausts here -> promoted mid-fade.
    mix.next_buffer(&mut buf);
    assert!(near(buf[0], 1.25));
    // Buffer 101: tail ramp starts at gain 0.5 (t=0.5 when promoted).
    mix.next_buffer(&mut buf);
    assert!(near(buf[0], 1.0));
    // Tail finished, B at full gain.
    mix.next_buffer(&mut buf);
    mix.next_buffer(&mut buf);
    assert!(near(buf[0], 2.0));
}

#[test]
fn loud_tail_gets_the_full_smart_crossfade_window() {
    // Track A is loud (0 dBFS): the tail measurement picks the full
    // `fade_out` window (0.4s = 40 frames at RATE 100), not `fade_mid`.
    let mut mix = Player::new(tracks(&[(1.0, 1000), (2.0, 1000)]), 0.2);
    mix.smart = Some(SmartFade { fade_out: 0.4, fade_mid: 0.1, threshold_db: -30.0 });

    let mut buf = vec![0f32; 10 * CHANS];
    // Buffers 1..=96: A has more than 0.4s left -> passthrough.
    for _ in 0..96 {
        mix.next_buffer(&mut buf);
        assert!(near(buf[0], 1.0));
    }
    // Buffer 97: A has 0.4s left -> preload, fade begins (t=0). The
    // loud tail picked the full 40-frame window, so the ramp matches
    // the explicit fade_out=0.4 override case exactly.
    mix.next_buffer(&mut buf);
    assert!(near(buf[0], 1.0));
    mix.next_buffer(&mut buf);
    assert!(near(buf[0], 1.25));
    mix.next_buffer(&mut buf);
    assert!(near(buf[0], 1.5));
    mix.next_buffer(&mut buf);
    assert!(near(buf[0], 1.75));
    // Buffer 101: fade complete (40 frames), B at full gain.
    mix.next_buffer(&mut buf);
    assert!(near(buf[0], 2.0));
}

#[test]
fn quiet_tail_shortens_to_the_smart_fade_mid_window() {
    // Track A is quiet (-40 dBFS): the fade window collapses to
    // `fade_mid` (0.1s = 10 frames) even though the preload margin
    // stays at `fade_out` (0.4s), so the transition is done a full
    // buffer earlier than a loud tail would give.
    let mut mix = Player::new(tracks(&[(0.01, 1000), (2.0, 1000)]), 0.2);
    mix.smart = Some(SmartFade { fade_out: 0.4, fade_mid: 0.1, threshold_db: -30.0 });

    let mut buf = vec![0f32; 10 * CHANS];
    for _ in 0..96 {
        mix.next_buffer(&mut buf);
        assert!(near(buf[0], 0.01));
    }
    // Buffer 97: preload fires at the 0.4s margin, but the quiet tail
    // means the fade spans only 10 frames: t ramps 0 -> 1 in this one
    // buffer.
    mix.next_buffer(&mut buf);
    assert!(near(buf[0], 0.01)); // t=0: A only
    assert!((buf[18] - 1.801).abs() < 1e-4); // t=0.9: 0.1*A + 0.9*B
    // Buffer 98: fade complete -> B at full gain (a loud tail would
    // still be at t=0.25 -> 0.25*0.01 + 0.75*2.0 = 1.5025 here).
    mix.next_buffer(&mut buf);
    assert!(near(buf[0], 2.0));
}

#[test]
fn partial_final_buffer_of_a_does_not_repeat_stale_audio() {
    // A is 15 frames: buffer 1 pulls a full 10, buffer 2 pulls the
    // partial 5-frame tail while B fills the whole 10-frame buffer.
    // Without the stale-tail guard, the fade would mix A's previous
    // buffer into frames 5..10 as a repeat.
    let mut mix = Player::new(tracks(&[(1.0, 15), (2.0, 1000)]), 0.2);
    let mut buf = vec![0f32; 10 * CHANS];
    // Buffer 1: preload fires (A has 0.15s <= 0.2s), fade t=0..0.5.
    mix.next_buffer(&mut buf);
    assert!(near(buf[0], 1.0));
    assert!(near(buf[18], 1.45)); // t=0.45: 0.55 + 0.90

    // Buffer 2: n_a = 5, n_b = 10, out_len = 10. Frames 5..9 must be
    // B's fade-in only (2.0 * gain_b) — a stale repeat of A would add
    // (1 - gain_b) * 1.0, e.g. frame 5: 0.25 + 1.5 = 1.75 instead of 1.5.
    mix.next_buffer(&mut buf);
    assert!(near(buf[0], 1.5)); // frame 0: t=0.5
    assert!(near(buf[8], 1.7)); // frame 4: t=0.7, A still live
    assert!(near(buf[10], 1.5)); // frame 5: t=0.75 -> B only
    assert!(near(buf[19], 1.9)); // frame 9: t=0.95 -> B only

    // A exhausted, fade complete (20 frames) -> B at full gain.
    mix.next_buffer(&mut buf);
    assert!(near(buf[0], 2.0));
}

#[test]
fn a_track_without_audio_is_passed_over() {
    let mut mix = Player::new(tracks(&[(1.0, 0), (2.0, 1000)]), 0.2);
    let mut buf = vec![0f32; 10 * CHANS];
    assert_eq!(mix.next_buffer(&mut buf), 20);
    let mut mix = Player::new(tracks(&[]), 0.2);
    assert!(mix.mixer.is_exhausted(true, None, false));
    assert!(!mix.mixer.is_exhausted(true, None, true));
    assert_eq!(mix.next_buffer(&mut buf), 0);
}

/// The sources of the duck: the playlist is a constant or a [`Player`].
struct Duck {
    mixer: PriorityMixer,
    main: Player,
    live: Option<FakeSource>,
    gain: f64,
    step: f64,
    queue: Vec<(MixCommand, Option<FakeSource>)>,
    scratch_m: Vec<f32>,
    scratch_o: Vec<f32>,
}

impl Duck {
    fn new(main: Player, duck_seconds: f64) -> Self {
        Self {
            mixer: PriorityMixer::new(),
            main,
            live: None,
            gain: 0.0,
            step: 1.0 / (duck_seconds * RATE as f64).max(1.0),
            queue: Vec::new(),
            scratch_m: Vec::new(),
            scratch_o: Vec::new(),
        }
    }

    fn level(&self) -> GainLevel {
        if self.gain <= 0.0 {
            GainLevel::Zero
        } else if self.gain >= 1.0 {
            GainLevel::Full
        } else if self.gain > 0.5 {
            GainLevel::High
        } else {
            GainLevel::Low
        }
    }

    fn next_buffer(&mut self, buffer: &mut [f32]) -> usize {
        for (c, src) in std::mem::take(&mut self.queue) {
            match self.mixer.on_command(&c) {
                CommandStep::Done => {}
                CommandStep::TakeLive => self.live = src,
                CommandStep::OpenJingle => self.mixer.on_jingle_open(),
                CommandStep::SkipTrack => self.main.skip(),
            }
        }
        if self.mixer.is_shutdown() {
            return 0;
        }
        self.scratch_m.resize(buffer.len(), 0.0);
        self.scratch_o.resize(buffer.len(), 0.0);
        let n_m = self.main.next_buffer(&mut self.scratch_m);
        let (n_o, ended) = match (self.mixer.overriding(), self.live.as_mut()) {
            (Override::Live, Some(l)) => {
                let n = l.next_buffer(&mut self.scratch_o);
                (n, l.is_exhausted())
            }
            _ => (0, false),
        };
        self.mixer.on_override(n_o, ended);
        let out = n_m.max(n_o);
        silence_rest(&mut self.scratch_m, n_m, out, 0.0);
        silence_rest(&mut self.scratch_o, n_o, out, 0.0);
        for (i, o) in buffer.iter_mut().take(out).enumerate() {
            *o = (self.scratch_m[i] as f64 * (1.0 - self.gain)
                + self.scratch_o[i] as f64 * self.gain) as f32;
        }
        let step = self.step * (out / CHANS) as f64;
        match self.mixer.gain_move() {
            GainMove::Hold => {}
            GainMove::Rise => self.gain = (self.gain + step).min(1.0),
            GainMove::Fall => self.gain = (self.gain - step).max(0.0),
        }
        let level = self.level();
        if self.mixer.on_gain(level) {
            self.live = None;
        }
        out
    }
}

#[test]
fn priority_mixer_fades_dj_in_and_out() {
    let mut pm = Duck::new(Player::new(tracks(&[(1.0, 100_000)]), 0.1), 0.1);

    // Main only.
    let mut buf = vec![0f32; 10 * CHANS];
    pm.next_buffer(&mut buf);
    assert!(near(buf[0], 1.0));

    // DJ connects (value 3.0).
    pm.queue.push((MixCommand::SetLive, Some(FakeSource::new(3.0, 100_000, None))));

    // duck_seconds=0.1 -> duck_frames=10, one buffer is 10 frames.
    // The gain is stepped *after* mixing, so the first buffer after the
    // command still mixes at gain 0 (playlist), then full takeover.
    pm.next_buffer(&mut buf);
    assert!(near(buf[0], 1.0));
    pm.next_buffer(&mut buf);
    assert!(near(buf[0], 3.0));
    assert_eq!(pm.mixer.label_source(), Override::Live);

    // DJ disconnects: the buffer after ClearLive still mixes at gain 1.0
    // (pre-step), then the gain drops to 0 and the playlist returns.
    pm.queue.push((MixCommand::ClearLive, None));
    pm.next_buffer(&mut buf);
    assert!(near(buf[0], 3.0));
    pm.next_buffer(&mut buf);
    assert!(near(buf[0], 1.0));
    assert_eq!(pm.mixer.label_source(), Override::Nothing);
}

#[test]
fn priority_mixer_forwards_skip_to_the_crossfade() {
    let mut pm = Duck::new(Player::new(tracks(&[(1.0, 1000), (2.0, 1000)]), 0.2), 1.0);
    let mut buf = vec![0f32; 10 * CHANS];
    pm.next_buffer(&mut buf);
    assert!(near(buf[0], 1.0));

    pm.queue.push((MixCommand::Skip, None));
    pm.next_buffer(&mut buf);
    assert!(near(buf[0], 2.0));
}

#[test]
fn partial_final_buffer_of_override_does_not_repeat_stale_audio() {
    // The DJ override is 15 frames: full buffer, then a 5-frame tail at
    // full duck gain. Without the stale-tail guard, the tail's second
    // half would repeat the override's first buffer at volume 3.0.
    // duck_frames = 10 -> gain reaches 1.0 in one buffer
    let mut pm = Duck::new(Player::new(tracks(&[(1.0, 100_000)]), 0.2), 0.1);
    pm.queue.push((MixCommand::SetLive, Some(FakeSource::new(3.0, 15, None))));

    let mut buf = vec![0f32; 10 * CHANS];
    // Buffer 1: gain 0 (stepped after mixing) -> main.
    pm.next_buffer(&mut buf);
    assert!(near(buf[0], 1.0));
    // Buffer 2: gain 1.0; override pulls only 5 frames. Frames 5..9
    // must be silent (main ducked, override gone) — without the guard
    // they would repeat the override at 3.0.
    pm.next_buffer(&mut buf);
    assert!(near(buf[0], 3.0));
    assert!(near(buf[9], 3.0));
    assert!(near(buf[10], 0.0));
    assert!(near(buf[19], 0.0));
    // Buffer 3: override ended, gain falls back -> main returns.
    pm.next_buffer(&mut buf);
    assert!(near(buf[0], 1.0));
}

#[test]
fn shutdown_ends_the_stream() {
    let mut pm = Duck::new(Player::new(tracks(&[(1.0, 100_000)]), 0.2), 1.0);
    let mut buf = vec![0f32; 10 * CHANS];
    assert_eq!(pm.next_buffer(&mut buf), 20);

    pm.queue.push((MixCommand::Shutdown, None));
    assert_eq!(pm.next_buffer(&mut buf), 0);
    assert!(pm.mixer.is_exhausted(false));
    assert!(pm.mixer.is_shutdown());
}

#[test]
fn a_dj_wins_over_jingles() {
    let mut m = PriorityMixer::new();
    assert_eq!(m.on_command(&MixCommand::PlayJingle("j.mp3".into())), CommandStep::OpenJingle);
    m.on_jingle_open();
    assert_eq!(m.overriding(), Override::Jingle);
    assert_eq!(m.on_command(&MixCommand::SetLive), CommandStep::TakeLive);
    assert_eq!(m.overriding(), Override::Live);
    assert_eq!(m.on_command(&MixCommand::PlayJingle("j.mp3".into())), CommandStep::Done);
    // The gain waits for the first audio.
    assert_eq!(m.gain_move(), GainMove::Hold);
    m.on_override(20, false);
    assert_eq!(m.gain_move(), GainMove::Rise);
}

#[test]
fn level_windows_drop_what_is_old() {
    let mut w = LevelWindow::new();
    assert_eq!(w.push(20, 50), 0);
    assert_eq!(w.push(20, 50), 0);
    assert_eq!(w.push(20, 50), 1);
    assert_eq!(w.samples(), 40);
    w.clear();
    assert_eq!(w.samples(), 0);
    assert_eq!(w.push(60, 50), 1);
    assert_eq!(w.samples(), 0);
}

#[test]
fn pools_recycle_buffers() {
    assert_eq!(pool_size(2), 2 * TAP_BOUND + 2);
    let mut p = FramePool::new(8, 2, 0u8);
    let a = p.pop().unwrap();
    assert_eq!(a, vec![0; 8]);
    p.pop().unwrap();
    assert!(p.pop().is_none());
    p.recycle(vec![1; 8]);
    assert_eq!(p.pop().unwrap(), vec![1; 8]);
}

#[test]
fn the_tap_runs_in_real_time() {
    let mut c = TapClock::new(100, 2);
    assert_eq!(c.wait_us(0), 0);
    assert_eq!(c.on_pull(20, false, Some("a")), PullOutcome::Publish);
    // Ten frames at a hundred per second take a tenth of one.
    assert_eq!(c.wait_us(40_000), 60_000);
    assert_eq!(c.wait_us(200_000), 0);
    assert_eq!(c.label(), Some("a"));
    assert_eq!(c.on_pull(0, false, None), PullOutcome::Wait);
    assert_eq!(c.on_pull(0, true, None), PullOutcome::End);
}
