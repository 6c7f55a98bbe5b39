//! The MP4 recording: what is handed to the container, and in which order.

use vstd::prelude::*;
use crate::flv::{annexb_units, avcc_nalus, avcdcr, config_record, length_prefixed};
use crate::flv::{parameter_sets, parameter_sets_of};
use crate::hls::CLOCK;
use crate::picture::{ready, take_ready, unit_views, waiting, AccessUnit, UnitView};
use crate::rtmp::byte_views;

verus! {

/// One thing that is done to the container.
pub enum ActionView {
    Extradata(Seq<u8>),
    NoExtradata,
    Header,
    Audio { pts: i64, data: Seq<u8> },
    Video { pts_90k: u64, key: bool, data: Seq<u8> },
    Trailer,
}

/// One thing that is done to the container.
#[derive(Debug)]
pub enum Mp4Action {
    /// Give the video stream its decoder configuration.
    Extradata(Vec<u8>),
    /// Warn that the video stream has none.
    NoExtradata,
    /// Write the header.
    Header,
    /// Write an access unit of audio, timed in samples.
    Audio { pts: i64, data: Vec<u8> },
    /// Write a picture, timed on the 90 kHz clock.
    Video { pts_90k: u64, key: bool, data: Vec<u8> },
    /// Write the trailer.
    Trailer,
}

impl View for Mp4Action {
    type V = ActionView;

    open spec fn view(&self) -> ActionView {
        match self {
            Mp4Action::Extradata(d) => ActionView::Extradata(d@),
            Mp4Action::NoExtradata => ActionView::NoExtradata,
            Mp4Action::Header => ActionView::Header,
            Mp4Action::Audio { pts, data } => ActionView::Audio { pts: *pts, data: data@ },
            Mp4Action::Video { pts_90k, key, data } => ActionView::Video {
                pts_90k: *pts_90k,
                key: *key,
                data: data@,
            },
            Mp4Action::Trailer => ActionView::Trailer,
        }
    }
}

/// The views of the actions.
pub open spec fn action_views(v: Seq<Mp4Action>) -> Seq<ActionView> {
    Seq::new(v.len(), |i: int| v[i]@)
}

/// The state of the recording.
pub struct Mp4State {
    pub has_video: bool,
    pub started: bool,
    /// Access units of audio that wait for the header, as actions.
    pub parked: Seq<ActionView>,
    /// Access units of audio so far.
    pub audio_frames: nat,
    pub frame_size: nat,
    pub rate: nat,
    /// Pictures that wait for the audio.
    pub pending: Seq<UnitView>,
    /// Pictures encoded so far.
    pub pictures: nat,
    pub keyframe_every: nat,
}

/// The view of optional bytes.
pub open spec fn opt_bytes(v: Option<Vec<u8>>) -> Option<Seq<u8>> {
    match v {
        Some(b) => Some(b@),
        None => None,
    }
}

/// The header goes out, then the audio that waited for it.
pub open spec fn started(s: Mp4State, config: Option<Seq<u8>>) -> (Mp4State, Seq<ActionView>) {
    (
        Mp4State { started: true, parked: Seq::empty(), ..s },
        (if s.has_video {
            match config {
                Some(c) => seq![ActionView::Extradata(c)],
                None => seq![ActionView::NoExtradata],
            }
        } else {
            Seq::empty()
        }).push(ActionView::Header) + s.parked,
    )
}

/// An access unit of audio at its time.
pub open spec fn audio_action(s: Mp4State, data: Seq<u8>) -> ActionView {
    ActionView::Audio { pts: (s.audio_frames * s.frame_size) as i64, data }
}

/// The state after an access unit: while the header waits for a picture, it
/// waits too.
pub open spec fn with_audio(s: Mp4State, data: Seq<u8>) -> (Mp4State, Seq<ActionView>) {
    let a = audio_action(s, data);
    let counted = Mp4State { audio_frames: s.audio_frames + 1, ..s };
    if s.started {
        (counted, seq![a])
    } else if s.has_video {
        (Mp4State { parked: s.parked.push(a), ..counted }, Seq::empty())
    } else {
        let (t, actions) = started(counted, None);
        (t, actions.push(a))
    }
}

/// The state after access units.
pub open spec fn with_audio_all(s: Mp4State, units: Seq<Seq<u8>>) -> (Mp4State, Seq<ActionView>)
    decreases units.len(),
{
    if units.len() == 0 {
        (s, Seq::empty())
    } else {
        let (t, actions) = with_audio_all(s, units.drop_last());
        let (u, more) = with_audio(t, units.last());
        (u, actions + more)
    }
}

/// The decoder configuration in a picture.
pub open spec fn picture_config(u: UnitView) -> Option<Seq<u8>> {
    match parameter_sets_of(u.data) {
        Some((sps, pps)) => Some(config_record(sps, pps)),
        None => None,
    }
}

/// The state after a picture: the first one brings the decoder configuration
/// and lets the header out.
pub open spec fn with_picture(s: Mp4State, u: UnitView) -> (Mp4State, Seq<ActionView>) {
    let v = ActionView::Video {
        pts_90k: u.pts_90k,
        key: u.idr,
        data: length_prefixed(annexb_units(u.data)),
    };
    if !s.has_video {
        (s, Seq::empty())
    } else if s.started {
        (s, seq![v])
    } else {
        let (t, actions) = started(s, picture_config(u));
        (t, actions.push(v))
    }
}

/// The state after pictures.
pub open spec fn with_pictures(s: Mp4State, units: Seq<UnitView>) -> (Mp4State, Seq<ActionView>)
    decreases units.len(),
{
    if units.len() == 0 {
        (s, Seq::empty())
    } else {
        let (t, actions) = with_pictures(s, units.drop_last());
        let (u, more) = with_picture(t, units.last());
        (u, actions + more)
    }
}

/// The time of the audio so far on the 90 kHz clock.
pub open spec fn audio_clock(s: Mp4State) -> nat {
    s.audio_frames * s.frame_size * (CLOCK as nat) / s.rate
}

/// The recording behind more access units, and what is done: after the audio
/// every picture that it has reached.
pub open spec fn pushed(s: Mp4State, units: Seq<Seq<u8>>) -> (Mp4State, Seq<ActionView>) {
    let (a, audio) = with_audio_all(s, units);
    let limit = audio_clock(a) as u64;
    let (t, video) = with_pictures(
        Mp4State { pending: waiting(a.pending, limit), ..a },
        ready(a.pending, limit),
    );
    (t, audio + video)
}

/// The recording at its end, and what is done: every picture that still waits,
/// the header where it has not gone out, the last audio, and the trailer.
pub open spec fn finished(s: Mp4State, units: Seq<Seq<u8>>) -> (Mp4State, Seq<ActionView>) {
    let (p, video) = with_pictures(Mp4State { pending: Seq::empty(), ..s }, s.pending);
    let (t, head) = if p.started {
        (p, Seq::empty())
    } else {
        started(p, None)
    };
    let (u, audio) = with_audio_all(t, units);
    (u, (video + head + audio).push(ActionView::Trailer))
}

/// The next picture is forced to be one that decoding can start at.
pub open spec fn key_due(pictures: nat, every: nat) -> bool {
    pictures > 0 && pictures % every == 0
}

/// The clock has room for `n` more access units.
pub open spec fn mp4_room(s: Mp4State, n: nat) -> bool {
    (s.audio_frames + n) * s.frame_size * (CLOCK as nat) <= u64::MAX
}

/// The parameter sets of a picture, where it has them, fit into a decoder
/// configuration.
pub open spec fn usable_picture(u: UnitView) -> bool {
    parameter_sets_of(u.data) matches Some((sps, pps)) ==> sps.len() >= 4
}

/// Whether a picture can be recorded.
pub fn picture_is_usable(u: &AccessUnit) -> (b: bool)
    ensures
        b == usable_picture(u@),
{
    match parameter_sets(u.data.as_slice()) {
        None => true,
        Some((sps, _)) => sps.len() >= 4,
    }
}

/// Decides what is handed to the container.
pub struct Mp4Muxer {
    has_video: bool,
    started: bool,
    parked: Vec<Mp4Action>,
    audio_frames: u64,
    frame_size: u64,
    sample_rate: u64,
    pending: Vec<AccessUnit>,
    pictures: u64,
    keyframe_every: u64,
}

impl View for Mp4Muxer {
    type V = Mp4State;

    closed spec fn view(&self) -> Mp4State {
        Mp4State {
            has_video: self.has_video,
            started: self.started,
            parked: action_views(self.parked@),
            audio_frames: self.audio_frames as nat,
            frame_size: self.frame_size as nat,
            rate: self.sample_rate as nat,
            pending: unit_views(self.pending@),
            pictures: self.pictures as nat,
            keyframe_every: self.keyframe_every as nat,
        }
    }
}

/// The state at the start of a recording.
pub open spec fn mp4_start(has_video: bool, frame_size: usize, rate: u32, keyframe_every: u64) -> Mp4State {
    Mp4State {
        has_video,
        started: false,
        parked: Seq::empty(),
        audio_frames: 0,
        frame_size: frame_size as nat,
        rate: rate as nat,
        pending: Seq::empty(),
        pictures: 0,
        keyframe_every: keyframe_every as nat,
    }
}

impl Mp4Muxer {
    /// The clocks run, and every waiting picture can be recorded.
    pub open spec fn wf(&self) -> bool {
        &&& self@.rate > 0
        &&& self@.keyframe_every > 0
        &&& mp4_room(self@, 0)
        &&& forall|i: int|
            0 <= i < self@.pending.len() ==> usable_picture(#[trigger] self@.pending[i])
    }

    /// A new recording, and what is done at once: without pictures nothing
    /// stands in the way of the header.
    pub fn open(has_video: bool, frame_size: usize, sample_rate: u32, keyframe_every: u64) -> (r: (
        Mp4Muxer,
        Vec<Mp4Action>,
    ))
        requires
            sample_rate > 0,
            keyframe_every > 0,
        ensures
            r.0.wf(),
            ({
                let s = mp4_start(has_video, frame_size, sample_rate, keyframe_every);
                let (t, actions) = if has_video {
                    (s, Seq::empty())
                } else {
                    started(s, None)
                };
                &&& r.0@ == t
                &&& action_views(r.1@) == actions
            }),
    {
        let parked: Vec<Mp4Action> = Vec::new();
        let pending: Vec<AccessUnit> = Vec::new();
        assert(action_views(parked@) =~= Seq::<ActionView>::empty());
        assert(unit_views(pending@) =~= Seq::<UnitView>::empty());
        let mut m = Mp4Muxer {
            has_video,
            started: false,
            parked,
            audio_frames: 0,
            frame_size: frame_size as u64,
            sample_rate: sample_rate as u64,
            pending,
            pictures: 0,
            keyframe_every,
        };
        proof {
            assert(0 * m@.frame_size * (CLOCK as nat) == 0) by (nonlinear_arith);
        }
        let mut out: Vec<Mp4Action> = Vec::new();
        assert(action_views(out@) =~= Seq::<ActionView>::empty());
        if !has_video {
            m.start_header(None, &mut out);
            assert(action_views(out@) =~= started(
                mp4_start(has_video, frame_size, sample_rate, keyframe_every),
                None,
            ).1);
        }
        (m, out)
    }

    /// Access units of audio so far.
    pub fn audio_frames(&self) -> (n: u64)
        ensures
            n == self@.audio_frames,
    {
        self.audio_frames
    }

    /// Whether the clock has room for `n` more access units.
    pub fn has_room(&self, n: usize) -> (b: bool)
        requires
            self.wf(),
        ensures
            b == (mp4_room(self@, n as nat) && self@.audio_frames + n <= u64::MAX),
    {
        let total: u128 = self.audio_frames as u128 + n as u128;
        if total > u64::MAX as u128 {
            return false;
        }
        proof {
            assert(0 <= total * self.frame_size <= 0xffff_ffff_ffff_ffff * 0xffff_ffff_ffff_ffff)
                by (nonlinear_arith)
                requires
                    total <= 0xffff_ffff_ffff_ffff,
                    self.frame_size <= 0xffff_ffff_ffff_ffff,
            ;
        }
        let samples: u128 = total * (self.frame_size as u128);
        assert(samples == (self@.audio_frames + n as nat) * self@.frame_size);
        let limit: u128 = u64::MAX as u128 / CLOCK as u128;
        assert(limit == 0xffff_ffff_ffff_ffffint / 90_000);
        samples <= limit
    }

    fn start_header(&mut self, config: Option<Vec<u8>>, out: &mut Vec<Mp4Action>)
        ensures
            final(self)@ == started(old(self)@, opt_bytes(config)).0,
            action_views(final(out)@) == action_views(old(out)@) + started(
                old(self)@,
                opt_bytes(config),
            ).1,
    {
        let ghost before = action_views(out@);
        let ghost parked0 = action_views(self.parked@);
        let ghost actions = started(self@, opt_bytes(config)).1;
        if self.has_video {
            match config {
                Some(c) => out.push(Mp4Action::Extradata(c)),
                None => out.push(Mp4Action::NoExtradata),
            }
        }
        out.push(Mp4Action::Header);
        self.started = true;
        let mut parked: Vec<Mp4Action> = Vec::new();
        std::mem::swap(&mut parked, &mut self.parked);
        assert(action_views(self.parked@) =~= Seq::<ActionView>::empty());
        let ghost head = action_views(out@);
        out.append(&mut parked);
        proof {
            assert(action_views(out@) =~= head + parked0);
            assert(action_views(out@) =~= before + actions);
        }
    }

    fn write_audio(&mut self, data: &Vec<u8>, out: &mut Vec<Mp4Action>)
        requires
            old(self).wf(),
            mp4_room(old(self)@, 1),
            old(self)@.audio_frames < u64::MAX,
        ensures
            final(self).wf(),
            final(self)@ == with_audio(old(self)@, data@).0,
            action_views(final(out)@) == action_views(old(out)@) + with_audio(old(self)@, data@).1,
    {
        let ghost s0 = self@;
        proof {
            lemma_pts_fits(s0);
        }
        let pts: i64 = (self.audio_frames * self.frame_size) as i64;
        let mut copy: Vec<u8> = Vec::new();
        crate::bytes::append(&mut copy, data.as_slice());
        assert(copy@ =~= data@);
        let a = Mp4Action::Audio { pts, data: copy };
        let ghost av = a@;
        assert(av == audio_action(s0, data@));
        self.audio_frames = self.audio_frames + 1;
        let ghost before = action_views(out@);
        if self.started {
            out.push(a);
            assert(action_views(out@) =~= before + seq![av]);
        } else if self.has_video {
            let ghost p0 = action_views(self.parked@);
            self.parked.push(a);
            assert(action_views(self.parked@) =~= p0.push(av));
            assert(action_views(out@) =~= before + Seq::<ActionView>::empty());
        } else {
            let ghost counted = self@;
            self.start_header(None, out);
            let ghost mid = action_views(out@);
            out.push(a);
            assert(action_views(out@) =~= mid.push(av));
            assert(action_views(out@) =~= before + started(counted, None).1.push(av));
        }
        proof {
            lemma_room_shrinks(s0, self@, 1, 0);
            assert(self@.pending == s0.pending);
        }
    }

    fn write_video(&mut self, u: &AccessUnit, out: &mut Vec<Mp4Action>)
        requires
            old(self).wf(),
            usable_picture(u@),
        ensures
            final(self).wf(),
            final(self)@ == with_picture(old(self)@, u@).0,
            action_views(final(out)@) == action_views(old(out)@) + with_picture(old(self)@, u@).1,
    {
        let ghost before = action_views(out@);
        let ghost s0 = self@;
        if !self.has_video {
            assert(action_views(out@) =~= before + Seq::<ActionView>::empty());
            return;
        }
        let v = Mp4Action::Video {
            pts_90k: u.pts_90k,
            key: u.idr,
            data: avcc_nalus(u.data.as_slice()),
        };
        let ghost vv = v@;
        if self.started {
            out.push(v);
            assert(action_views(out@) =~= before + seq![vv]);
            return;
        }
        let config = match parameter_sets(u.data.as_slice()) {
            Some((sps, pps)) => Some(avcdcr(sps.as_slice(), pps.as_slice())),
            None => None,
        };
        self.start_header(config, out);
        let ghost mid = action_views(out@);
        out.push(v);
        proof {
            assert(action_views(out@) =~= mid.push(vv));
            assert(action_views(out@) =~= before + started(s0, picture_config(u@)).1.push(vv));
        }
    }

    /// Whether the next picture is forced to be one that decoding can start
    /// at; it is counted.
    pub fn next_picture_is_key(&mut self) -> (key: bool)
        requires
            old(self).wf(),
            old(self)@.pictures < u64::MAX,
        ensures
            final(self).wf(),
            final(self)@ == (Mp4State { pictures: old(self)@.pictures + 1, ..old(self)@ }),
            key == key_due(old(self)@.pictures, old(self)@.keyframe_every),
    {
        let key = self.pictures > 0 && self.pictures % self.keyframe_every == 0;
        self.pictures = self.pictures + 1;
        key
    }

    /// A picture waits until the audio has reached it.
    pub fn queue(&mut self, u: AccessUnit)
        requires
            old(self).wf(),
            usable_picture(u@),
        ensures
            final(self).wf(),
            final(self)@ == (Mp4State { pending: old(self)@.pending.push(u@), ..old(self)@ }),
    {
        let ghost before = unit_views(self.pending@);
        self.pending.push(u);
        proof {
            assert(unit_views(self.pending@) =~= before.push(u@));
            assert forall|i: int| 0 <= i < self@.pending.len() implies usable_picture(
                #[trigger] self@.pending[i],
            ) by {
                if i < before.len() {
                    assert(self@.pending[i] == old(self)@.pending[i]);
                }
            }
        }
    }

    fn write_pictures(&mut self, units: &Vec<AccessUnit>, out: &mut Vec<Mp4Action>)
        requires
            old(self).wf(),
            forall|i: int| 0 <= i < units@.len() ==> usable_picture(#[trigger] units@[i]@),
        ensures
            final(self).wf(),
            final(self)@ == with_pictures(old(self)@, unit_views(units@)).0,
            action_views(final(out)@) == action_views(old(out)@) + with_pictures(
                old(self)@,
                unit_views(units@),
            ).1,
    {
        let ghost all = unit_views(units@);
        let ghost before = action_views(out@);
        let ghost s0 = self@;
        let mut i: usize = 0;
        proof {
            assert(all.take(0) =~= Seq::<UnitView>::empty());
            assert(before + Seq::<ActionView>::empty() =~= before);
        }
        while i < units.len()
            invariant
                i <= units@.len(),
                all == unit_views(units@),
                self.wf(),
                forall|k: int| 0 <= k < units@.len() ==> usable_picture(#[trigger] units@[k]@),
                self@ == with_pictures(s0, all.take(i as int)).0,
                action_views(out@) == before + with_pictures(s0, all.take(i as int)).1,
            decreases units@.len() - i,
        {
            proof {
                assert(all.take(i as int + 1).drop_last() =~= all.take(i as int));
                assert(all.take(i as int + 1).last() == units@[i as int]@);
                assert(usable_picture(units@[i as int]@));
            }
            let ghost done = with_pictures(s0, all.take(i as int)).1;
            let ghost more = with_picture(self@, units@[i as int]@).1;
            self.write_video(&units[i], out);
            proof {
                assert(before + done + more =~= before + (done + more));
            }
            i = i + 1;
        }
        proof {
            assert(all.take(i as int) =~= all);
        }
    }

    fn write_audio_all(&mut self, units: &Vec<Vec<u8>>, out: &mut Vec<Mp4Action>)
        requires
            old(self).wf(),
            mp4_room(old(self)@, units@.len()),
            old(self)@.audio_frames + units@.len() <= u64::MAX,
        ensures
            final(self).wf(),
            final(self)@ == with_audio_all(old(self)@, byte_views(units@)).0,
            action_views(final(out)@) == action_views(old(out)@) + with_audio_all(
                old(self)@,
                byte_views(units@),
            ).1,
    {
        let ghost all = byte_views(units@);
        let ghost before = action_views(out@);
        let ghost s0 = self@;
        let mut i: usize = 0;
        proof {
            assert(all.take(0) =~= Seq::<Seq<u8>>::empty());
            assert(before + Seq::<ActionView>::empty() =~= before);
        }
        while i < units.len()
            invariant
                i <= units@.len(),
                all == byte_views(units@),
                self.wf(),
                mp4_room(s0, units@.len()),
                s0.audio_frames + units@.len() <= u64::MAX,
                self@.audio_frames == s0.audio_frames + i,
                self@.frame_size == s0.frame_size,
                self@ == with_audio_all(s0, all.take(i as int)).0,
                action_views(out@) == before + with_audio_all(s0, all.take(i as int)).1,
            decreases units@.len() - i,
        {
            proof {
                assert(all.take(i as int + 1).drop_last() =~= all.take(i as int));
                assert(all.take(i as int + 1).last() == units@[i as int]@);
                lemma_room_shrinks(s0, self@, units@.len(), 1);
            }
            let ghost done = with_audio_all(s0, all.take(i as int)).1;
            let ghost more = with_audio(self@, units@[i as int]@).1;
            self.write_audio(&units[i], out);
            proof {
                assert(before + done + more =~= before + (done + more));
            }
            i = i + 1;
        }
        proof {
            assert(all.take(i as int) =~= all);
        }
    }

    /// Access units of audio follow; then every picture that the audio has
    /// reached.
    pub fn push_audio(&mut self, units: &Vec<Vec<u8>>) -> (out: Vec<Mp4Action>)
        requires
            old(self).wf(),
            mp4_room(old(self)@, units@.len()),
            old(self)@.audio_frames + units@.len() <= u64::MAX,
        ensures
            final(self).wf(),
            (final(self)@, action_views(out@)) == pushed(old(self)@, byte_views(units@)),
    {
        let mut out: Vec<Mp4Action> = Vec::new();
        assert(action_views(out@) =~= Seq::<ActionView>::empty());
        let ghost s = with_audio_all(self@, byte_views(units@));
        self.write_audio_all(units, &mut out);
        assert(action_views(out@) =~= s.1);
        proof {
            assert(self@.audio_frames * self@.frame_size <= self@.audio_frames * self@.frame_size
                * (CLOCK as nat)) by (nonlinear_arith)
                requires
                    self@.audio_frames * self@.frame_size >= 0,
            ;
        }
        let limit: u64 = self.audio_frames * self.frame_size * CLOCK / self.sample_rate;
        let ghost p0 = self.pending@;
        let ghost s1 = self@;
        proof {
            assert forall|u: AccessUnit| p0.contains(u) implies usable_picture(#[trigger] u@) by {
                let k = choose|k: int| 0 <= k < p0.len() && p0[k] == u;
                assert(s1.pending[k] == u@);
            }
        }
        let units_now = take_ready(&mut self.pending, limit);
        proof {
            assert forall|k: int| 0 <= k < self@.pending.len() implies usable_picture(
                #[trigger] self@.pending[k],
            ) by {
                assert(p0.contains(self.pending@[k]));
            }
            assert forall|k: int| 0 <= k < units_now@.len() implies usable_picture(
                #[trigger] units_now@[k]@,
            ) by {
                assert(p0.contains(units_now@[k]));
            }
        }
        self.write_pictures(&units_now, &mut out);
        out
    }

    /// The recording ends: every picture that still waits goes out, then the
    /// header where it has not, the last access units of audio, and the
    /// trailer.
    pub fn finish(&mut self, units: &Vec<Vec<u8>>) -> (out: Vec<Mp4Action>)
        requires
            old(self).wf(),
            mp4_room(old(self)@, units@.len()),
            old(self)@.audio_frames + units@.len() <= u64::MAX,
        ensures
            final(self).wf(),
            (final(self)@, action_views(out@)) == finished(old(self)@, byte_views(units@)),
    {
        let mut out: Vec<Mp4Action> = Vec::new();
        assert(action_views(out@) =~= Seq::<ActionView>::empty());
        let ghost s0 = self@;
        let mut pending: Vec<AccessUnit> = Vec::new();
        std::mem::swap(&mut pending, &mut self.pending);
        proof {
            assert(unit_views(self.pending@) =~= Seq::<UnitView>::empty());
            assert forall|k: int| 0 <= k < pending@.len() implies usable_picture(
                #[trigger] pending@[k]@,
            ) by {
                assert(s0.pending[k] == pending@[k]@);
            }
        }
        self.write_pictures(&pending, &mut out);
        let ghost video = with_pictures(
            Mp4State { pending: Seq::empty(), ..s0 },
            unit_views(pending@),
        );
        proof {
            assert(action_views(out@) =~= video.1);
            lemma_pictures_keep_clock(
                Mp4State { pending: Seq::empty(), ..s0 },
                unit_views(pending@),
            );
        }
        let ghost mid = action_views(out@);
        let ghost s1 = self@;
        if !self.started {
            self.start_header(None, &mut out);
        }
        let ghost head = if s1.started {
            Seq::empty()
        } else {
            started(s1, None).1
        };
        assert(action_views(out@) =~= mid + head);
        let ghost third = action_views(out@);
        let ghost s2 = self@;
        self.write_audio_all(units, &mut out);
        let ghost audio = with_audio_all(s2, byte_views(units@)).1;
        let ghost fourth = action_views(out@);
        out.push(Mp4Action::Trailer);
        proof {
            assert(action_views(out@) =~= fourth.push(ActionView::Trailer));
        }
        out
    }
}

proof fn lemma_pts_fits(s: Mp4State)
    requires
        mp4_room(s, 1),
    ensures
        0 <= s.audio_frames * s.frame_size < 0x7fff_ffff_ffff_ffff,
{
    let p = s.audio_frames * s.frame_size;
    let q = (s.audio_frames + 1) * s.frame_size;
    assert(0 <= p <= q) by (nonlinear_arith)
        requires
            p == s.audio_frames * s.frame_size,
            q == (s.audio_frames + 1) * s.frame_size,
            s.audio_frames >= 0,
            s.frame_size >= 0,
    ;
    assert(q * 90_000 <= u64::MAX);
}

proof fn lemma_room_shrinks(s: Mp4State, t: Mp4State, n: nat, m: nat)
    requires
        mp4_room(s, n),
        t.frame_size == s.frame_size,
        t.audio_frames + m <= s.audio_frames + n,
    ensures
        mp4_room(t, m),
{
    let a = (t.audio_frames + m) * t.frame_size;
    let b = (s.audio_frames + n) * s.frame_size;
    assert(a <= b) by (nonlinear_arith)
        requires
            a == (t.audio_frames + m) * t.frame_size,
            b == (s.audio_frames + n) * s.frame_size,
            t.frame_size == s.frame_size,
            t.audio_frames + m <= s.audio_frames + n,
    ;
}

proof fn lemma_pictures_keep_clock(s: Mp4State, units: Seq<UnitView>)
    ensures
        ({
            let t = with_pictures(s, units).0;
            &&& t.audio_frames == s.audio_frames
            &&& t.frame_size == s.frame_size
            &&& t.rate == s.rate
            &&& t.pending == s.pending
            &&& t.keyframe_every == s.keyframe_every
        }),
    decreases units.len(),
{
    if units.len() > 0 {
        lemma_pictures_keep_clock(s, units.drop_last());
    }
}

// ---------------------------------------------------------------------------
// Laws
// ---------------------------------------------------------------------------

/// What holds of a recording at every step: once the header is out nothing is
/// parked, and without pictures nothing ever is.
pub open spec fn sound_recording(s: Mp4State) -> bool {
    &&& s.started ==> s.parked.len() == 0
    &&& !s.has_video ==> s.parked.len() == 0
}

/// The audio is complete and in order, though it may wait for the header: with
/// the parked units behind what was written, exactly the new one is added.
pub proof fn law_audio_is_kept(s: Mp4State, data: Seq<u8>)
    requires
        sound_recording(s),
    ensures
        ({
            let (t, actions) = with_audio(s, data);
            &&& sound_recording(t)
            &&& audio_part(actions) + t.parked == s.parked.push(audio_action(s, data))
            &&& t.audio_frames == s.audio_frames + 1
        }),
{
    let a = audio_action(s, data);
    let (t, actions) = with_audio(s, data);
    if s.started {
        lemma_audio_part_push(Seq::empty(), a);
        assert(seq![a] =~= Seq::<ActionView>::empty().push(a));
        assert(audio_part(actions) + t.parked =~= s.parked.push(a));
    } else if s.has_video {
        assert(audio_part(actions) + t.parked =~= s.parked.push(a));
    } else {
        let head = Seq::<ActionView>::empty().push(ActionView::Header);
        assert(s.parked =~= Seq::<ActionView>::empty());
        assert(actions =~= head.push(a));
        lemma_audio_part_push(head, a);
        lemma_audio_part_push(Seq::empty(), ActionView::Header);
        assert(audio_part(actions) + t.parked =~= s.parked.push(a));
    }
}

/// The audio among the actions.
pub open spec fn audio_part(actions: Seq<ActionView>) -> Seq<ActionView>
    decreases actions.len(),
{
    if actions.len() == 0 {
        Seq::empty()
    } else {
        let before = audio_part(actions.drop_last());
        if actions.last() is Audio {
            before.push(actions.last())
        } else {
            before
        }
    }
}

proof fn lemma_audio_part_push(actions: Seq<ActionView>, a: ActionView)
    ensures
        audio_part(actions.push(a)) == (if a is Audio {
            audio_part(actions).push(a)
        } else {
            audio_part(actions)
        }),
{
    assert(actions.push(a).drop_last() =~= actions);
}

/// The header goes out exactly once, and before any audio or picture.
pub proof fn law_header_comes_first(s: Mp4State, data: Seq<u8>, u: UnitView)
    requires
        sound_recording(s),
    ensures
        ({
            let (t, actions) = with_audio(s, data);
            &&& s.started ==> !actions.contains(ActionView::Header)
            &&& !s.started && t.started ==> actions.len() > 0 && actions[0] == ActionView::Header
            &&& !t.started ==> actions.len() == 0
        }),
        ({
            let (t, actions) = with_picture(s, u);
            &&& sound_recording(t)
            &&& s.started ==> !actions.contains(ActionView::Header)
            &&& s.has_video ==> t.started
            &&& !s.started && s.has_video ==> actions.len() > 1 && actions[1]
                == ActionView::Header
        }),
{
}

/// The pictures among the actions.
pub open spec fn video_part(actions: Seq<ActionView>) -> Seq<ActionView> {
    actions.filter(|a: ActionView| a is Video)
}

/// What a picture becomes in the container: its time, its mark and its units
/// behind their lengths.
pub open spec fn recorded(units: Seq<UnitView>) -> Seq<ActionView> {
    Seq::new(
        units.len(),
        |i: int|
            ActionView::Video {
                pts_90k: units[i].pts_90k,
                key: units[i].idr,
                data: length_prefixed(annexb_units(units[i].data)),
            },
    )
}

proof fn lemma_audio_part_add(a: Seq<ActionView>, b: Seq<ActionView>)
    ensures
        audio_part(a + b) == audio_part(a) + audio_part(b),
    decreases b.len(),
{
    if b.len() == 0 {
        assert(a + b =~= a);
        assert(audio_part(a) + audio_part(b) =~= audio_part(a));
    } else {
        lemma_audio_part_add(a, b.drop_last());
        assert((a + b).drop_last() =~= a + b.drop_last());
        assert((a + b).last() == b.last());
        let x = audio_part(a);
        let y = audio_part(b.drop_last());
        assert((x + y).push(b.last()) =~= x + y.push(b.last()));
    }
}

proof fn lemma_audio_alone(a: Seq<ActionView>)
    requires
        forall|i: int| 0 <= i < a.len() ==> (#[trigger] a[i]) is Audio,
    ensures
        audio_part(a) == a,
        video_part(a) == Seq::<ActionView>::empty(),
    decreases a.len(),
{
    reveal(Seq::filter);
    if a.len() > 0 {
        let f = a.drop_last();
        assert forall|i: int| 0 <= i < f.len() implies (#[trigger] f[i]) is Audio by {
            assert(a[i] is Audio);
        }
        lemma_audio_alone(f);
        assert(a[a.len() - 1] is Audio);
        assert(f.push(a.last()) =~= a);
    } else {
        assert(audio_part(a) =~= a);
        assert(video_part(a) =~= Seq::<ActionView>::empty());
    }
}

proof fn lemma_one_video(a: Seq<ActionView>, v: ActionView)
    ensures
        video_part(a.push(v)) == (if v is Video {
            video_part(a).push(v)
        } else {
            video_part(a)
        }),
{
    reveal(Seq::filter);
    assert(a.push(v).drop_last() =~= a);
}

/// Only audio is parked.
pub open spec fn parks_audio(s: Mp4State) -> bool {
    forall|i: int| 0 <= i < s.parked.len() ==> (#[trigger] s.parked[i]) is Audio
}

/// The header, what it needs before it, and the audio that waited: neither a
/// picture, nor any audio but the parked.
proof fn lemma_started(s: Mp4State, config: Option<Seq<u8>>)
    requires
        parks_audio(s),
    ensures
        audio_part(started(s, config).1) == s.parked,
        video_part(started(s, config).1) == Seq::<ActionView>::empty(),
{
    let (t, actions) = started(s, config);
    let e = Seq::<ActionView>::empty();
    let front = if s.has_video {
        match config {
            Some(c) => e.push(ActionView::Extradata(c)),
            None => e.push(ActionView::NoExtradata),
        }
    } else {
        e
    };
    let head = front.push(ActionView::Header);
    assert(actions =~= head + s.parked);
    lemma_audio_part_push(front, ActionView::Header);
    lemma_one_video(front, ActionView::Header);
    lemma_audio_alone(e);
    match config {
        Some(c) => {
            lemma_audio_part_push(e, ActionView::Extradata(c));
            lemma_one_video(e, ActionView::Extradata(c));
        },
        None => {
            lemma_audio_part_push(e, ActionView::NoExtradata);
            lemma_one_video(e, ActionView::NoExtradata);
        },
    }
    lemma_audio_part_add(head, s.parked);
    lemma_audio_alone(s.parked);
    Seq::filter_distributes_over_add(head, s.parked, |a: ActionView| a is Video);
    assert(e + s.parked =~= s.parked);
    assert(e + e =~= e);
}

/// What stands in two runs of actions.
proof fn lemma_parts_add(a: Seq<ActionView>, b: Seq<ActionView>)
    ensures
        audio_part(a + b) == audio_part(a) + audio_part(b),
        video_part(a + b) == video_part(a) + video_part(b),
{
    lemma_audio_part_add(a, b);
    Seq::filter_distributes_over_add(a, b, |x: ActionView| x is Video);
}

proof fn lemma_with_picture(t: Mp4State, u: UnitView)
    requires
        sound_recording(t),
        parks_audio(t),
        t.has_video,
    ensures
        ({
            let (w, more) = with_picture(t, u);
            &&& video_part(more) == recorded(seq![u])
            &&& audio_part(more) + w.parked == t.parked
            &&& sound_recording(w) && parks_audio(w) && w.has_video && w.started
            &&& w.pending == t.pending && w.audio_frames == t.audio_frames && w.frame_size
                == t.frame_size
        }),
{
    let e = Seq::<ActionView>::empty();
    let v = ActionView::Video {
        pts_90k: u.pts_90k,
        key: u.idr,
        data: length_prefixed(annexb_units(u.data)),
    };
    lemma_audio_alone(e);
    assert(recorded(seq![u]) =~= e.push(v));
    if t.started {
        assert(seq![v] =~= e.push(v));
        lemma_one_video(e, v);
        lemma_audio_part_push(e, v);
        assert(e + t.parked =~= t.parked);
    } else {
        let first = started(t, picture_config(u)).1;
        lemma_started(t, picture_config(u));
        lemma_one_video(first, v);
        lemma_audio_part_push(first, v);
        assert(t.parked + e =~= t.parked);
    }
}

proof fn lemma_with_pictures(s: Mp4State, units: Seq<UnitView>)
    requires
        sound_recording(s),
        parks_audio(s),
        s.has_video,
    ensures
        ({
            let (t, actions) = with_pictures(s, units);
            &&& video_part(actions) == recorded(units)
            &&& audio_part(actions) + t.parked == s.parked
            &&& sound_recording(t) && parks_audio(t) && t.has_video
            &&& t.started <==> s.started || units.len() > 0
            &&& t.pending == s.pending && t.audio_frames == s.audio_frames && t.frame_size
                == s.frame_size
        }),
    decreases units.len(),
{
    if units.len() == 0 {
        let e = Seq::<ActionView>::empty();
        lemma_audio_alone(e);
        assert(recorded(units) =~= e);
        assert(e + s.parked =~= s.parked);
    } else {
        let front = units.drop_last();
        lemma_with_pictures(s, front);
        let (t, actions) = with_pictures(s, front);
        lemma_with_picture(t, units.last());
        let (w, more) = with_picture(t, units.last());
        lemma_parts_add(actions, more);
        assert(recorded(front) + recorded(seq![units.last()]) =~= recorded(units));
        lemma_three(audio_part(actions), audio_part(more), w.parked);
    }
}

proof fn lemma_three(a: Seq<ActionView>, b: Seq<ActionView>, c: Seq<ActionView>)
    ensures
        a + b + c == a + (b + c),
{
    assert(a + b + c =~= a + (b + c));
}

proof fn lemma_with_audio(t: Mp4State, data: Seq<u8>)
    requires
        sound_recording(t),
        parks_audio(t),
    ensures
        ({
            let (u, more) = with_audio(t, data);
            &&& video_part(more) == Seq::<ActionView>::empty()
            &&& audio_part(more) + u.parked == t.parked.push(audio_action(t, data))
            &&& sound_recording(u) && parks_audio(u) && u.has_video == t.has_video
            &&& u.audio_frames == t.audio_frames + 1
            &&& u.frame_size == t.frame_size && u.pending == t.pending && u.rate == t.rate
            &&& t.started ==> u.started
        }),
{
    let e = Seq::<ActionView>::empty();
    let a = audio_action(t, data);
    let (u, more) = with_audio(t, data);
    law_audio_is_kept(t, data);
    lemma_audio_alone(e);
    if t.started {
        assert(more =~= e.push(a));
        lemma_one_video(e, a);
    } else if t.has_video {
    } else {
        let counted = Mp4State { audio_frames: t.audio_frames + 1, ..t };
        lemma_started(counted, None);
        lemma_one_video(started(counted, None).1, a);
    }
}

proof fn lemma_audio_run(s: Mp4State, units: Seq<Seq<u8>>)
    requires
        sound_recording(s),
        parks_audio(s),
    ensures
        sound_recording(with_audio_all(s, units).0),
        parks_audio(with_audio_all(s, units).0),
        with_audio_all(s, units).0.has_video == s.has_video,
        with_audio_all(s, units).0.audio_frames == s.audio_frames + units.len(),
        with_audio_all(s, units).0.frame_size == s.frame_size,
        with_audio_all(s, units).0.pending == s.pending,
        with_audio_all(s, units).0.rate == s.rate,
    decreases units.len(),
{
    if units.len() > 0 {
        let front = units.drop_last();
        lemma_audio_run(s, front);
        let t = with_audio_all(s, front).0;
        let data = units.last();
        assert(with_audio_all(s, units).0 == with_audio(t, data).0);
        lemma_with_audio(t, data);
    }
}

/// After more audio every picture that it has reached is written, in order and
/// as it came, behind the audio that waited for the header; the others wait.
pub proof fn law_pictures_are_recorded(s: Mp4State, units: Seq<Seq<u8>>)
    requires
        sound_recording(s),
        parks_audio(s),
        s.has_video,
    ensures
        ({
            let (a, audio) = with_audio_all(s, units);
            let (t, actions) = pushed(s, units);
            let video = actions.skip(audio.len() as int);
            let clock = ((s.audio_frames + units.len()) * s.frame_size * 90_000) / s.rate;
            &&& actions.take(audio.len() as int) == audio
            &&& video_part(video) == recorded(
                s.pending.filter(|u: UnitView| u.pts_90k <= clock as u64),
            )
            &&& audio_part(video) + t.parked == a.parked
            &&& t.pending == s.pending.filter(|u: UnitView| u.pts_90k > clock as u64)
            &&& t.audio_frames == s.audio_frames + units.len()
        }),
{
    lemma_audio_run(s, units);
    let (a, audio) = with_audio_all(s, units);
    let limit = audio_clock(a) as u64;
    let b = Mp4State { pending: waiting(a.pending, limit), ..a };
    lemma_with_pictures(b, ready(a.pending, limit));
    let video = with_pictures(b, ready(a.pending, limit)).1;
    crate::picture::law_pictures_keep_their_order(a.pending, limit);
    assert((audio + video).skip(audio.len() as int) =~= video);
    assert((audio + video).take(audio.len() as int) =~= audio);
}

/// At its end a recording writes every picture that still waited, in order,
/// and the audio that was parked; the last audio follows, and the trailer
/// closes it.
pub proof fn law_finished_recording_is_complete(s: Mp4State, units: Seq<Seq<u8>>)
    requires
        sound_recording(s),
        parks_audio(s),
        s.has_video,
    ensures
        exists|front: Seq<ActionView>, t: Mp4State|
            {
                &&& finished(s, units).1 == (front + #[trigger] with_audio_all(t, units).1).push(
                    ActionView::Trailer,
                )
                &&& #[trigger] video_part(front) == recorded(s.pending)
                &&& audio_part(front) == s.parked
                &&& t.started && t.parked.len() == 0 && t.pending.len() == 0
                &&& t.audio_frames == s.audio_frames && t.frame_size == s.frame_size
            },
{
    let e = Seq::<ActionView>::empty();
    let b = Mp4State { pending: Seq::empty(), ..s };
    lemma_with_pictures(b, s.pending);
    let (p, video) = with_pictures(b, s.pending);
    lemma_started(p, None);
    lemma_audio_alone(e);
    let (t, head) = if p.started {
        (p, e)
    } else {
        started(p, None)
    };
    lemma_parts_add(video, head);
    let front = video + head;
    assert(recorded(s.pending) + e =~= recorded(s.pending));
    assert(p.started ==> p.parked =~= e);
    assert(audio_part(video) + audio_part(head) =~= s.parked);
    assert(video_part(front) == recorded(s.pending));
    assert(finished(s, units).1 == (front + with_audio_all(t, units).1).push(ActionView::Trailer));
}

/// Decoding can start at the first picture by itself, and a key picture is
/// forced at every `every` pictures from there on, and at no other.
pub proof fn law_key_pictures(every: nat, k: nat, r: nat)
    requires
        every > 0,
        r < every,
    ensures
        key_due(k * every + r, every) <==> k > 0 && r == 0,
{
    assert((k * every + r) % every == r) by {
        vstd::arithmetic::div_mod::lemma_fundamental_div_mod_converse(
            (k * every + r) as int,
            every as int,
            k as int,
            r as int,
        );
    }
    assert(k * every + r == 0 <==> k == 0 && r == 0) by (nonlinear_arith)
        requires
            every > 0,
            k >= 0,
            r >= 0,
    ;
}

} // verus!
