//! The RTMP output: the FLV stream that it publishes, and the course of
//! encoding and sending.

use vstd::prelude::*;
use crate::bytes::append;
use crate::flv::{annexb_units, audio_payload, audio_tag, avcc_nalus, avcdcr, config_record};
use crate::flv::{file_header, fits_tag, header, length_prefixed, metadata_payload, metadata_tag};
use crate::flv::{parameter_sets, parameter_sets_of, tag_bytes, video_config_payload, video_payload};
use crate::flv::{read_tags, tags_bytes, video_sequence_header, video_tag, TagView};
use crate::flv::{TAG_AUDIO, TAG_SCRIPT, TAG_VIDEO};
use crate::link::{link_after, link_send, Link, LinkEvent, LinkStage, LinkState};
use crate::picture::{ready, take_ready, unit_views, waiting, AccessUnit, UnitView};

verus! {

// ---------------------------------------------------------------------------
// The stream
// ---------------------------------------------------------------------------

/// Milliseconds of one access unit; at least one.
pub open spec fn unit_ms(frame_size: usize, sample_rate: u32) -> nat {
    let ms = (frame_size * 1000) as nat / sample_rate as nat;
    if ms < 1 {
        1
    } else {
        ms
    }
}

/// A time as it stands in a tag: its last 32 bits.
pub open spec fn tag_time(ms: nat) -> u32 {
    (ms % 0x1_0000_0000) as u32
}

/// The contents of the access units.
pub open spec fn byte_views(v: Seq<Vec<u8>>) -> Seq<Seq<u8>> {
    Seq::new(v.len(), |i: int| v[i]@)
}

/// The tags of access units, the first of them at `ts`.
pub open spec fn audio_tags(units: Seq<Seq<u8>>, ts: nat, step: nat) -> Seq<u8>
    decreases units.len(),
{
    if units.len() == 0 {
        Seq::empty()
    } else {
        audio_tags(units.drop_last(), ts, step) + tag_bytes(
            TAG_AUDIO,
            tag_time(ts + (units.len() - 1) as nat * step),
            audio_payload(false, units.last()),
        )
    }
}

/// The tags of one picture: in front of the first one with parameter sets
/// stands the decoder configuration.
#[verifier::opaque]
pub open spec fn picture_tags(u: UnitView, configured: bool) -> Seq<u8> {
    (match parameter_sets_of(u.data) {
        Some((sps, pps)) => if configured {
            Seq::empty()
        } else {
            tag_bytes(TAG_VIDEO, 0, video_config_payload(config_record(sps, pps)))
        },
        None => Seq::empty(),
    }) + tag_bytes(
        TAG_VIDEO,
        tag_time((u.pts_90k / 90) as nat),
        video_payload(u.idr, length_prefixed(annexb_units(u.data))),
    )
}

/// The tags of pictures, and whether the decoder configuration was among them
/// or before them.
pub open spec fn pictures_tags(units: Seq<UnitView>, configured: bool) -> (Seq<u8>, bool)
    decreases units.len(),
{
    if units.len() == 0 {
        (Seq::empty(), configured)
    } else {
        let (before, c) = pictures_tags(units.drop_last(), configured);
        (
            before + picture_tags(units.last(), c),
            c || parameter_sets_of(units.last().data) is Some,
        )
    }
}

/// The picture fits into a tag, and its parameter sets into a decoder
/// configuration.
pub open spec fn sound_picture(u: UnitView) -> bool {
    &&& fits_tag(length_prefixed(annexb_units(u.data)).len() + 5)
    &&& parameter_sets_of(u.data) matches Some((sps, pps)) ==> sps.len() >= 4 && fits_tag(
        config_record(sps, pps).len() + 5,
    )
}

fn fits(len: usize, more: usize) -> (b: bool)
    requires
        more <= 5,
    ensures
        b == fits_tag((len + more) as nat),
{
    (len as u128 + more as u128) % 0x1_0000_0000 + 11 <= u32::MAX as u128
}

/// Whether a picture can be sent: it fits into a tag, and its parameter sets
/// into a decoder configuration.
pub fn picture_fits(u: &AccessUnit) -> (b: bool)
    ensures
        b == sound_picture(u@),
{
    let avcc = avcc_nalus(u.data.as_slice());
    if !fits(avcc.len(), 5) {
        return false;
    }
    match parameter_sets(u.data.as_slice()) {
        None => true,
        Some((sps, pps)) => {
            if sps.len() < 4 {
                return false;
            }
            let record = avcdcr(sps.as_slice(), pps.as_slice());
            fits(record.len(), 5)
        },
    }
}

/// Whether the bytes of an audio tag fit into it.
pub fn audio_fits(unit: &[u8]) -> (b: bool)
    ensures
        b == fits_tag(unit@.len() + 2),
{
    fits(unit.len(), 2)
}

/// The pictures up to a number of milliseconds.
pub open spec fn limit_ticks(ms: u64) -> u64 {
    if ms >= u64::MAX / 90 {
        u64::MAX
    } else {
        (ms * 90 + 89) as u64
    }
}

/// The state of the stream.
pub struct FlvState {
    /// Milliseconds of the audio so far.
    pub audio_ms: nat,
    /// The audio configuration was sent.
    pub audio_configured: bool,
    /// The decoder configuration of the pictures was sent.
    pub video_configured: bool,
    /// Pictures that wait for the audio.
    pub pending: Seq<UnitView>,
}

/// The stream behind the pictures up to a number of milliseconds, and the
/// bytes that they become.
pub open spec fn pictures_sent(s: FlvState, up_to_ms: u64) -> (FlvState, Seq<u8>) {
    let (bytes, configured) = pictures_tags(
        ready(s.pending, limit_ticks(up_to_ms)),
        s.video_configured,
    );
    (
        FlvState {
            video_configured: configured,
            pending: waiting(s.pending, limit_ticks(up_to_ms)),
            ..s
        },
        bytes,
    )
}

/// The stream that is opened anew.
pub open spec fn reset(s: FlvState) -> FlvState {
    FlvState {
        audio_configured: false,
        video_configured: false,
        pending: Seq::empty(),
        ..s
    }
}

/// Makes the FLV stream of an RTMP output.
pub struct FlvStream {
    audio_ms: u64,
    audio_configured: bool,
    video_configured: bool,
    pending: Vec<AccessUnit>,
}

impl View for FlvStream {
    type V = FlvState;

    closed spec fn view(&self) -> FlvState {
        FlvState {
            audio_ms: self.audio_ms as nat,
            audio_configured: self.audio_configured,
            video_configured: self.video_configured,
            pending: unit_views(self.pending@),
        }
    }
}

/// The bytes that open a stream: the file header and the metadata.
pub open spec fn opening_bytes(
    width: u32,
    height: u32,
    fps_bits: u64,
    has_video: bool,
    audio_bitrate: u32,
) -> Seq<u8> {
    file_header(has_video) + tag_bytes(
        TAG_SCRIPT,
        0,
        metadata_payload(width, height, fps_bits, has_video, audio_bitrate),
    )
}

/// The bytes that open a stream.
pub fn opening(
    width: u32,
    height: u32,
    fps_bits: u64,
    has_video: bool,
    audio_bitrate: u32,
) -> (out: Vec<u8>)
    ensures
        out@ == opening_bytes(width, height, fps_bits, has_video, audio_bitrate),
{
    let mut out = header(has_video);
    let meta = metadata_tag(width, height, fps_bits, has_video, audio_bitrate);
    append(&mut out, meta.as_slice());
    out
}

impl FlvStream {
    /// Every waiting picture fits into a tag.
    pub open spec fn wf(&self) -> bool {
        forall|i: int| 0 <= i < self@.pending.len() ==> sound_picture(#[trigger] self@.pending[i])
    }

    /// A stream before its first access unit.
    pub fn new() -> (s: FlvStream)
        ensures
            s.wf(),
            s@ == (FlvState {
                audio_ms: 0,
                audio_configured: false,
                video_configured: false,
                pending: Seq::empty(),
            }),
    {
        let pending: Vec<AccessUnit> = Vec::new();
        assert(unit_views(pending@) =~= Seq::<UnitView>::empty());
        FlvStream { audio_ms: 0, audio_configured: false, video_configured: false, pending }
    }

    /// The stream is opened anew: the configurations are sent again, and the
    /// waiting pictures are dropped. The audio clock runs on.
    pub fn restart(&mut self)
        ensures
            final(self).wf(),
            final(self)@ == reset(old(self)@),
    {
        self.audio_configured = false;
        self.video_configured = false;
        self.pending = Vec::new();
        assert(unit_views(self.pending@) =~= Seq::<UnitView>::empty());
    }

    /// Milliseconds of the audio so far.
    pub fn audio_ms(&self) -> (ms: u64)
        ensures
            ms == self@.audio_ms,
    {
        self.audio_ms
    }

    /// The tags of access units that follow one another. In front of the very
    /// first one stands the audio configuration.
    pub fn audio(
        &mut self,
        units: &Vec<Vec<u8>>,
        frame_size: usize,
        sample_rate: u32,
        config: &[u8],
    ) -> (out: Vec<u8>)
        requires
            old(self).wf(),
            sample_rate > 0,
            frame_size <= 0xffff_ffff,
            old(self)@.audio_ms + units@.len() * unit_ms(frame_size, sample_rate) <= u64::MAX,
            fits_tag(config@.len() + 2),
            forall|i: int| 0 <= i < units@.len() ==> fits_tag((#[trigger] units@[i])@.len() + 2),
        ensures
            final(self).wf(),
            out@ == (if units@.len() == 0 {
                Seq::empty()
            } else {
                (if old(self)@.audio_configured {
                    Seq::empty()
                } else {
                    tag_bytes(TAG_AUDIO, 0, audio_payload(true, config@))
                }) + audio_tags(
                    byte_views(units@),
                    old(self)@.audio_ms,
                    unit_ms(frame_size, sample_rate),
                )
            }),
            final(self)@ == (FlvState {
                audio_ms: old(self)@.audio_ms + units@.len() * unit_ms(frame_size, sample_rate),
                audio_configured: old(self)@.audio_configured || units@.len() > 0,
                ..old(self)@
            }),
    {
        let mut out: Vec<u8> = Vec::new();
        if units.len() == 0 {
            return out;
        }
        let ms: u64 = (frame_size as u64 * 1000) / sample_rate as u64;
        let step: u64 = if ms < 1 { 1 } else { ms };
        if !self.audio_configured {
            let head = audio_tag(0, true, config);
            append(&mut out, head.as_slice());
            self.audio_configured = true;
        }
        let ghost front = out@;
        let ghost all = byte_views(units@);
        let ghost t0 = self.audio_ms as nat;
        let ghost pending = self.pending@;
        let mut i: usize = 0;
        proof {
            assert(all.take(0) =~= Seq::<Seq<u8>>::empty());
            assert(out@ =~= front + audio_tags(all.take(0), t0, step as nat));
            assert(0 * step == 0) by (nonlinear_arith);
        }
        while i < units.len()
            invariant
                i <= units@.len(),
                all == byte_views(units@),
                t0 == old(self)@.audio_ms,
                step == unit_ms(frame_size, sample_rate),
                t0 + units@.len() * step <= u64::MAX,
                self.audio_ms == t0 + i * step,
                self.audio_configured,
                self.video_configured == old(self).video_configured,
                self.pending@ == pending,
                forall|k: int|
                    0 <= k < units@.len() ==> fits_tag((#[trigger] units@[k])@.len() + 2),
                out@ == front + audio_tags(all.take(i as int), t0, step as nat),
            decreases units@.len() - i,
        {
            proof {
                assert(all.take(i as int + 1).drop_last() =~= all.take(i as int));
                assert(all.take(i as int + 1).last() == units@[i as int]@);
                assert((i + 1) * step == i * step + step) by (nonlinear_arith);
                assert((i + 1) * step <= units@.len() * step) by (nonlinear_arith)
                    requires
                        i + 1 <= units@.len(),
                        step >= 0,
                ;
            }
            let ghost before = out@;
            let t = audio_tag(
                (self.audio_ms % 0x1_0000_0000) as u32,
                false,
                units[i].as_slice(),
            );
            append(&mut out, t.as_slice());
            proof {
                assert(out@ =~= front + (audio_tags(all.take(i as int), t0, step as nat) + t@));
            }
            self.audio_ms = self.audio_ms + step;
            i = i + 1;
        }
        proof {
            assert(all.take(i as int) =~= all);
        }
        out
    }

    /// A picture waits until the audio has reached it.
    pub fn queue(&mut self, u: AccessUnit)
        requires
            old(self).wf(),
            sound_picture(u@),
        ensures
            final(self).wf(),
            final(self)@ == (FlvState { pending: old(self)@.pending.push(u@), ..old(self)@ }),
    {
        let ghost before = unit_views(self.pending@);
        self.pending.push(u);
        proof {
            assert(unit_views(self.pending@) =~= before.push(u@));
            assert forall|i: int| 0 <= i < self@.pending.len() implies sound_picture(
                #[trigger] self@.pending[i],
            ) by {
                if i < before.len() {
                    assert(self@.pending[i] == old(self)@.pending[i]);
                }
            }
        }
    }

    /// The tags of the waiting pictures up to a number of milliseconds, in
    /// order.
    pub fn video(&mut self, up_to_ms: u64) -> (out: Vec<u8>)
        requires
            old(self).wf(),
        ensures
            final(self).wf(),
            (final(self)@, out@) == pictures_sent(old(self)@, up_to_ms),
    {
        let limit: u64 = if up_to_ms >= u64::MAX / 90 {
            u64::MAX
        } else {
            up_to_ms * 90 + 89
        };
        let ghost p0 = self.pending@;
        let ghost v0 = self.video_configured;
        proof {
            assert forall|u: AccessUnit| p0.contains(u) implies sound_picture(#[trigger] u@) by {
                let k = choose|k: int| 0 <= k < p0.len() && p0[k] == u;
                assert(old(self)@.pending[k] == u@);
            }
        }
        let units = take_ready(&mut self.pending, limit);
        let ghost all = unit_views(units@);
        proof {
            assert forall|k: int| 0 <= k < self.pending@.len() implies sound_picture(
                #[trigger] unit_views(self.pending@)[k],
            ) by {
                assert(p0.contains(self.pending@[k]));
            }
            assert forall|k: int| 0 <= k < units@.len() implies sound_picture(
                #[trigger] units@[k]@,
            ) by {
                assert(p0.contains(units@[k]));
            }
        }
        let mut out: Vec<u8> = Vec::new();
        let mut i: usize = 0;
        proof {
            assert(all.take(0) =~= Seq::<UnitView>::empty());
        }
        while i < units.len()
            invariant
                i <= units@.len(),
                all == unit_views(units@),
                self.audio_ms == old(self).audio_ms,
                self.audio_configured == old(self).audio_configured,
                unit_views(self.pending@) == waiting(unit_views(p0), limit),
                forall|k: int| 0 <= k < units@.len() ==> sound_picture(#[trigger] units@[k]@),
                (out@, self.video_configured) == pictures_tags(all.take(i as int), v0),
            decreases units@.len() - i,
        {
            proof {
                assert(all.take(i as int + 1).drop_last() =~= all.take(i as int));
                assert(all.take(i as int + 1).last() == units@[i as int]@);
            }
            let ghost before = out@;
            let ghost c0 = self.video_configured;
            let u = &units[i];
            assert(sound_picture(units@[i as int]@));
            if !self.video_configured {
                match parameter_sets(u.data.as_slice()) {
                    Some((sps, pps)) => {
                        let record = avcdcr(sps.as_slice(), pps.as_slice());
                        let head = video_sequence_header(record.as_slice());
                        append(&mut out, head.as_slice());
                        self.video_configured = true;
                    },
                    None => {},
                }
            }
            let avcc = avcc_nalus(u.data.as_slice());
            let t = video_tag(
                ((u.pts_90k / 90) % 0x1_0000_0000) as u32,
                u.idr,
                avcc.as_slice(),
            );
            append(&mut out, t.as_slice());
            proof {
                reveal(picture_tags);
                assert(out@ =~= before + picture_tags(u@, c0));
            }
            i = i + 1;
        }
        proof {
            assert(all.take(i as int) =~= all);
        }
        out
    }
}

// ---------------------------------------------------------------------------
// The course
// ---------------------------------------------------------------------------

/// What the output does while its link is idle.
#[derive(Clone, Copy, Debug, PartialEq, Eq, Structural)]
pub enum RtmpPhase {
    /// Hand over the bytes that open the stream.
    Open,
    /// Wait for the next frame.
    Receive,
    /// Encode the frame, and hand over its tags.
    Encode,
    /// Hand over the pictures that are left.
    Drain,
    /// Hand over the bytes that open the stream, in front of those pictures.
    Reopen,
    /// Close the connection: the stream is over.
    Close,
}

/// Rounds in which pictures are awaited at the end.
pub const MAX_TAIL_ROUNDS: u32 = 200;

/// Pictures are still awaited at the end.
pub open spec fn tail_awaits(source_ended: bool, shutdown: bool, rounds: u32) -> bool {
    !source_ended && !shutdown && rounds < MAX_TAIL_ROUNDS
}

/// Whether pictures are still awaited at the end: their source goes on,
/// shutdown was not requested, and there were not too many rounds.
pub fn tail_goes_on(source_ended: bool, shutdown: bool, rounds: u32) -> (b: bool)
    ensures
        b == tail_awaits(source_ended, shutdown, rounds),
{
    !source_ended && !shutdown && rounds < MAX_TAIL_ROUNDS
}

/// What came of it.
#[derive(Clone, Copy, Debug, PartialEq, Eq, Structural)]
pub enum RtmpEvent {
    /// A frame, and whether shutdown was requested before it.
    Frame { shutdown: bool },
    /// There are no more frames, or no more pictures.
    Ended,
    /// There are bytes to send, or none.
    Bytes { empty: bool },
    /// Something of the link.
    Link(LinkEvent),
}

/// The state of the output.
pub struct RtmpState {
    pub phase: RtmpPhase,
    pub link: LinkState,
}

/// What the output does once its link stands again: the stream is opened anew.
pub open spec fn reopened(phase: RtmpPhase) -> RtmpPhase {
    match phase {
        RtmpPhase::Drain => RtmpPhase::Reopen,
        RtmpPhase::Reopen => RtmpPhase::Reopen,
        RtmpPhase::Close => RtmpPhase::Close,
        _ => RtmpPhase::Open,
    }
}

/// The state after an event. While the link is busy only its events count. A
/// frame that finds no encoder is dropped.
pub open spec fn rtmp_after(s: RtmpState, e: RtmpEvent) -> RtmpState {
    if s.link.stage != LinkStage::Idle {
        match e {
            RtmpEvent::Link(l) => RtmpState {
                link: link_after(s.link, l),
                phase: if s.link.stage == LinkStage::Connecting && l == LinkEvent::Connected {
                    reopened(s.phase)
                } else {
                    s.phase
                },
            },
            _ => s,
        }
    } else {
        match (s.phase, e) {
            (RtmpPhase::Open, RtmpEvent::Bytes { empty }) => RtmpState {
                phase: RtmpPhase::Receive,
                link: link_send(s.link, empty),
            },
            (RtmpPhase::Receive, RtmpEvent::Frame { shutdown }) => RtmpState {
                phase: if shutdown {
                    RtmpPhase::Drain
                } else if s.link.encoder {
                    RtmpPhase::Encode
                } else {
                    RtmpPhase::Receive
                },
                ..s
            },
            (RtmpPhase::Receive, RtmpEvent::Ended) => RtmpState { phase: RtmpPhase::Drain, ..s },
            (RtmpPhase::Encode, RtmpEvent::Bytes { empty }) => RtmpState {
                phase: RtmpPhase::Receive,
                link: link_send(s.link, empty),
            },
            (RtmpPhase::Drain, RtmpEvent::Bytes { empty }) => RtmpState {
                link: link_send(s.link, empty),
                ..s
            },
            (RtmpPhase::Drain, RtmpEvent::Ended) => RtmpState { phase: RtmpPhase::Close, ..s },
            (RtmpPhase::Reopen, RtmpEvent::Bytes { empty }) => RtmpState {
                phase: RtmpPhase::Drain,
                link: link_send(s.link, empty),
            },
            _ => s,
        }
    }
}

/// Decides, step by step, what the RTMP output does.
#[derive(Clone, Copy, Debug)]
pub struct RtmpPump {
    phase: RtmpPhase,
    link: Link,
}

impl View for RtmpPump {
    type V = RtmpState;

    closed spec fn view(&self) -> RtmpState {
        RtmpState { phase: self.phase, link: self.link@ }
    }
}

impl RtmpPump {
    /// The output once its initial attempt to connect is over.
    pub fn new(connected: bool, encoder: bool) -> (p: RtmpPump)
        ensures
            p@.phase == RtmpPhase::Open,
            p@.link == (LinkState { stage: LinkStage::Idle, connected, encoder }),
    {
        RtmpPump { phase: RtmpPhase::Open, link: Link::new(connected, encoder) }
    }

    /// What the link does; where it is idle, the phase says what to do.
    pub fn stage(&self) -> (s: LinkStage)
        ensures
            s == self@.link.stage,
    {
        self.link.stage()
    }

    /// What to do while the link is idle.
    pub fn phase(&self) -> (p: RtmpPhase)
        ensures
            p == self@.phase,
    {
        self.phase
    }

    /// Takes what came of the last step.
    pub fn on_event(&mut self, e: RtmpEvent)
        ensures
            final(self)@ == rtmp_after(old(self)@, e),
    {
        if self.link.stage() != LinkStage::Idle {
            match e {
                RtmpEvent::Link(l) => {
                    if self.link.stage() == LinkStage::Connecting && l == LinkEvent::Connected {
                        self.phase = match self.phase {
                            RtmpPhase::Drain => RtmpPhase::Reopen,
                            RtmpPhase::Reopen => RtmpPhase::Reopen,
                            RtmpPhase::Close => RtmpPhase::Close,
                            _ => RtmpPhase::Open,
                        };
                    }
                    self.link.on_event(l);
                },
                _ => {},
            }
            return;
        }
        match self.phase {
            RtmpPhase::Open => match e {
                RtmpEvent::Bytes { empty } => {
                    self.phase = RtmpPhase::Receive;
                    self.link.send(empty);
                },
                _ => {},
            },
            RtmpPhase::Receive => match e {
                RtmpEvent::Frame { shutdown } => {
                    if shutdown {
                        self.phase = RtmpPhase::Drain;
                    } else if self.link.has_encoder() {
                        self.phase = RtmpPhase::Encode;
                    }
                },
                RtmpEvent::Ended => {
                    self.phase = RtmpPhase::Drain;
                },
                _ => {},
            },
            RtmpPhase::Encode => match e {
                RtmpEvent::Bytes { empty } => {
                    self.phase = RtmpPhase::Receive;
                    self.link.send(empty);
                },
                _ => {},
            },
            RtmpPhase::Drain => match e {
                RtmpEvent::Bytes { empty } => self.link.send(empty),
                RtmpEvent::Ended => {
                    self.phase = RtmpPhase::Close;
                },
                _ => {},
            },
            RtmpPhase::Reopen => match e {
                RtmpEvent::Bytes { empty } => {
                    self.phase = RtmpPhase::Drain;
                    self.link.send(empty);
                },
                _ => {},
            },
            RtmpPhase::Close => {},
        }
    }
}

// ---------------------------------------------------------------------------
// Laws
// ---------------------------------------------------------------------------

/// A picture is sent exactly once the audio has reached its millisecond.
pub proof fn law_pictures_wait_for_audio(pts_90k: u64, ms: u64)
    ensures
        pts_90k <= limit_ticks(ms) <==> pts_90k / 90 <= ms,
{
}

/// What holds of the output at every step: its link is sound, and it encodes
/// only with an encoder.
pub open spec fn sound_rtmp(s: RtmpState) -> bool {
    &&& crate::link::sound_link(s.link)
    &&& s.link.stage == LinkStage::Idle && s.phase == RtmpPhase::Encode ==> s.link.encoder
    &&& s.link.stage != LinkStage::Idle ==> s.phase != RtmpPhase::Encode
}

/// Every step keeps the output sound.
pub proof fn law_rtmp_stays_sound(s: RtmpState, e: RtmpEvent)
    requires
        sound_rtmp(s),
    ensures
        sound_rtmp(rtmp_after(s, e)),
{
}

/// A connection that was made again gets the bytes that open the stream before
/// anything else: no frame is encoded and no picture sent until they are
/// handed over.
pub proof fn law_reconnecting_reopens_the_stream(s: RtmpState, e: RtmpEvent)
    requires
        s.link.stage == LinkStage::Connecting,
        s.phase != RtmpPhase::Close,
        !(e is Bytes),
    ensures
        ({
            let t = rtmp_after(s, RtmpEvent::Link(LinkEvent::Connected));
            &&& t.link.stage == LinkStage::Idle
            &&& t.link.connected
            &&& t.phase == RtmpPhase::Open || t.phase == RtmpPhase::Reopen
            &&& rtmp_after(t, e) == t
        }),
{
}

/// Until the stream is opened anew, the decoder configuration is sent at most
/// once, however the pictures come: sending them in two runs is sending them
/// at once.
pub proof fn law_one_configuration(a: Seq<UnitView>, b: Seq<UnitView>, configured: bool)
    ensures
        ({
            let (x, c) = pictures_tags(a, configured);
            let (y, d) = pictures_tags(b, c);
            &&& pictures_tags(a + b, configured) == (x + y, d)
            &&& configured ==> c
        }),
    decreases b.len(),
{
    let (x, c) = pictures_tags(a, configured);
    if b.len() == 0 {
        assert(a + b =~= a);
        assert(x + Seq::<u8>::empty() =~= x);
        lemma_configured(a, configured);
    } else {
        law_one_configuration(a, b.drop_last(), configured);
        assert((a + b).drop_last() =~= a + b.drop_last());
        let (z, e) = pictures_tags(b.drop_last(), c);
        assert(x + (z + picture_tags(b.last(), e)) =~= (x + z) + picture_tags(b.last(), e));
    }
}

proof fn lemma_configured(units: Seq<UnitView>, configured: bool)
    ensures
        configured ==> pictures_tags(units, configured).1,
    decreases units.len(),
{
    if units.len() > 0 {
        lemma_configured(units.drop_last(), configured);
    }
}

/// Access units that are sent in two runs are timed as if they were sent at
/// once: the times never go backwards.
pub proof fn law_audio_is_continuous(a: Seq<Seq<u8>>, b: Seq<Seq<u8>>, ts: nat, step: nat)
    ensures
        audio_tags(a + b, ts, step) == audio_tags(a, ts, step) + audio_tags(
            b,
            ts + a.len() * step,
            step,
        ),
    decreases b.len(),
{
    if b.len() == 0 {
        assert(a + b =~= a);
        assert(audio_tags(a, ts, step) + Seq::<u8>::empty() =~= audio_tags(a, ts, step));
    } else {
        law_audio_is_continuous(a, b.drop_last(), ts, step);
        assert((a + b).drop_last() =~= a + b.drop_last());
        assert(ts + (a.len() + b.len() - 1) * step == ts + a.len() * step + (b.len() - 1) * step)
            by (nonlinear_arith);
        let t = tag_bytes(
            TAG_AUDIO,
            tag_time(ts + ((a + b).len() - 1) as nat * step),
            audio_payload(false, b.last()),
        );
        assert(audio_tags(a, ts, step) + (audio_tags(b.drop_last(), ts + a.len() * step, step) + t)
            =~= (audio_tags(a, ts, step) + audio_tags(b.drop_last(), ts + a.len() * step, step))
            + t);
    }
}

proof fn lemma_tags_add(a: Seq<TagView>, b: Seq<TagView>)
    ensures
        tags_bytes(a + b) == tags_bytes(a) + tags_bytes(b),
    decreases a.len(),
{
    if a.len() == 0 {
        assert(a + b =~= b);
        assert(tags_bytes(a) + tags_bytes(b) =~= tags_bytes(b));
    } else {
        lemma_tags_add(a.skip(1), b);
        assert((a + b).skip(1) =~= a.skip(1) + b);
        let h = tag_bytes(a[0].tag_type, a[0].ts_ms, a[0].data);
        assert(h + (tags_bytes(a.skip(1)) + tags_bytes(b)) =~= h + tags_bytes(a.skip(1))
            + tags_bytes(b));
    }
}

proof fn lemma_one_tag(t: TagView)
    ensures
        tags_bytes(seq![t]) == tag_bytes(t.tag_type, t.ts_ms, t.data),
{
    reveal_with_fuel(tags_bytes, 2);
    assert(seq![t].skip(1) =~= Seq::<TagView>::empty());
    let b = tag_bytes(t.tag_type, t.ts_ms, t.data);
    assert(b + Seq::<u8>::empty() =~= b);
}

/// The tags of access units: each holds one of them, in order, and is timed
/// when those before it have played.
pub open spec fn timed_audio(units: Seq<Seq<u8>>, ts: nat, step: nat) -> Seq<TagView> {
    Seq::new(
        units.len(),
        |i: int|
            TagView {
                tag_type: 8,
                ts_ms: (ts + i * step) as u32,
                data: seq![0xafu8, 1] + units[i],
            },
    )
}

/// A player gets the access units back, in order and at their times, each an
/// audio tag; the configuration of its decoder, where it stands in front of
/// them, is an audio tag too, told apart by its second byte.
pub proof fn law_audio_reads_back(units: Seq<Seq<u8>>, ts: nat, step: nat, config: Seq<u8>)
    requires
        config.len() < 0xff_fff0,
        forall|i: int| 0 <= i < units.len() ==> (#[trigger] units[i]).len() < 0xff_fff0,
        ts + units.len() * step < 0x100_0000,
    ensures
        read_tags(audio_tags(units, ts, step)) == timed_audio(units, ts, step),
        read_tags(
            tag_bytes(TAG_AUDIO, 0, audio_payload(true, config)) + audio_tags(units, ts, step),
        ) == seq![TagView { tag_type: 8, ts_ms: 0, data: seq![0xafu8, 0] + config }]
            + timed_audio(units, ts, step),
{
    let tags = timed_audio(units, ts, step);
    let c = TagView { tag_type: 8, ts_ms: 0, data: seq![0xafu8, 0] + config };
    lemma_audio_tags(units, ts, step);
    lemma_tags_are_small(units, ts, step);
    crate::flv::law_tags_read_back(tags);
    let all = seq![c] + tags;
    assert forall|i: int| 0 <= i < all.len() implies (#[trigger] all[i]).data.len() < 0x100_0000
        && all[i].ts_ms < 0x100_0000 by {
        if i > 0 {
            assert(all[i] == tags[i - 1]);
        }
    }
    crate::flv::law_tags_read_back(all);
    lemma_one_tag(c);
    lemma_tags_add(seq![c], tags);
    assert(audio_payload(true, config) =~= c.data);
}

proof fn lemma_tags_are_small(units: Seq<Seq<u8>>, ts: nat, step: nat)
    requires
        forall|i: int| 0 <= i < units.len() ==> (#[trigger] units[i]).len() < 0xff_fff0,
        ts + units.len() * step < 0x100_0000,
    ensures
        forall|i: int|
            0 <= i < units.len() ==> (#[trigger] timed_audio(units, ts, step)[i]).data.len()
                < 0x100_0000 && timed_audio(units, ts, step)[i].ts_ms < 0x100_0000,
{
    assert forall|i: int| 0 <= i < units.len() implies (#[trigger] timed_audio(
        units,
        ts,
        step,
    )[i]).data.len() < 0x100_0000 && timed_audio(units, ts, step)[i].ts_ms < 0x100_0000 by {
        assert(0 <= i * step <= units.len() * step) by (nonlinear_arith)
            requires
                0 <= i <= units.len(),
        ;
        assert(units[i].len() < 0xff_fff0);
    }
}

proof fn lemma_tags_push(a: Seq<TagView>, t: TagView)
    ensures
        tags_bytes(a.push(t)) == tags_bytes(a) + tag_bytes(t.tag_type, t.ts_ms, t.data),
{
    lemma_one_tag(t);
    lemma_tags_add(a, seq![t]);
    assert(a + seq![t] =~= a.push(t));
}

proof fn lemma_timed_push(units: Seq<Seq<u8>>, ts: nat, step: nat)
    requires
        units.len() > 0,
        ts + units.len() * step < 0x1_0000_0000,
    ensures
        ({
            let n = (units.len() - 1) as nat;
            let t = TagView {
                tag_type: 8,
                ts_ms: tag_time(ts + n * step),
                data: audio_payload(false, units.last()),
            };
            timed_audio(units, ts, step) == timed_audio(units.drop_last(), ts, step).push(t)
        }),
        ts + units.drop_last().len() * step < 0x1_0000_0000,
{
    let n = (units.len() - 1) as nat;
    assert(n * step <= units.len() * step) by (nonlinear_arith)
        requires
            n <= units.len(),
    ;
    assert(audio_payload(false, units.last()) =~= seq![0xafu8, 1] + units.last());
    let t = TagView {
        tag_type: 8,
        ts_ms: tag_time(ts + n * step),
        data: audio_payload(false, units.last()),
    };
    assert(timed_audio(units, ts, step) =~= timed_audio(units.drop_last(), ts, step).push(t));
}

proof fn lemma_audio_tags(units: Seq<Seq<u8>>, ts: nat, step: nat)
    requires
        ts + units.len() * step < 0x1_0000_0000,
    ensures
        audio_tags(units, ts, step) == tags_bytes(timed_audio(units, ts, step)),
    decreases units.len(),
{
    if units.len() == 0 {
        assert(timed_audio(units, ts, step) =~= Seq::<TagView>::empty());
    } else {
        let n = (units.len() - 1) as nat;
        let t = TagView {
            tag_type: 8,
            ts_ms: tag_time(ts + n * step),
            data: audio_payload(false, units.last()),
        };
        lemma_timed_push(units, ts, step);
        lemma_audio_tags(units.drop_last(), ts, step);
        lemma_tags_push(timed_audio(units.drop_last(), ts, step), t);
    }
}

/// The tags of a picture as a player sees them.
pub open spec fn picture_seen(u: UnitView, configured: bool) -> Seq<TagView> {
    let first: u8 = if u.idr {
        0x17
    } else {
        0x27
    };
    let picture = TagView {
        tag_type: 9,
        ts_ms: (u.pts_90k / 90) as u32,
        data: seq![first, 1, 0, 0, 0] + length_prefixed(annexb_units(u.data)),
    };
    match parameter_sets_of(u.data) {
        Some((sps, pps)) => if configured {
            seq![picture]
        } else {
            seq![
                TagView {
                    tag_type: 9,
                    ts_ms: 0,
                    data: seq![0x17u8, 0, 0, 0, 0] + config_record(sps, pps),
                },
                picture,
            ]
        },
        None => seq![picture],
    }
}

#[verifier::spinoff_prover]
#[verifier::rlimit(30)]
proof fn lemma_picture_tags(u: UnitView, configured: bool)
    requires
        u.pts_90k / 90 < 0x100_0000,
    ensures
        picture_tags(u, configured) == tags_bytes(picture_seen(u, configured)),
{
    reveal(picture_tags);
    let avcc = length_prefixed(annexb_units(u.data));
    let tags = picture_seen(u, configured);
    let picture = tags.last();
    assert(video_payload(u.idr, avcc) =~= picture.data);
    lemma_one_tag(picture);
    let p = tag_bytes(picture.tag_type, picture.ts_ms, picture.data);
    assert(Seq::<u8>::empty() + p =~= p);
    match parameter_sets_of(u.data) {
        Some((sps, pps)) => {
            if !configured {
                let c = tags[0];
                assert(video_config_payload(config_record(sps, pps)) =~= c.data);
                lemma_one_tag(c);
                lemma_tags_push(seq![c], picture);
                assert(seq![c].push(picture) =~= tags);
            }
        },
        None => {},
    }
}

/// A player gets a picture back as one video tag at its millisecond, marked
/// where decoding can start at it, its units behind their lengths. In front of
/// the first picture of a stream that brings parameter sets stands their
/// configuration, and in front of no other one.
pub proof fn law_pictures_read_back(u: UnitView, configured: bool)
    requires
        u.pts_90k / 90 < 0x100_0000,
        length_prefixed(annexb_units(u.data)).len() < 0xff_fff0,
        parameter_sets_of(u.data) matches Some((sps, pps)) ==> config_record(sps, pps).len()
            < 0xff_fff0,
    ensures
        read_tags(picture_tags(u, configured)) == picture_seen(u, configured),
{
    lemma_picture_tags(u, configured);
    crate::flv::law_tags_read_back(picture_seen(u, configured));
}

/// Pictures go out in their order once the audio has reached them, each once;
/// the others wait for it. Their configuration is known to have gone out as
/// soon as one of them brought parameter sets.
pub proof fn law_pictures_go_out(s: FlvState, up_to_ms: u64)
    ensures
        ({
            let (t, bytes) = pictures_sent(s, up_to_ms);
            let due = s.pending.filter(|u: UnitView| u.pts_90k / 90 <= up_to_ms);
            &&& bytes == pictures_tags(due, s.video_configured).0
            &&& t.pending == s.pending.filter(|u: UnitView| u.pts_90k / 90 > up_to_ms)
            &&& t.video_configured <==> s.video_configured || exists|i: int|
                0 <= i < due.len() && parameter_sets_of((#[trigger] due[i]).data) is Some
            &&& t.audio_ms == s.audio_ms && t.audio_configured == s.audio_configured
        }),
{
    let limit = limit_ticks(up_to_ms);
    let due = s.pending.filter(|u: UnitView| u.pts_90k / 90 <= up_to_ms);
    crate::picture::law_pictures_keep_their_order(s.pending, limit);
    lemma_same_filter(
        s.pending,
        |u: UnitView| u.pts_90k <= limit,
        |u: UnitView| u.pts_90k / 90 <= up_to_ms,
    );
    lemma_same_filter(
        s.pending,
        |u: UnitView| u.pts_90k > limit,
        |u: UnitView| u.pts_90k / 90 > up_to_ms,
    );
    lemma_known(due, s.video_configured);
}

proof fn lemma_same_filter(
    s: Seq<UnitView>,
    p: spec_fn(UnitView) -> bool,
    q: spec_fn(UnitView) -> bool,
)
    requires
        forall|u: UnitView| #[trigger] p(u) == q(u),
    ensures
        s.filter(p) == s.filter(q),
    decreases s.len(),
{
    reveal(Seq::filter);
    if s.len() > 0 {
        lemma_same_filter(s.drop_last(), p, q);
        assert(p(s.last()) == q(s.last()));
    }
}

proof fn lemma_known(units: Seq<UnitView>, configured: bool)
    ensures
        pictures_tags(units, configured).1 <==> configured || exists|i: int|
            0 <= i < units.len() && parameter_sets_of((#[trigger] units[i]).data) is Some,
    decreases units.len(),
{
    if units.len() > 0 {
        let front = units.drop_last();
        lemma_known(front, configured);
        if exists|i: int|
            0 <= i < front.len() && parameter_sets_of((#[trigger] front[i]).data) is Some {
            let i = choose|i: int|
                0 <= i < front.len() && parameter_sets_of((#[trigger] front[i]).data) is Some;
            assert(units[i] == front[i]);
        }
        if exists|i: int|
            0 <= i < units.len() && parameter_sets_of((#[trigger] units[i]).data) is Some {
            let i = choose|i: int|
                0 <= i < units.len() && parameter_sets_of((#[trigger] units[i]).data) is Some;
            if i < front.len() {
                assert(front[i] == units[i]);
            }
        }
        assert(units[units.len() - 1] == units.last());
    }
}

/// A stream that is opened anew starts with the configurations again and with
/// no picture from before, and its clock runs on.
pub proof fn law_reset_sends_configurations_again(s: FlvState)
    ensures
        !reset(s).audio_configured && !reset(s).video_configured,
        reset(s).pending.len() == 0,
        reset(s).audio_ms == s.audio_ms,
{
}

/// An access unit lasts as many whole milliseconds as its samples do, and one
/// where those last less.
pub proof fn law_unit_duration(frame_size: usize, sample_rate: u32)
    requires
        sample_rate > 0,
    ensures
        ({
            let ms = unit_ms(frame_size, sample_rate);
            &&& ms >= 1
            &&& (ms + 1) * sample_rate > frame_size * 1000
            &&& ms * sample_rate <= frame_size * 1000 || ms == 1
        }),
{
    let n = (frame_size * 1000) as nat;
    let r = sample_rate as nat;
    let q = n / r;
    vstd::arithmetic::div_mod::lemma_fundamental_div_mod(n as int, r as int);
    vstd::arithmetic::div_mod::lemma_mod_bound(n as int, r as int);
    assert(q * r <= n < (q + 1) * r) by (nonlinear_arith)
        requires
            n == r * q + n as int % r as int,
            0 <= n as int % r as int,
            (n as int % r as int) < r,
    ;
    if q < 1 {
        assert((1 + 1) * r > n) by (nonlinear_arith)
            requires
                n < (q + 1) * r,
                q < 1,
                r > 0,
        ;
    }
}

/// The stream is opened before anything else; every frame that finds an
/// encoder is encoded and handed to the link; at the end, or at a requested
/// shutdown, the pictures that are left follow, and then the stream is closed.
pub proof fn law_course_of_the_output(s: RtmpState, empty: bool, e: RtmpEvent)
    requires
        s.link.stage == LinkStage::Idle,
    ensures
        ({
            let bytes = RtmpEvent::Bytes { empty };
            let t = rtmp_after(s, bytes);
            &&& s.phase == RtmpPhase::Open ==> t.phase == RtmpPhase::Receive
            &&& s.phase == RtmpPhase::Encode ==> t.phase == RtmpPhase::Receive
            &&& s.phase == RtmpPhase::Drain ==> t.phase == RtmpPhase::Drain
            &&& s.phase == RtmpPhase::Reopen ==> t.phase == RtmpPhase::Drain
            &&& s.phase != RtmpPhase::Receive && s.phase != RtmpPhase::Close ==> {
                &&& !empty && s.link.connected ==> t.link.stage == LinkStage::Sending
                    && t.link.connected
                &&& !empty && !s.link.connected ==> t.link.stage == LinkStage::Polling
                &&& empty ==> t.link.stage == LinkStage::Idle && t.link.connected
                    == s.link.connected
            }
        }),
        s.phase == RtmpPhase::Receive ==> {
            &&& rtmp_after(s, RtmpEvent::Frame { shutdown: true }).phase == RtmpPhase::Drain
            &&& rtmp_after(s, RtmpEvent::Ended).phase == RtmpPhase::Drain
            &&& s.link.encoder ==> rtmp_after(s, RtmpEvent::Frame { shutdown: false }).phase
                == RtmpPhase::Encode
            &&& !s.link.encoder ==> rtmp_after(s, RtmpEvent::Frame { shutdown: false }).phase
                == RtmpPhase::Receive
        },
        s.phase == RtmpPhase::Drain ==> rtmp_after(s, RtmpEvent::Ended).phase == RtmpPhase::Close,
        rtmp_after(s, e).phase == RtmpPhase::Close && s.phase != RtmpPhase::Close ==> s.phase
            == RtmpPhase::Drain && e == RtmpEvent::Ended,
{
}

/// At the end pictures are awaited as long as their source goes on and nobody
/// asks to stop, for two hundred rounds at most.
pub proof fn law_tail_is_bounded(source_ended: bool, shutdown: bool, rounds: u32)
    ensures
        tail_awaits(source_ended, shutdown, rounds) ==> rounds < 200 && !source_ended && !shutdown,
        rounds < 200 && !source_ended && !shutdown ==> tail_awaits(source_ended, shutdown, rounds),
{
}

/// A stream opens with its header and, as the first tag, the metadata at time
/// zero.
pub proof fn law_opening(
    width: u32,
    height: u32,
    fps_bits: u64,
    has_video: bool,
    audio_bitrate: u32,
)
    ensures
        ({
            let o = opening_bytes(width, height, fps_bits, has_video, audio_bitrate);
            let m = metadata_payload(width, height, fps_bits, has_video, audio_bitrate);
            &&& o.take(13) == file_header(has_video)
            &&& m.len() < 0x100_0000 ==> read_tags(o.skip(13)) == seq![
                TagView { tag_type: 18, ts_ms: 0, data: m },
            ]
        }),
{
    let o = opening_bytes(width, height, fps_bits, has_video, audio_bitrate);
    let m = metadata_payload(width, height, fps_bits, has_video, audio_bitrate);
    let t = TagView { tag_type: 18, ts_ms: 0, data: m };
    lemma_one_tag(t);
    assert(o.take(13) =~= file_header(has_video));
    assert(o.skip(13) =~= tag_bytes(18, 0, m));
    if m.len() < 0x100_0000 {
        crate::flv::law_tags_read_back(seq![t]);
    }
}

} // verus!
