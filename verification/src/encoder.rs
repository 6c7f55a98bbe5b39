//! What surrounds the codecs: the Ogg framing of Opus packets, and how input
//! is fed to the AAC and MP3 encoders.

use vstd::prelude::*;
use crate::bytes::{append, concat};
use crate::ogg_mux::{lacing_all, law_packets_read_back, law_page_holds_its_packets};
use crate::ogg_mux::{law_page_reads_back, page, page_packets};
use crate::ogg_mux::{opus_head, opus_head_packet, opus_tags, opus_tags_packet, OggMuxer, OggState};

verus! {

/// Samples per channel of an Opus frame: 20 ms at 48 kHz.
pub const OPUS_FRAME_SAMPLES: usize = 960;

/// Rate that Opus works at.
pub const OPUS_SAMPLE_RATE: u32 = 48_000;

/// Serial number of the Ogg stream.
pub const OPUS_SERIAL: u32 = 0x4341_4243;

/// Largest Opus packet.
pub const MAX_OPUS_PACKET: usize = 1276;

// ---------------------------------------------------------------------------
// Opus
// ---------------------------------------------------------------------------

/// The channels that an Opus stream announces: one or two.
pub open spec fn opus_channels(channels: usize) -> u16 {
    if channels < 2 {
        channels as u16
    } else {
        2
    }
}

/// A muxer before its first page.
pub open spec fn blank_mux() -> OggState {
    OggState {
        serial: OPUS_SERIAL,
        seq: 0,
        granule: 0,
        bos: true,
        segs: Seq::empty(),
        body: Seq::empty(),
        pending: Seq::empty(),
    }
}

/// The state once a packet has a page of its own.
pub open spec fn paged(s: OggState, packet: Seq<u8>, granule: i64) -> OggState {
    s.written(packet, granule).sealed(false)
}

/// The state once a packet has the last page of the stream.
pub open spec fn last_paged(s: OggState, packet: Seq<u8>, granule: i64) -> OggState {
    s.written(packet, granule).sealed(true)
}

/// The state with its pages taken.
pub open spec fn taken(s: OggState) -> OggState {
    OggState { pending: Seq::empty(), ..s }
}

/// The muxer behind the page of the identification packet.
pub open spec fn after_head(channels: usize) -> OggState {
    paged(blank_mux(), opus_head(opus_channels(channels)), 0)
}

/// The muxer behind the pages of both header packets.
pub open spec fn after_tags(channels: usize, title: Seq<char>) -> OggState {
    paged(taken(after_head(channels)), opus_tags(title), 0)
}

/// The two header pages.
pub open spec fn header_pages(channels: usize, title: Seq<char>) -> Seq<u8> {
    after_head(channels).pending + after_tags(channels, title).pending
}

/// A title whose comment packet fits into memory.
pub open spec fn fits_tags(title: Seq<char>) -> bool {
    opus_tags(title).len() < usize::MAX
}

/// Whether the comment packet of a title fits into memory.
pub fn title_fits(title: &str) -> (b: bool)
    ensures
        b == fits_tags(title@),
{
    opus_tags_packet(title).len() < usize::MAX
}

/// The state of the framing.
pub struct OpusState {
    pub channels: usize,
    pub mux: OggState,
    /// Samples that wait for a full frame.
    pub pcm: Seq<i16>,
    /// Packets framed so far.
    pub packets: nat,
    /// Header pages that were not sent yet.
    pub headers: Option<Seq<u8>>,
}

/// Frames an Opus stream in Ogg pages, and cuts samples into frames.
pub struct OpusFramer {
    channels: usize,
    mux: OggMuxer,
    pcm: Vec<i16>,
    granule: i64,
    headers: Option<Vec<u8>>,
}

impl View for OpusFramer {
    type V = OpusState;

    closed spec fn view(&self) -> OpusState {
        OpusState {
            channels: self.channels,
            mux: self.mux@,
            pcm: self.pcm@,
            packets: (self.granule as int / 960) as nat,
            headers: crate::mp4::opt_bytes(self.headers),
        }
    }
}

proof fn lemma_small_packet(len: nat)
    requires
        len < 255 * 255,
    ensures
        crate::ogg_mux::lacing(len).len() <= 255,
{
    crate::ogg_mux::lemma_lacing(len);
}

fn header_bytes(mux: &mut OggMuxer, channels: usize, title: &str) -> (out: Vec<u8>)
    requires
        old(mux).wf(),
        old(mux)@ == blank_mux(),
        fits_tags(title@),
    ensures
        final(mux).wf(),
        final(mux)@ == taken(after_tags(channels, title@)),
        final(mux)@.seq <= 3,
        final(mux)@.page_is_empty(),
        out@ == header_pages(channels, title@),
{
    let ch: u16 = if channels < 2 { channels as u16 } else { 2 };
    let head = opus_head_packet(ch);
    proof {
        lemma_small_packet(head@.len());
    }
    mux.write_packet(head.as_slice(), 0);
    proof {
        crate::ogg_mux::lemma_lacing(head@.len());
        assert(!mux@.page_is_empty());
    }
    mux.flush();
    let mut out = mux.take_output();
    let tags = opus_tags_packet(title);
    mux.write_packet(tags.as_slice(), 0);
    proof {
        crate::ogg_mux::lemma_lacing(tags@.len());
        assert(!mux@.page_is_empty());
    }
    mux.flush();
    let page = mux.take_output();
    append(&mut out, page.as_slice());
    out
}

impl OpusFramer {
    /// There is a channel; pages are sealed packet by packet; granule
    /// positions count the samples of the packets.
    pub closed spec fn wf(&self) -> bool {
        &&& 0 < self.channels <= 0xffff
        &&& self.mux.wf()
        &&& self.mux@.page_is_empty()
        &&& 0 <= self.granule
        &&& self.granule % 960 == 0
        &&& self.mux@.seq <= 3 + self.granule / 960
    }

    /// The framing of a new stream. Its header pages go out before any audio.
    pub fn new(channels: usize, title: &str) -> (f: OpusFramer)
        requires
            0 < channels <= 0xffff,
            fits_tags(title@),
        ensures
            f.wf(),
            f@ == (OpusState {
                channels,
                mux: taken(after_tags(channels, title@)),
                pcm: Seq::empty(),
                packets: 0,
                headers: Some(header_pages(channels, title@)),
            }),
    {
        let mut mux = OggMuxer::new(OPUS_SERIAL);
        let headers = header_bytes(&mut mux, channels, title);
        OpusFramer { channels, mux, pcm: Vec::new(), granule: 0, headers: Some(headers) }
    }

    /// Replaces the title in the header pages; once they are out, that is too
    /// late, and nothing happens.
    pub fn set_title(&mut self, title: &str)
        requires
            old(self).wf(),
            fits_tags(title@),
        ensures
            final(self).wf(),
            final(self)@ == (OpusState {
                headers: if old(self)@.headers is Some {
                    Some(header_pages(old(self)@.channels, title@))
                } else {
                    None
                },
                ..old(self)@
            }),
    {
        if self.headers.is_some() {
            let mut mux = OggMuxer::new(OPUS_SERIAL);
            self.headers = Some(header_bytes(&mut mux, self.channels, title));
        }
    }

    /// Takes samples at 48 kHz.
    pub fn push(&mut self, samples: &[i16])
        requires
            old(self).wf(),
        ensures
            final(self).wf(),
            final(self)@ == (OpusState { pcm: old(self)@.pcm + samples@, ..old(self)@ }),
    {
        let mut i: usize = 0;
        let ghost before = self@;
        assert(before.pcm + samples@.take(0) =~= before.pcm);
        while i < samples.len()
            invariant
                i <= samples@.len(),
                self.wf(),
                self@ == (OpusState { pcm: before.pcm + samples@.take(i as int), ..before }),
            decreases samples@.len() - i,
        {
            self.pcm.push(samples[i]);
            i = i + 1;
            assert(self.pcm@ =~= before.pcm + samples@.take(i as int));
        }
        assert(samples@.take(i as int) =~= samples@);
    }

    /// Takes the next full frame out, if there is one.
    pub fn take_frame(&mut self) -> (r: Option<Vec<i16>>)
        requires
            old(self).wf(),
        ensures
            final(self).wf(),
            ({
                let need = OPUS_FRAME_SAMPLES * old(self)@.channels;
                match r {
                    Some(frame) => {
                        &&& old(self)@.pcm.len() >= need
                        &&& frame@ == old(self)@.pcm.take(need)
                        &&& final(self)@ == (OpusState {
                            pcm: old(self)@.pcm.skip(need),
                            ..old(self)@
                        })
                    },
                    None => old(self)@.pcm.len() < need && final(self)@ == old(self)@,
                }
            }),
    {
        let need: usize = OPUS_FRAME_SAMPLES * self.channels;
        if self.pcm.len() < need {
            return None;
        }
        let ghost all = self.pcm@;
        let mut frame: Vec<i16> = Vec::new();
        let mut rest: Vec<i16> = Vec::new();
        let mut i: usize = 0;
        while i < self.pcm.len()
            invariant
                i <= self.pcm@.len(),
                all == self.pcm@,
                need <= all.len(),
                frame@ == all.take(if i < need { i as int } else { need as int }),
                rest@ == all.subrange(need as int, if i < need { need as int } else { i as int }),
            decreases self.pcm@.len() - i,
        {
            if i < need {
                frame.push(self.pcm[i]);
            } else {
                rest.push(self.pcm[i]);
            }
            i = i + 1;
            assert(frame@ =~= all.take(if i < need { i as int } else { need as int }));
            assert(rest@ =~= all.subrange(
                need as int,
                if i < need { need as int } else { i as int },
            ));
        }
        assert(rest@ =~= all.skip(need as int));
        self.pcm = rest;
        Some(frame)
    }

    /// Takes the last frame of the stream out: the samples that are left,
    /// padded with silence. Where none are left it is silence alone, so that
    /// there is a page to mark as the last one.
    pub fn take_last_frame(&mut self) -> (frame: Vec<i16>)
        requires
            old(self).wf(),
            old(self)@.pcm.len() < OPUS_FRAME_SAMPLES * old(self)@.channels,
        ensures
            final(self).wf(),
            frame@ == old(self)@.pcm + Seq::new(
                (OPUS_FRAME_SAMPLES * old(self)@.channels - old(self)@.pcm.len()) as nat,
                |i: int| 0i16,
            ),
            final(self)@ == (OpusState { pcm: Seq::empty(), ..old(self)@ }),
    {
        let need: usize = OPUS_FRAME_SAMPLES * self.channels;
        let mut frame: Vec<i16> = Vec::new();
        std::mem::swap(&mut frame, &mut self.pcm);
        let ghost left = frame@;
        assert(frame@ =~= left + Seq::new(0, |i: int| 0i16));
        while frame.len() < need
            invariant
                left.len() <= frame@.len() <= need,
                frame@ == left + Seq::new((frame@.len() - left.len()) as nat, |i: int| 0i16),
            decreases need - frame@.len(),
        {
            frame.push(0);
            assert(frame@ =~= left + Seq::new((frame@.len() - left.len()) as nat, |i: int| 0i16));
        }
        frame
    }

    /// Whether another packet can be numbered.
    pub fn has_room(&self) -> (b: bool)
        requires
            self.wf(),
        ensures
            b == (self@.packets < 0xffff_fff0),
    {
        self.granule / 960 < 0xffff_fff0
    }

    /// Frames the packet that the codec made of a frame, as a page of its own;
    /// one that it could not make is left out.
    #[verifier::spinoff_prover]
    #[verifier::rlimit(50)]
    pub fn on_packet(&mut self, packet: &[u8])
        requires
            old(self).wf(),
            packet@.len() <= MAX_OPUS_PACKET,
            old(self)@.packets < 0xffff_fff0,
        ensures
            final(self).wf(),
            final(self)@ == (if packet@.len() == 0 {
                old(self)@
            } else {
                OpusState {
                    packets: old(self)@.packets + 1,
                    mux: paged(
                        old(self)@.mux,
                        packet@,
                        (960 * (old(self)@.packets + 1)) as i64,
                    ),
                    ..old(self)@
                }
            }),
    {
        if packet.len() == 0 {
            return;
        }
        proof {
            lemma_small_packet(packet@.len());
        }
        self.granule = self.granule + 960;
        self.mux.write_packet(packet, self.granule);
        proof {
            crate::ogg_mux::lemma_lacing(packet@.len());
            assert(!self.mux@.page_is_empty());
        }
        self.mux.flush();
    }

    /// Frames the packet that the codec made of the last frame, as a page that
    /// is marked as the end of the stream; one that it could not make is left
    /// out.
    #[verifier::spinoff_prover]
    #[verifier::rlimit(50)]
    pub fn on_last_packet(&mut self, packet: &[u8])
        requires
            old(self).wf(),
            packet@.len() <= MAX_OPUS_PACKET,
            old(self)@.packets < 0xffff_fff0,
        ensures
            final(self).wf(),
            final(self)@ == (if packet@.len() == 0 {
                old(self)@
            } else {
                OpusState {
                    packets: old(self)@.packets + 1,
                    mux: last_paged(
                        old(self)@.mux,
                        packet@,
                        (960 * (old(self)@.packets + 1)) as i64,
                    ),
                    ..old(self)@
                }
            }),
    {
        if packet.len() == 0 {
            return;
        }
        proof {
            lemma_small_packet(packet@.len());
        }
        self.granule = self.granule + 960;
        self.mux.write_packet(packet, self.granule);
        proof {
            crate::ogg_mux::lemma_lacing(packet@.len());
            assert(!self.mux@.page_is_empty());
        }
        self.mux.finish();
    }

    /// The bytes that are ready: the header pages where they were not sent
    /// yet, then the pages of the packets.
    pub fn take_output(&mut self) -> (out: Vec<u8>)
        requires
            old(self).wf(),
        ensures
            final(self).wf(),
            out@ == (match old(self)@.headers {
                Some(h) => h,
                None => Seq::empty(),
            }) + old(self)@.mux.pending,
            final(self)@ == (OpusState {
                headers: None,
                mux: taken(old(self)@.mux),
                ..old(self)@
            }),
    {
        let mut out: Vec<u8> = Vec::new();
        match &self.headers {
            Some(h) => append(&mut out, h.as_slice()),
            None => {},
        }
        self.headers = None;
        let pages = self.mux.take_output();
        append(&mut out, pages.as_slice());
        out
    }
}

// ---------------------------------------------------------------------------
// AAC and MP3
// ---------------------------------------------------------------------------

/// The AAC encoder's channel mode: mono or stereo.
pub open spec fn channel_mode(channels: u16) -> u32 {
    if channels == 1 {
        1
    } else {
        2
    }
}

/// The AAC encoder's channel mode: mono or stereo.
pub fn aac_channel_mode(channels: u16) -> (m: u32)
    ensures
        m == channel_mode(channels),
{
    if channels == 1 {
        1
    } else {
        2
    }
}

/// Most calls that one buffer is fed in.
pub const MAX_ENCODE_CALLS: u64 = 1_000_000;

/// How feeding goes on after a call that took `consumed` of the samples that
/// were left: until none are, the encoder fails, it takes nothing, or there
/// were too many calls.
pub open spec fn feed_goes_on(left: nat, consumed: nat, status_ok: bool, calls: nat) -> bool {
    status_ok && consumed > 0 && consumed < left && calls < MAX_ENCODE_CALLS
}

/// Feeds a buffer to an encoder that takes a part of it with each call.
#[derive(Clone, Copy, Debug)]
pub struct AacFeed {
    len: usize,
    at: usize,
    calls: u64,
    over: bool,
}

impl AacFeed {
    /// The samples of the buffer.
    pub closed spec fn total(&self) -> nat {
        self.len as nat
    }

    /// The place of the first sample that is left.
    pub closed spec fn place(&self) -> nat {
        self.at as nat
    }

    /// The calls so far.
    pub closed spec fn call_count(&self) -> nat {
        self.calls as nat
    }

    /// There is nothing more to feed.
    pub closed spec fn done(&self) -> bool {
        self.over
    }

    /// The place is in the buffer; while feeding goes on, before its end.
    pub open spec fn wf(&self) -> bool {
        &&& self.place() <= self.total()
        &&& !self.done() ==> self.place() < self.total() && self.call_count() <= MAX_ENCODE_CALLS
    }

    /// A buffer of `len` samples.
    pub fn new(len: usize) -> (f: AacFeed)
        ensures
            f.wf(),
            f.total() == len,
            f.place() == 0,
            f.call_count() == 0,
            f.done() == (len == 0),
    {
        AacFeed { len, at: 0, calls: 0, over: len == 0 }
    }

    /// The place of the samples to feed now; none where that is over.
    pub fn next(&self) -> (r: Option<usize>)
        requires
            self.wf(),
        ensures
            match r {
                Some(at) => !self.done() && at == self.place(),
                None => self.done(),
            },
    {
        if self.over {
            None
        } else {
            Some(self.at)
        }
    }

    /// A call took so many samples.
    pub fn on_call(&mut self, consumed: usize, status_ok: bool)
        requires
            old(self).wf(),
            !old(self).done(),
            status_ok ==> consumed <= old(self).total() - old(self).place(),
        ensures
            final(self).wf(),
            final(self).total() == old(self).total(),
            final(self).call_count() == old(self).call_count() + 1,
            final(self).place() == old(self).place() + (if status_ok {
                consumed as nat
            } else {
                0
            }),
            final(self).done() == !feed_goes_on(
                (old(self).total() - old(self).place()) as nat,
                consumed as nat,
                status_ok,
                old(self).call_count(),
            ),
    {
        let left: usize = self.len - self.at;
        self.over = !(status_ok && consumed > 0 && consumed < left && self.calls
            < MAX_ENCODE_CALLS);
        if status_ok {
            self.at = self.at + consumed;
        }
        self.calls = self.calls + 1;
    }
}

/// Draining an encoder goes on.
pub open spec fn drains(ended: bool, calls: u64) -> bool {
    !ended && calls <= MAX_ENCODE_CALLS
}

/// Whether draining an encoder goes on after `calls` calls, of which the last
/// one may have reported the end.
pub fn drain_goes_on(ended: bool, calls: u64) -> (b: bool)
    ensures
        b == drains(ended, calls),
{
    !ended && calls <= MAX_ENCODE_CALLS
}

/// The bitrate of an MP3 stream in kilobits: from 32 to 320.
pub open spec fn kilobits(bitrate: u32) -> u32 {
    if bitrate / 1000 < 32 {
        32
    } else if bitrate / 1000 > 320 {
        320
    } else {
        bitrate / 1000
    }
}

/// The bitrate of an MP3 stream in kilobits: from 32 to 320.
pub fn mp3_kbps(bitrate: u32) -> (kbps: u32)
    ensures
        kbps == kilobits(bitrate),
{
    let kbps: u32 = bitrate / 1000;
    if kbps < 32 {
        32
    } else if kbps > 320 {
        320
    } else {
        kbps
    }
}

/// The size of the buffer that an MP3 encoder needs for so many frames.
pub fn mp3_buffer_size(frames: usize, channels: usize) -> (n: usize)
    requires
        7200 + frames + frames * channels <= usize::MAX,
    ensures
        n == 7200 + frames + frames * channels / 4,
{
    proof {
        assert(frames * channels >= 0) by (nonlinear_arith);
    }
    7200 + frames + frames * channels / 4
}

// ---------------------------------------------------------------------------
// Laws
// ---------------------------------------------------------------------------

/// The title of the header pages can be replaced until they are sent, and
/// never afterwards: no page is ever sent that an earlier one contradicts.
pub proof fn law_headers_go_out_once(s: OpusState, title: Seq<char>)
    ensures
        ({
            let sent = OpusState { headers: None, mux: taken(s.mux), ..s };
            let retitled = OpusState {
                headers: if sent.headers is Some {
                    Some(header_pages(sent.channels, title))
                } else {
                    None
                },
                ..sent
            };
            retitled == sent
        }),
{
}

/// The header pages are numbered zero and one, and packets from two on,
/// without a gap. Left out are titles whose comment packet does not fit into
/// one page.
pub proof fn law_pages_are_numbered(channels: usize, title: Seq<char>, s: OggState, packet: Seq<u8>, granule: i64)
    requires
        opus_tags(title).len() < 255 * 255,
        s.segs.len() == 0,
        packet.len() <= MAX_OPUS_PACKET,
        s.seq < u32::MAX,
    ensures
        after_head(channels).seq == 1,
        after_tags(channels, title).seq == 2,
        paged(s, packet, granule).seq == s.seq + 1,
{
    lemma_small_packet(opus_head(opus_channels(channels)).len());
    lemma_small_packet(opus_tags(title).len());
    lemma_small_packet(packet.len());
}

/// A finished stream ends in a page that carries the last packet alone and
/// has the end flag; the page of any other packet has not.
pub proof fn law_last_page_ends_the_stream(s: OggState, packet: Seq<u8>, granule: i64)
    requires
        s.page_is_empty(),
        packet.len() <= MAX_OPUS_PACKET,
    ensures
        ({
            let last = last_paged(s, packet, granule).pending.skip(s.pending.len() as int);
            let other = paged(s, packet, granule).pending.skip(s.pending.len() as int);
            &&& page_packets(last) == seq![packet]
            &&& last[5] & 0x04 != 0
            &&& page_packets(other) == seq![packet]
            &&& other[5] & 0x04 == 0
        }),
{
    lemma_one_packet_page(s, packet, granule, true);
    lemma_one_packet_page(s, packet, granule, false);
    assert(0u8 & 0x04 == 0 && 2u8 & 0x04 == 0 && 4u8 & 0x04 != 0 && 6u8 & 0x04 != 0)
        by (bit_vector);
}

proof fn lemma_one_packet_page(s: OggState, packet: Seq<u8>, granule: i64, eos: bool)
    requires
        s.page_is_empty(),
        packet.len() <= MAX_OPUS_PACKET,
    ensures
        ({
            let p = s.written(packet, granule).sealed(eos).pending.skip(s.pending.len() as int);
            &&& page_packets(p) == seq![packet]
            &&& p[5] == (if s.bos { 2int } else { 0 }) + (if eos { 4int } else { 0 })
        }),
{
    lemma_small_packet(packet.len());
    let t = s.written(packet, granule);
    let p = t.sealed(eos).pending.skip(s.pending.len() as int);
    let all = seq![packet];
    assert(s.segs =~= lacing_all(Seq::empty()));
    assert(s.body =~= concat(Seq::empty()));
    law_page_holds_its_packets(s, Seq::empty(), packet, granule);
    assert(Seq::<Seq<u8>>::empty().push(packet) =~= all);
    assert(p =~= page(t.serial, t.seq, t.granule, t.bos, eos, t.segs, t.body));
    law_page_reads_back(t.serial, t.seq, t.granule, t.bos, eos, t.segs, t.body);
    law_packets_read_back(all);
}

/// An MP3 stream has the configured rate, cut to whole kilobits, wherever MP3
/// knows it, and the nearest known rate elsewhere.
pub proof fn law_mp3_rates(bitrate: u32)
    ensures
        32 <= kilobits(bitrate) <= 320,
        32_000 <= bitrate <= 320_000 ==> kilobits(bitrate) * 1000 <= bitrate < kilobits(bitrate)
            * 1000 + 1000,
        bitrate < 32_000 ==> kilobits(bitrate) == 32,
        bitrate > 320_000 ==> kilobits(bitrate) == 320,
{
}

/// One channel is coded as mono, and any other number as stereo; an Opus
/// stream announces its channels, two at most.
pub proof fn law_channel_modes(channels: usize)
    ensures
        channel_mode(1) == 1,
        forall|c: u16| c != 1 ==> #[trigger] channel_mode(c) == 2,
        channels <= 2 ==> opus_channels(channels) == channels,
        channels > 2 ==> opus_channels(channels) == 2,
{
}

/// An encoder is drained until it reports its end, and not for ever.
pub proof fn law_draining_ends(calls: u64)
    ensures
        !drains(true, calls),
        calls <= 1_000_000 ==> drains(false, calls),
        calls > 1_000_000 ==> !drains(false, calls),
{
}

/// A buffer is fed until the encoder has taken all of it: only its failure, a
/// call that takes nothing, or too many calls end that before.
pub proof fn law_buffers_are_fed_whole(left: nat, consumed: nat, status_ok: bool, calls: nat)
    ensures
        status_ok && 0 < consumed < left && calls < 1_000_000 ==> feed_goes_on(
            left,
            consumed,
            status_ok,
            calls,
        ),
        feed_goes_on(left, consumed, status_ok, calls) ==> status_ok && 0 < consumed < left,
{
}

/// A listener finds the identification of the stream on its first page, alone
/// and marked as its beginning, and the title on the second, alone too.
pub proof fn law_header_pages(channels: usize, title: Seq<char>)
    requires
        0 < channels <= 0xffff,
        opus_tags(title).len() <= MAX_OPUS_PACKET,
    ensures
        ({
            let first = after_head(channels).pending;
            let second = after_tags(channels, title).pending;
            &&& header_pages(channels, title) == first + second
            &&& page_packets(first) == seq![opus_head(opus_channels(channels))]
            &&& page_packets(second) == seq![opus_tags(title)]
            &&& first[5] == 2
            &&& second[5] == 0
        }),
{
    let e = Seq::<u8>::empty();
    let head = opus_head(opus_channels(channels));
    let b = blank_mux();
    assert(b.page_is_empty());
    lemma_one_packet_page(b, head, 0, false);
    let first = after_head(channels).pending;
    assert(first.skip(0) =~= first);
    let t = taken(after_head(channels));
    lemma_small_packet(head.len());
    assert(t.page_is_empty() && !t.bos);
    lemma_one_packet_page(t, opus_tags(title), 0, false);
    let second = after_tags(channels, title).pending;
    assert(second.skip(0) =~= second);
}

} // verus!
