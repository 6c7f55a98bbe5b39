//! MPEG transport stream muxing for HLS segments: the two program tables, and
//! ADTS AAC frames wrapped in PES packets on one audio PID, with periodic
//! clock references and continuity counters.

use vstd::prelude::*;
use crate::bytes::{append, be32, fill, push_be32, push_fill, slice_views};
use crate::ogg_mux::{crc32_init, crc_of};

verus! {

/// Size of every transport packet.
pub const TS_PACKET_SIZE: usize = 188;

/// First byte of every transport packet.
pub const SYNC: u8 = 0x47;

/// PID of the program association table.
pub const PAT_PID: u16 = 0x0000;

/// PID of the program map table.
pub const PMT_PID: u16 = 0x1000;

/// PID of the audio stream.
pub const AUDIO_PID: u16 = 0x1001;

/// Stream type of ADTS AAC.
pub const STREAM_TYPE_AAC: u8 = 0x0f;

/// Clock reference period, about 100 ms in 90 kHz units.
pub const PCR_INTERVAL: u64 = 9000;

/// The two bytes that encode a 13-bit PID with its reserved marker bits.
pub open spec fn pid_bytes(pid: u16) -> Seq<u8> {
    seq![(0xe0u16 | ((pid >> 8u16) & 0x1f)) as u8, (pid & 0xff) as u8]
}

/// The two bytes that encode a 13-bit PID with its reserved marker bits.
pub fn pid_hi(pid: u16) -> (out: [u8; 2])
    ensures
        out@ == pid_bytes(pid),
{
    let out = [(0xe0u16 | ((pid >> 8u16) & 0x1f)) as u8, (pid & 0xff) as u8];
    assert(out@ =~= pid_bytes(pid));
    out
}

/// A program table section, closed by its checksum.
pub open spec fn section(body: Seq<u8>) -> Seq<u8> {
    body + be32(crc_of(0xffff_ffff, body) as int)
}

/// The program association section: program 1 is mapped by the PMT.
pub open spec fn pat_section() -> Seq<u8> {
    section(
        seq![0x00u8, 0xb0, 0x0d, 0x00, 0x01, 0xc1, 0x00, 0x00, 0x00, 0x01] + pid_bytes(PMT_PID),
    )
}

/// The program map section: one ADTS AAC stream, which carries the clock.
/// Neither the program nor the stream has descriptors.
pub open spec fn pmt_section() -> Seq<u8> {
    section(
        seq![0x02u8, 0xb0, 0x12, 0x00, 0x01, 0xc1, 0x00, 0x00] + pid_bytes(AUDIO_PID) + seq![
            0xf0u8,
            0x00,
            STREAM_TYPE_AAC,
        ] + pid_bytes(AUDIO_PID) + seq![0xf0u8, 0x00],
    )
}

/// A transport packet that carries one whole section, padded with 0xff.
pub open spec fn section_packet(pid: u16, cc: u8, section: Seq<u8>) -> Seq<u8> {
    seq![
        SYNC,
        0x40u8 | (pid >> 8u16) as u8,
        (pid & 0xff) as u8,
        0x10u8 | cc,
        0x00u8,
    ] + section + fill(0xff, (TS_PACKET_SIZE - 5 - section.len()) as nat)
}

/// The next value of a 4-bit continuity counter.
pub open spec fn next_cc(cc: u8) -> u8 {
    ((cc + 1) % 16) as u8
}

/// The six bytes of a clock reference: 33 bits of base, six reserved bits and
/// a zero extension.
pub open spec fn pcr_bytes(base: u64) -> Seq<u8> {
    seq![
        (base >> 25u64) as u8,
        (base >> 17u64) as u8,
        (base >> 9u64) as u8,
        (base >> 1u64) as u8,
        (((base & 1) << 7u64) | 0x7e) as u8,
        0x00u8,
    ]
}

/// The adaptation field that leaves room for a payload shorter than the
/// packet by `slack` bytes, with a clock reference where one is given.
pub open spec fn adaptation(pcr: Option<u64>, slack: nat) -> Seq<u8> {
    match pcr {
        Some(base) => seq![(7 + slack) as u8, 0x10u8] + pcr_bytes(base) + fill(0xff, slack),
        None => if slack == 0 {
            Seq::empty()
        } else if slack == 1 {
            seq![0u8]
        } else {
            seq![(slack - 1) as u8, 0x00u8] + fill(0xff, (slack - 2) as nat)
        },
    }
}

/// Payload bytes that fit into a packet.
pub open spec fn room(pcr: Option<u64>) -> nat {
    if pcr is Some {
        176
    } else {
        184
    }
}

/// One transport packet around a piece of payload that fits.
pub open spec fn ts_packet(piece: Seq<u8>, pid: u16, first: bool, pcr: Option<u64>, cc: u8) -> Seq<
    u8,
> {
    let slack = (room(pcr) - piece.len()) as nat;
    seq![
        SYNC,
        (if first { 0x40u8 } else { 0u8 }) | (pid >> 8u16) as u8,
        (pid & 0xff) as u8,
        (if pcr is Some || slack > 0 { 0x30u8 } else { 0x10u8 }) | (cc & 0x0f),
    ] + adaptation(pcr, slack) + piece
}

/// Bytes of `payload` that the next packet takes.
pub open spec fn piece_len(payload: Seq<u8>, pcr: Option<u64>) -> nat {
    if payload.len() < room(pcr) {
        payload.len()
    } else {
        room(pcr)
    }
}

/// The packets that carry `payload`: the first one is marked as a start and
/// holds the clock reference.
pub open spec fn ts_packets(payload: Seq<u8>, pid: u16, first: bool, pcr: Option<u64>, cc: u8) -> Seq<
    Seq<u8>,
>
    decreases payload.len(),
{
    if payload.len() == 0 {
        Seq::empty()
    } else {
        let n = piece_len(payload, pcr) as int;
        seq![ts_packet(payload.take(n), pid, first, pcr, cc)] + ts_packets(
            payload.skip(n),
            pid,
            false,
            None,
            next_cc(cc),
        )
    }
}

/// The concatenated packets.
pub open spec fn joined(packets: Seq<Seq<u8>>) -> Seq<u8>
    decreases packets.len(),
{
    if packets.len() == 0 {
        Seq::empty()
    } else {
        packets[0] + joined(packets.skip(1))
    }
}

/// The continuity counter after `n` packets.
pub open spec fn cc_after(cc: u8, n: nat) -> u8
    decreases n,
{
    if n == 0 {
        cc
    } else {
        cc_after(next_cc(cc), (n - 1) as nat)
    }
}

/// The PES header of an audio frame of `len` bytes: no decode time, the
/// presentation time in five marked bytes.
pub open spec fn pes_header(len: nat, pts: u64) -> Seq<u8> {
    seq![
        0x00u8,
        0x00,
        0x01,
        0xc0,
        (((len + 8) / 256) % 256) as u8,
        ((len + 8) % 256) as u8,
        0x80,
        0x80,
        5,
    ] + pts_bytes(pts)
}

/// A 33-bit presentation time in five bytes with their marker bits.
pub open spec fn pts_bytes(pts: u64) -> Seq<u8> {
    seq![
        0x21u8 | ((pts >> 29u64) & 0x0e) as u8,
        (pts >> 22u64) as u8,
        (((pts >> 14u64) & 0xfe) | 1) as u8,
        (pts >> 7u64) as u8,
        (((pts << 1u64) & 0xfe) | 1) as u8,
    ]
}

/// What a muxer remembers between calls.
pub struct TsState {
    pub cc_pat: u8,
    pub cc_pmt: u8,
    pub cc_audio: u8,
    /// Presentation time of the last clock reference; the largest value when
    /// there was none.
    pub last_pcr: u64,
}

impl TsState {
    /// An audio frame at `pts` is due a clock reference.
    pub open spec fn wants_pcr(self, pts: u64) -> bool {
        self.last_pcr == u64::MAX || vstd::wrapping::u64_specs::wrapping_sub(pts, self.last_pcr)
            >= PCR_INTERVAL
    }

    /// The clock reference that an audio frame at `pts` carries.
    pub open spec fn pcr(self, pts: u64) -> Option<u64> {
        if self.wants_pcr(pts) {
            Some(pts)
        } else {
            None
        }
    }

    /// The packets of the two program tables.
    pub open spec fn program(self) -> Seq<u8> {
        section_packet(PAT_PID, self.cc_pat, pat_section()) + section_packet(
            PMT_PID,
            self.cc_pmt,
            pmt_section(),
        )
    }

    /// The state after the two program tables.
    pub open spec fn after_program(self) -> TsState {
        TsState { cc_pat: next_cc(self.cc_pat), cc_pmt: next_cc(self.cc_pmt), ..self }
    }

    /// The state after one audio frame.
    pub open spec fn after_audio(self, adts: Seq<u8>, pts: u64) -> TsState {
        TsState {
            cc_audio: cc_after(self.cc_audio, self.audio(adts, pts).len()),
            last_pcr: if self.wants_pcr(pts) {
                pts
            } else {
                self.last_pcr
            },
            ..self
        }
    }

    /// The packets of one audio frame.
    pub open spec fn audio(self, adts: Seq<u8>, pts: u64) -> Seq<Seq<u8>> {
        ts_packets(
            pes_header(adts.len(), pts) + adts,
            AUDIO_PID,
            true,
            self.pcr(pts),
            self.cc_audio,
        )
    }
}

/// Muxes one ADTS AAC program into transport packets.
pub struct MpegTsMuxer {
    cc_pat: u8,
    cc_pmt: u8,
    cc_audio: u8,
    last_pcr_pts: u64,
}

impl View for MpegTsMuxer {
    type V = TsState;

    closed spec fn view(&self) -> TsState {
        TsState {
            cc_pat: self.cc_pat,
            cc_pmt: self.cc_pmt,
            cc_audio: self.cc_audio,
            last_pcr: self.last_pcr_pts,
        }
    }
}

impl MpegTsMuxer {
    /// The continuity counters are 4-bit numbers.
    pub open spec fn wf(&self) -> bool {
        self@.cc_pat < 16 && self@.cc_pmt < 16 && self@.cc_audio < 16
    }

    /// A muxer at the start of a stream.
    pub fn new() -> (mux: MpegTsMuxer)
        ensures
            mux.wf(),
            mux@ == (TsState { cc_pat: 0, cc_pmt: 0, cc_audio: 0, last_pcr: u64::MAX }),
    {
        MpegTsMuxer { cc_pat: 0, cc_pmt: 0, cc_audio: 0, last_pcr_pts: u64::MAX }
    }

    /// Appends the two program tables, one packet each, so that a player that
    /// joins here can synchronise.
    pub fn write_program(&mut self, out: &mut Vec<u8>)
        requires
            old(self).wf(),
        ensures
            final(self).wf(),
            final(self)@ == old(self)@.after_program(),
            final(out)@ == old(out)@ + old(self)@.program(),
    {
        let mut pat: Vec<u8> = Vec::new();
        append(&mut pat, &[0x00, 0xb0, 0x0d, 0x00, 0x01, 0xc1, 0x00, 0x00, 0x00, 0x01]);
        append(&mut pat, &pid_hi(PMT_PID));
        let pat = close_section(pat);
        assert(pat@ == pat_section());

        let mut pmt: Vec<u8> = Vec::new();
        append(&mut pmt, &[0x02, 0xb0, 0x12, 0x00, 0x01, 0xc1, 0x00, 0x00]);
        append(&mut pmt, &pid_hi(AUDIO_PID));
        append(&mut pmt, &[0xf0, 0x00, STREAM_TYPE_AAC]);
        append(&mut pmt, &pid_hi(AUDIO_PID));
        append(&mut pmt, &[0xf0, 0x00]);
        let pmt = close_section(pmt);
        assert(pmt@ == pmt_section());

        push_section(out, PAT_PID, self.cc_pat, pat.as_slice());
        self.cc_pat = bump(self.cc_pat);
        push_section(out, PMT_PID, self.cc_pmt, pmt.as_slice());
        self.cc_pmt = bump(self.cc_pmt);
        assert(out@ =~= old(out)@ + old(self)@.program());
    }

    /// Wraps one ADTS frame in a PES packet and appends its transport
    /// packets, with a clock reference about every 100 ms. `pts_90k` is the
    /// presentation time of the frame's first sample.
    pub fn push_audio(&mut self, adts: &[u8], pts_90k: u64, out: &mut Vec<u8>)
        requires
            old(self).wf(),
            adts@.len() + 22 <= usize::MAX,
        ensures
            final(self).wf(),
            final(self)@ == old(self)@.after_audio(adts@, pts_90k),
            final(out)@ == old(out)@ + joined(old(self)@.audio(adts@, pts_90k)),
    {
        let mut pes: Vec<u8> = Vec::new();
        let pes_len: usize = adts.len() + 8;
        append(&mut pes, &[0x00, 0x00, 0x01, 0xc0]);
        pes.push(((pes_len / 256) % 256) as u8);
        pes.push((pes_len % 256) as u8);
        append(&mut pes, &[0x80, 0x80, 5]);
        pes.push(0x21u8 | ((pts_90k >> 29u64) & 0x0e) as u8);
        pes.push((pts_90k >> 22u64) as u8);
        pes.push((((pts_90k >> 14u64) & 0xfe) | 1) as u8);
        pes.push((pts_90k >> 7u64) as u8);
        pes.push((((pts_90k << 1u64) & 0xfe) | 1) as u8);
        assert(pes@ =~= pes_header(adts@.len(), pts_90k));
        append(&mut pes, adts);

        let with_pcr = self.last_pcr_pts == u64::MAX || pts_90k.wrapping_sub(self.last_pcr_pts)
            >= PCR_INTERVAL;
        let pcr: Option<u64> = if with_pcr { Some(pts_90k) } else { None };
        self.cc_audio = packetize(pes.as_slice(), AUDIO_PID, pcr, self.cc_audio, out);
        if with_pcr {
            self.last_pcr_pts = pts_90k;
        }
    }
}

impl Default for MpegTsMuxer {
    fn default() -> (mux: MpegTsMuxer)
        ensures
            mux.wf(),
            mux@ == (TsState { cc_pat: 0, cc_pmt: 0, cc_audio: 0, last_pcr: u64::MAX }),
    {
        MpegTsMuxer::new()
    }
}

fn bump(cc: u8) -> (next: u8)
    requires
        cc < 16,
    ensures
        next == next_cc(cc),
        next < 16,
{
    (cc + 1) % 16
}

fn close_section(body: Vec<u8>) -> (out: Vec<u8>)
    ensures
        out@ == section(body@),
{
    let crc = crc32_init(0xffff_ffff, body.as_slice(), &[]);
    proof {
        assert(body@ + Seq::<u8>::empty() =~= body@);
    }
    let mut out = body;
    push_be32(&mut out, crc);
    out
}

fn push_section(out: &mut Vec<u8>, pid: u16, cc: u8, section: &[u8])
    requires
        section@.len() <= 183,
    ensures
        final(out)@ == old(out)@ + section_packet(pid, cc, section@),
{
    out.push(SYNC);
    out.push(0x40u8 | (pid >> 8u16) as u8);
    out.push((pid & 0xff) as u8);
    out.push(0x10u8 | cc);
    out.push(0x00);
    append(out, section);
    push_fill(out, 0xff, 183 - section.len());
    assert(out@ =~= old(out)@ + section_packet(pid, cc, section@));
}

/// Slices `payload` into transport packets, the first one marked as a start
/// and stamped with the clock reference, and returns the next value of the
/// continuity counter. Trailing space becomes a stuffing adaptation field.
pub fn packetize(payload: &[u8], pid: u16, pcr: Option<u64>, cc: u8, out: &mut Vec<u8>) -> (next:
    u8)
    requires
        cc < 16,
    ensures
        next < 16,
        next == cc_after(cc, ts_packets(payload@, pid, true, pcr, cc).len()),
        final(out)@ == old(out)@ + joined(ts_packets(payload@, pid, true, pcr, cc)),
{
    let ghost all = ts_packets(payload@, pid, true, pcr, cc);
    let mut cc_now: u8 = cc;
    let mut pcr_now: Option<u64> = pcr;
    let mut at: usize = 0;
    let mut first = true;
    proof {
        assert(payload@.skip(0) =~= payload@);
    }
    while at < payload.len()
        invariant
            at <= payload@.len(),
            cc_now < 16,
            all == ts_packets(payload@, pid, true, pcr, cc),
            ({
                let rest = ts_packets(payload@.skip(at as int), pid, first, pcr_now, cc_now);
                &&& old(out)@ + joined(all) == out@ + joined(rest)
                &&& cc_after(cc, all.len()) == cc_after(cc_now, rest.len())
            }),
        decreases payload@.len() - at,
    {
        let ghost left = payload@.skip(at as int);
        let ghost rest = ts_packets(left, pid, first, pcr_now, cc_now);
        let space: usize = if pcr_now.is_some() { 176 } else { 184 };
        let take: usize = if payload.len() - at < space { payload.len() - at } else { space };
        let ghost before = out@;
        let piece = vstd::slice::slice_subrange(payload, at, at + take);
        push_packet(out, piece, pid, first, pcr_now, cc_now);
        proof {
            let packet = ts_packet(left.take(take as int), pid, first, pcr_now, cc_now);
            assert(piece@ =~= left.take(take as int));
            assert(out@ == before + packet);
            let tail = ts_packets(left.skip(take as int), pid, false, None, next_cc(cc_now));
            assert(rest == seq![packet] + tail);
            assert(rest.skip(1) =~= tail);
            assert(left.skip(take as int) =~= payload@.skip(at + take));
            assert(before + (packet + joined(tail)) =~= out@ + joined(tail));
        }
        cc_now = bump(cc_now);
        at = at + take;
        first = false;
        pcr_now = None;
    }
    proof {
        assert(out@ + joined(Seq::empty()) =~= out@);
    }
    cc_now
}

fn push_packet(
    out: &mut Vec<u8>,
    piece: &[u8],
    pid: u16,
    first: bool,
    pcr: Option<u64>,
    cc: u8,
)
    requires
        piece@.len() <= room(pcr),
    ensures
        final(out)@ == old(out)@ + ts_packet(piece@, pid, first, pcr, cc),
{
    let space: usize = if pcr.is_some() { 176 } else { 184 };
    let slack: usize = space - piece.len();
    out.push(SYNC);
    out.push((if first { 0x40u8 } else { 0u8 }) | (pid >> 8u16) as u8);
    out.push((pid & 0xff) as u8);
    out.push((if pcr.is_some() || slack > 0 { 0x30u8 } else { 0x10u8 }) | (cc & 0x0f));
    push_adaptation(out, pcr, slack);
    append(out, piece);
    assert(out@ =~= old(out)@ + ts_packet(piece@, pid, first, pcr, cc));
}

fn push_adaptation(out: &mut Vec<u8>, pcr: Option<u64>, slack: usize)
    requires
        slack <= 184,
        pcr is Some ==> slack <= 176,
    ensures
        final(out)@ == old(out)@ + adaptation(pcr, slack as nat),
{
    match pcr {
        Some(base) => {
            out.push((7 + slack) as u8);
            out.push(0x10);
            out.push((base >> 25u64) as u8);
            out.push((base >> 17u64) as u8);
            out.push((base >> 9u64) as u8);
            out.push((base >> 1u64) as u8);
            out.push((((base & 1) << 7u64) | 0x7e) as u8);
            out.push(0x00);
            push_fill(out, 0xff, slack);
        },
        None => {
            if slack == 1 {
                out.push(0);
            } else if slack > 1 {
                out.push((slack - 1) as u8);
                out.push(0x00);
                push_fill(out, 0xff, slack - 2);
            }
        },
    }
    assert(out@ =~= old(out)@ + adaptation(pcr, slack as nat));
}

// ---------------------------------------------------------------------------
// ADTS
// ---------------------------------------------------------------------------

/// The frame length that the ADTS header at `i` gives.
pub open spec fn adts_len(data: Seq<u8>, i: int) -> int {
    (data[i + 3] % 4) * 2048 + data[i + 4] * 8 + data[i + 5] / 32
}

/// An ADTS header starts at `i` and its frame lies whole in `data`.
pub open spec fn adts_frame_at(data: Seq<u8>, i: int) -> bool {
    &&& i + 7 <= data.len()
    &&& data[i] == 0xff
    &&& data[i + 1] & 0xf6 == 0xf0
    &&& adts_len(data, i) >= 7
    &&& i + adts_len(data, i) <= data.len()
}

/// The frames of `data` from `i` on: a frame where one starts, the next byte
/// tried where none does.
pub open spec fn adts_frames(data: Seq<u8>, i: int) -> Seq<Seq<u8>>
    decreases data.len() - i,
{
    if i < 0 || i + 7 > data.len() {
        Seq::empty()
    } else if adts_frame_at(data, i) {
        seq![data.subrange(i, i + adts_len(data, i))] + adts_frames(data, i + adts_len(data, i))
    } else {
        adts_frames(data, i + 1)
    }
}

/// Splits a buffer of consecutive ADTS frames into individual frames, and
/// searches for the next sync word where a frame boundary is missed.
pub fn split_adts(data: &[u8]) -> (out: Vec<&[u8]>)
    ensures
        slice_views(out@) == adts_frames(data@, 0),
{
    let mut out: Vec<&[u8]> = Vec::new();
    let mut i: usize = 0;
    proof {
        assert(slice_views(out@) + adts_frames(data@, 0) =~= adts_frames(data@, 0));
    }
    while data.len() >= 7 && i <= data.len() - 7
        invariant
            i <= data@.len(),
            slice_views(out@) + adts_frames(data@, i as int) == adts_frames(data@, 0),
        decreases data@.len() - i,
    {
        let mut step: usize = 1;
        let ghost done = slice_views(out@);
        if data[i] == 0xff && (data[i + 1] & 0xf6) == 0xf0 {
            let len: usize = ((data[i + 3] % 4) as usize) * 2048 + (data[i + 4] as usize) * 8 + (
            data[i + 5] / 32) as usize;
            if len >= 7 && len <= data.len() - i {
                let frame = vstd::slice::slice_subrange(data, i, i + len);
                out.push(frame);
                step = len;
                proof {
                    assert(adts_frame_at(data@, i as int));
                    assert(slice_views(out@) =~= done + seq![frame@]);
                    assert(slice_views(out@) + adts_frames(data@, i + len) =~= done + (seq![frame@]
                        + adts_frames(data@, i + len)));
                }
            }
        }
        i = i + step;
    }
    proof {
        assert(adts_frames(data@, i as int) =~= Seq::empty());
        assert(slice_views(out@) + Seq::empty() =~= slice_views(out@));
    }
    out
}

// ---------------------------------------------------------------------------
// Laws
// ---------------------------------------------------------------------------

/// How a demuxer finds the payload of a packet: behind the header, and behind
/// the adaptation field where the header announces one.
pub open spec fn packet_payload(packet: Seq<u8>) -> Seq<u8> {
    if packet[3] & 0x20 != 0 {
        packet.skip(5 + packet[4] as int)
    } else {
        packet.skip(4)
    }
}

/// The payload of consecutive packets.
pub open spec fn stream_payload(packets: Seq<Seq<u8>>) -> Seq<u8>
    decreases packets.len(),
{
    if packets.len() == 0 {
        Seq::empty()
    } else {
        packet_payload(packets[0]) + stream_payload(packets.skip(1))
    }
}

/// Every packet around a piece that fits is 188 bytes long, starts with the
/// sync byte, carries its PID and continuity counter, and a demuxer reads the
/// piece back from it.
pub proof fn law_packet(piece: Seq<u8>, pid: u16, first: bool, pcr: Option<u64>, cc: u8)
    requires
        piece.len() <= room(pcr),
        pid < 0x2000,
        cc < 16,
    ensures
        ({
            let p = ts_packet(piece, pid, first, pcr, cc);
            &&& p.len() == TS_PACKET_SIZE
            &&& p[0] == SYNC
            &&& p[1] & 0x40 != 0 <==> first
            &&& (p[1] & 0x1f) * 256 + p[2] == pid
            &&& p[3] & 0x0f == cc
            &&& packet_payload(p) == piece
        }),
{
    let p = ts_packet(piece, pid, first, pcr, cc);
    let slack = (room(pcr) - piece.len()) as nat;
    let has_field = pcr is Some || slack > 0;
    let mark: u8 = if first { 0x40u8 } else { 0u8 };
    let ctrl: u8 = if has_field { 0x30u8 } else { 0x10u8 };
    assert(p[1] == mark | (pid >> 8u16) as u8);
    assert(p[2] == (pid & 0xff) as u8);
    assert(p[3] == ctrl | (cc & 0x0f));
    assert((mark | (pid >> 8u16) as u8) & 0x40 != 0 <==> mark == 0x40) by (bit_vector)
        requires
            pid < 0x2000,
            mark == 0x40 || mark == 0,
    ;
    assert(((mark | (pid >> 8u16) as u8) & 0x1f) * 256 + (pid & 0xff) as u8 == pid) by (bit_vector)
        requires
            pid < 0x2000,
            mark == 0x40 || mark == 0,
    ;
    assert((ctrl | (cc & 0x0f)) & 0x0f == cc && ((ctrl | (cc & 0x0f)) & 0x20 != 0 <==> ctrl == 0x30))
        by (bit_vector)
        requires
            cc < 16,
            ctrl == 0x30 || ctrl == 0x10,
    ;
    assert(packet_payload(p) =~= piece);
}

/// Packetizing loses nothing: the payloads of the packets, joined, are the
/// payload that was sliced; every packet is 188 bytes and synchronised; the
/// first packet alone is marked as a start; the counter steps by one.
pub proof fn law_packets(payload: Seq<u8>, pid: u16, first: bool, pcr: Option<u64>, cc: u8)
    requires
        pid < 0x2000,
        cc < 16,
    ensures
        ({
            let packets = ts_packets(payload, pid, first, pcr, cc);
            &&& stream_payload(packets) == payload
            &&& joined(packets).len() == TS_PACKET_SIZE * packets.len()
            &&& forall|i: int|
                0 <= i < packets.len() ==> {
                    &&& (#[trigger] packets[i]).len() == TS_PACKET_SIZE
                    &&& packets[i][0] == SYNC
                    &&& (packets[i][1] & 0x40 != 0 <==> first && i == 0)
                    &&& (packets[i][1] & 0x1f) * 256 + packets[i][2] == pid
                    &&& packets[i][3] & 0x0f == (cc + i) % 16
                }
        }),
    decreases payload.len(),
{
    let packets = ts_packets(payload, pid, first, pcr, cc);
    if payload.len() > 0 {
        let n = piece_len(payload, pcr) as int;
        let head = ts_packet(payload.take(n), pid, first, pcr, cc);
        let tail = ts_packets(payload.skip(n), pid, false, None, next_cc(cc));
        law_packet(payload.take(n), pid, first, pcr, cc);
        law_packets(payload.skip(n), pid, false, None, next_cc(cc));
        assert(packets.skip(1) =~= tail);
        assert(payload.take(n) + payload.skip(n) =~= payload);
        assert forall|i: int| 0 <= i < packets.len() implies {
            &&& (#[trigger] packets[i]).len() == TS_PACKET_SIZE
            &&& packets[i][0] == SYNC
            &&& (packets[i][1] & 0x40 != 0 <==> first && i == 0)
            &&& (packets[i][1] & 0x1f) * 256 + packets[i][2] == pid
            &&& packets[i][3] & 0x0f == (cc + i) % 16
        } by {
            if i > 0 {
                assert(packets[i] == tail[i - 1]);
            }
        }
    }
}

/// The presentation time that the five marked bytes hold.
pub open spec fn read_pts(b: Seq<u8>) -> int {
    ((b[0] / 2) % 8) * 0x4000_0000 + b[1] * 0x40_0000 + (b[2] / 2) * 0x8000 + b[3] * 0x80 + b[4] / 2
}

/// A player reads back the presentation time modulo 2^33, the width of the
/// field.
pub proof fn law_pts_reads_back(pts: u64)
    ensures
        read_pts(pts_bytes(pts)) == pts % 0x2_0000_0000,
{
    let b0: u8 = 0x21u8 | ((pts >> 29u64) & 0x0e) as u8;
    let b1: u8 = (pts >> 22u64) as u8;
    let b2: u8 = (((pts >> 14u64) & 0xfe) | 1) as u8;
    let b3: u8 = (pts >> 7u64) as u8;
    let b4: u8 = (((pts << 1u64) & 0xfe) | 1) as u8;
    assert(((b0 / 2) % 8) as u64 * 0x4000_0000 + b1 as u64 * 0x40_0000 + (b2 / 2) as u64 * 0x8000
        + b3 as u64 * 0x80 + (b4 / 2) as u64 == pts % 0x2_0000_0000) by (bit_vector)
        requires
            b0 == 0x21u8 | ((pts >> 29u64) & 0x0e) as u8,
            b1 == (pts >> 22u64) as u8,
            b2 == (((pts >> 14u64) & 0xfe) | 1) as u8,
            b3 == (pts >> 7u64) as u8,
            b4 == (((pts << 1u64) & 0xfe) | 1) as u8,
    ;
    assert(pts_bytes(pts) =~= seq![b0, b1, b2, b3, b4]);
}

/// The program tables fill exactly two packets, which carry the PIDs of the
/// tables and are marked as starts. Both descriptor lengths of the program
/// map are zero.
pub proof fn law_program_packets(state: TsState)
    requires
        state.cc_pat < 16,
        state.cc_pmt < 16,
    ensures
        ({
            let out = state.program();
            &&& out.len() == 2 * TS_PACKET_SIZE
            &&& out[0] == SYNC && out[188] == SYNC
            &&& out[1] & 0x40 != 0 && out[189] & 0x40 != 0
            &&& (out[1] & 0x1f) * 256 + out[2] == PAT_PID
            &&& (out[189] & 0x1f) * 256 + out[190] == PMT_PID
            &&& (out[203] % 16) * 256 + out[204] == 0
            &&& (out[208] % 16) * 256 + out[209] == 0
        }),
{
    assert(0x40u8 | (0x0000u16 >> 8u16) as u8 == 0x40 && 0x40u8 | (0x1000u16 >> 8u16) as u8 == 0x50
        && 0x40u8 & 0x40 != 0 && 0x50u8 & 0x40 != 0 && 0x40u8 & 0x1f == 0 && 0x50u8 & 0x1f == 0x10
        && (0x0000u16 & 0xff) as u8 == 0 && (0x1000u16 & 0xff) as u8 == 0) by (bit_vector);
}

/// A 13-bit PID in two bytes.
pub open spec fn read_pid(hi: u8, lo: u8) -> int {
    (hi % 32) * 256 + lo
}

/// A 12-bit length in two bytes.
pub open spec fn read_length(hi: u8, lo: u8) -> int {
    (hi % 16) * 256 + lo
}

/// The PID that a packet carries.
pub open spec fn packet_pid(packet: Seq<u8>) -> int {
    read_pid(packet[1], packet[2])
}

/// How a demuxer finds the section in a packet: behind the pointer field, as
/// long as it says itself.
pub open spec fn packet_section(packet: Seq<u8>) -> Seq<u8> {
    let at = 5 + packet[4] as int;
    packet.subrange(at, at + 3 + read_length(packet[at + 1], packet[at + 2]))
}

/// The last four bytes of a section are the checksum of the others.
pub open spec fn checked(section: Seq<u8>) -> bool {
    let body = section.take(section.len() - 4);
    section.len() >= 4 && section == body + be32(crc_of(0xffff_ffff, body) as int)
}

/// A section that applies now, the only one of its table.
pub open spec fn sole_section(section: Seq<u8>) -> bool {
    &&& section[1] >= 0x80
    &&& section[5] % 2 == 1
    &&& section[6] == 0
    &&& section[7] == 0
}

/// A demuxer that starts from PID 0 finds the audio: the program association
/// section leads to the PID of the second packet, whose program map section
/// names one stream of ADTS AAC, and the PID of that stream, which also
/// carries the clock, is that of every packet of every audio frame. Both
/// sections reach exactly to their checksums.
pub proof fn law_demuxer_finds_the_audio(state: TsState, later: TsState, adts: Seq<u8>, pts: u64)
    requires
        state.cc_pat < 16,
        state.cc_pmt < 16,
        later.cc_audio < 16,
    ensures
        ({
            let out = state.program();
            let first = out.take(188);
            let second = out.skip(188);
            let pat = packet_section(first);
            let pmt = packet_section(second);
            let info = read_length(pmt[10], pmt[11]);
            let stream = read_pid(pmt[13 + info], pmt[14 + info]);
            &&& second.len() == 188
            &&& first[0] == 0x47 && second[0] == 0x47
            &&& packet_pid(first) == 0
            &&& first[3] % 16 == state.cc_pat && second[3] % 16 == state.cc_pmt
            &&& pat.len() == 16 && checked(pat) && sole_section(pat)
            &&& pat[0] == 0
            &&& pat[8] * 256 + pat[9] > 0
            &&& packet_pid(second) == read_pid(pat[10], pat[11])
            &&& checked(pmt) && sole_section(pmt)
            &&& pmt[0] == 2
            &&& pmt[3] == pat[8] && pmt[4] == pat[9]
            &&& info == 0
            &&& pmt.len() == 12 + info + 5 + read_length(pmt[15 + info], pmt[16 + info]) + 4
            &&& pmt[12 + info] == 0x0f
            &&& read_pid(pmt[8], pmt[9]) == stream
            &&& stream != packet_pid(first) && stream != packet_pid(second)
            &&& forall|i: int|
                0 <= i < later.audio(adts, pts).len() ==> packet_pid(
                    #[trigger] later.audio(adts, pts)[i],
                ) == stream
        }),
{
    let cp: u8 = state.cc_pat;
    let cm: u8 = state.cc_pmt;
    assert((0x10u8 | cp) % 16 == cp && (0x10u8 | cm) % 16 == cm) by (bit_vector)
        requires
            cp < 16,
            cm < 16,
    ;
    assert(0x40u8 | (0x0000u16 >> 8u16) as u8 == 0x40 && 0x40u8 | (0x1000u16 >> 8u16) as u8 == 0x50
        && (0x0000u16 & 0xff) as u8 == 0 && (0x1000u16 & 0xff) as u8 == 0) by (bit_vector);
    assert((0xe0u16 | ((0x1000u16 >> 8u16) & 0x1f)) as u8 == 0xf0 && (0xe0u16 | ((0x1001u16
        >> 8u16) & 0x1f)) as u8 == 0xf0 && (0x1001u16 & 0xff) as u8 == 1) by (bit_vector);
    let out = state.program();
    let first = out.take(188);
    let second = out.skip(188);
    assert(first =~= section_packet(PAT_PID, cp, pat_section()));
    assert(second =~= section_packet(PMT_PID, cm, pmt_section()));
    assert(first[4] == 0 && second[4] == 0);
    let pat = packet_section(first);
    let pmt = packet_section(second);
    assert(first[7] == 0x0d && second[7] == 0x12);
    assert(pat =~= pat_section());
    assert(pmt =~= pmt_section());
    let pat_body = seq![0x00u8, 0xb0, 0x0d, 0x00, 0x01, 0xc1, 0x00, 0x00, 0x00, 0x01] + pid_bytes(
        PMT_PID,
    );
    assert(pat.take(12) =~= pat_body);
    let pmt_body = seq![0x02u8, 0xb0, 0x12, 0x00, 0x01, 0xc1, 0x00, 0x00] + pid_bytes(AUDIO_PID)
        + seq![0xf0u8, 0x00, STREAM_TYPE_AAC] + pid_bytes(AUDIO_PID) + seq![0xf0u8, 0x00];
    assert(pmt.take(17) =~= pmt_body);
    let packets = later.audio(adts, pts);
    law_packets(
        pes_header(adts.len(), pts) + adts,
        AUDIO_PID,
        true,
        later.pcr(pts),
        later.cc_audio,
    );
    assert forall|i: int| 0 <= i < packets.len() implies packet_pid(#[trigger] packets[i]) == 0x1001
        by {
        let b: u8 = packets[i][1];
        assert(b & 0x1f == b % 32) by (bit_vector);
    }
}

/// A player gets every audio frame back from its packets, with its time: the
/// payload of the packets is one elementary packet of an audio stream, which
/// says its length where that fits into its field, carries the presentation
/// time and nothing else in its header, and then exactly the frame. The
/// continuity counter goes on from packet to packet and from frame to frame.
pub proof fn law_audio_frame_reads_back(state: TsState, adts: Seq<u8>, pts: u64)
    requires
        state.cc_audio < 16,
    ensures
        ({
            let packets = state.audio(adts, pts);
            let pes = stream_payload(packets);
            &&& pes.len() == 14 + adts.len()
            &&& pes[0] == 0 && pes[1] == 0 && pes[2] == 1
            &&& 0xc0 <= pes[3] <= 0xdf
            &&& adts.len() + 8 < 65_536 ==> pes[4] * 256 + pes[5] == pes.len() - 6
            &&& pes[6] / 64 == 2
            &&& pes[7] / 64 == 2 && pes[7] % 64 == 0
            &&& pes.skip(9 + pes[8] as int) == adts
            &&& read_pts(pes.subrange(9, 14)) == pts % 0x2_0000_0000
            &&& packets.len() > 0
            &&& forall|i: int|
                0 <= i < packets.len() ==> {
                    &&& (#[trigger] packets[i]).len() == 188
                    &&& packets[i][0] == 0x47
                    &&& packets[i][1] & 0x40 != 0 <==> i == 0
                    &&& packets[i][3] & 0x0f == (state.cc_audio + i) % 16
                }
            &&& state.after_audio(adts, pts).cc_audio == (state.cc_audio + packets.len()) % 16
            &&& state.after_audio(adts, pts).cc_pat == state.cc_pat
            &&& state.after_audio(adts, pts).cc_pmt == state.cc_pmt
        }),
{
    let payload = pes_header(adts.len(), pts) + adts;
    law_packets(payload, AUDIO_PID, true, state.pcr(pts), state.cc_audio);
    lemma_packets_pcr(payload, AUDIO_PID, true, state.pcr(pts), state.cc_audio);
    law_pts_reads_back(pts);
    assert(payload.subrange(9, 14) =~= pts_bytes(pts));
    assert(payload.skip(14) =~= adts);
    lemma_counts(state.cc_audio, state.audio(adts, pts).len());
}

proof fn lemma_counts(cc: u8, n: nat)
    requires
        cc < 16,
    ensures
        cc_after(cc, n) == (cc + n) % 16,
    decreases n,
{
    if n > 0 {
        lemma_counts(next_cc(cc), (n - 1) as nat);
    }
}

/// The program tables can be repeated: each time both packets carry the next
/// counter, and the audio is not touched.
pub proof fn law_tables_can_be_repeated(state: TsState)
    requires
        state.cc_pat < 16,
        state.cc_pmt < 16,
    ensures
        ({
            let a = state.program();
            let next = state.after_program();
            let b = next.program();
            &&& b[3] % 16 == (a[3] % 16 + 1) % 16
            &&& b[191] % 16 == (a[191] % 16 + 1) % 16
            &&& next.cc_audio == state.cc_audio
            &&& next.last_pcr == state.last_pcr
        }),
{
    let next = state.after_program();
    let (a, b) = (state.cc_pat, state.cc_pmt);
    let (c, d) = (next.cc_pat, next.cc_pmt);
    assert((0x10u8 | a) % 16 == a && (0x10u8 | b) % 16 == b && (0x10u8 | c) % 16 == c && (0x10u8
        | d) % 16 == d) by (bit_vector)
        requires
            a < 16,
            b < 16,
            c < 16,
            d < 16,
    ;
    assert(state.program()[191] == 0x10u8 | b);
    assert(next.program()[191] == 0x10u8 | d);
}

/// A packet has an adaptation field with a clock reference.
pub open spec fn has_pcr(packet: Seq<u8>) -> bool {
    packet[3] & 0x20 != 0 && packet[4] > 0 && packet[5] & 0x10 != 0
}

/// The base of the clock reference of a packet.
pub open spec fn read_pcr(packet: Seq<u8>) -> int {
    packet[6] * 0x200_0000 + packet[7] * 0x2_0000 + packet[8] * 0x200 + packet[9] * 2 + packet[10]
        / 0x80
}

proof fn lemma_packet_pcr(piece: Seq<u8>, pid: u16, first: bool, pcr: Option<u64>, cc: u8)
    requires
        piece.len() <= room(pcr),
        cc < 16,
    ensures
        ({
            let p = ts_packet(piece, pid, first, pcr, cc);
            &&& has_pcr(p) <==> pcr is Some
            &&& pcr matches Some(base) ==> read_pcr(p) == base % 0x2_0000_0000
        }),
{
    let p = ts_packet(piece, pid, first, pcr, cc);
    let slack = (room(pcr) - piece.len()) as nat;
    let ctrl: u8 = if pcr is Some || slack > 0 { 0x30u8 } else { 0x10u8 };
    assert(p[3] == ctrl | (cc & 0x0f));
    assert((ctrl | (cc & 0x0f)) & 0x20 != 0 <==> ctrl == 0x30) by (bit_vector)
        requires
            cc < 16,
            ctrl == 0x30 || ctrl == 0x10,
    ;
    assert(0x10u8 & 0x10 != 0 && 0x00u8 & 0x10 == 0) by (bit_vector);
    match pcr {
        Some(base) => {
            assert(p[4] == 7 + slack);
            assert(p[5] == 0x10);
            let b0: u8 = (base >> 25u64) as u8;
            let b1: u8 = (base >> 17u64) as u8;
            let b2: u8 = (base >> 9u64) as u8;
            let b3: u8 = (base >> 1u64) as u8;
            let b4: u8 = (((base & 1) << 7u64) | 0x7e) as u8;
            assert(p[6] == b0 && p[7] == b1 && p[8] == b2 && p[9] == b3 && p[10] == b4);
            assert(b0 as u64 * 0x200_0000 + b1 as u64 * 0x2_0000 + b2 as u64 * 0x200 + b3 as u64
                * 2 + (b4 / 0x80) as u64 == base % 0x2_0000_0000) by (bit_vector)
                requires
                    b0 == (base >> 25u64) as u8,
                    b1 == (base >> 17u64) as u8,
                    b2 == (base >> 9u64) as u8,
                    b3 == (base >> 1u64) as u8,
                    b4 == (((base & 1) << 7u64) | 0x7e) as u8,
            ;
        },
        None => {
            if slack == 1 {
                assert(p[4] == 0);
            } else if slack > 1 {
                assert(p[5] == 0);
            }
        },
    }
}

proof fn lemma_packets_pcr(payload: Seq<u8>, pid: u16, first: bool, pcr: Option<u64>, cc: u8)
    requires
        cc < 16,
    ensures
        ({
            let packets = ts_packets(payload, pid, first, pcr, cc);
            &&& packets.len() > 0 <==> payload.len() > 0
            &&& packets.len() > 0 ==> (has_pcr(packets[0]) <==> pcr is Some)
            &&& packets.len() > 0 ==> (pcr matches Some(base) ==> read_pcr(packets[0]) == base
                % 0x2_0000_0000)
            &&& forall|k: int| 0 < k < packets.len() ==> !has_pcr(#[trigger] packets[k])
        }),
    decreases payload.len(),
{
    let packets = ts_packets(payload, pid, first, pcr, cc);
    if payload.len() > 0 {
        let n = piece_len(payload, pcr) as int;
        let tail = ts_packets(payload.skip(n), pid, false, None, next_cc(cc));
        lemma_packet_pcr(payload.take(n), pid, first, pcr, cc);
        lemma_packets_pcr(payload.skip(n), pid, false, None, next_cc(cc));
        assert forall|k: int| 0 < k < packets.len() implies !has_pcr(#[trigger] packets[k]) by {
            assert(packets[k] == tail[k - 1]);
        }
    }
}

proof fn lemma_cc_after(cc: u8, n: nat)
    requires
        cc < 16,
    ensures
        cc_after(cc, n) < 16,
    decreases n,
{
    if n > 0 {
        lemma_cc_after(next_cc(cc), (n - 1) as nat);
    }
}

/// The state of a new muxer after a series of audio frames, each with its
/// presentation time.
pub open spec fn after_frames(frames: Seq<(Seq<u8>, u64)>) -> TsState
    decreases frames.len(),
{
    if frames.len() == 0 {
        TsState { cc_pat: 0, cc_pmt: 0, cc_audio: 0, last_pcr: u64::MAX }
    } else {
        after_frames(frames.drop_last()).after_audio(frames.last().0, frames.last().1)
    }
}

/// A frame at `pts` is due a clock reference, the latest one being at `last`.
pub open spec fn reference_due(last: Option<u64>, pts: u64) -> bool {
    match last {
        None => true,
        Some(q) => pts - q >= PCR_INTERVAL,
    }
}

/// The time of the latest clock reference among a series of frames: every
/// frame that is due one carries it.
pub open spec fn latest_reference(frames: Seq<(Seq<u8>, u64)>) -> Option<u64>
    decreases frames.len(),
{
    if frames.len() == 0 {
        None
    } else {
        let last = latest_reference(frames.drop_last());
        if reference_due(last, frames.last().1) {
            Some(frames.last().1)
        } else {
            last
        }
    }
}

/// The times of the frames never go backwards, and stay below the largest
/// value.
pub open spec fn timed(frames: Seq<(Seq<u8>, u64)>) -> bool {
    &&& forall|i: int, j: int| 0 <= i <= j < frames.len() ==> frames[i].1 <= frames[j].1
    &&& forall|i: int| 0 <= i < frames.len() ==> (#[trigger] frames[i]).1 < u64::MAX
}

proof fn lemma_reference_kept(frames: Seq<(Seq<u8>, u64)>)
    requires
        timed(frames),
    ensures
        after_frames(frames).cc_audio < 16,
        match latest_reference(frames) {
            None => frames.len() == 0 && after_frames(frames).last_pcr == u64::MAX,
            Some(q) => {
                &&& after_frames(frames).last_pcr == q
                &&& frames.len() > 0
                &&& q <= frames.last().1
            },
        },
    decreases frames.len(),
{
    if frames.len() > 0 {
        let init = frames.drop_last();
        assert forall|i: int, j: int| 0 <= i <= j < init.len() implies init[i].1 <= init[j].1 by {
            assert(frames[i].1 <= frames[j].1);
        }
        assert forall|i: int| 0 <= i < init.len() implies (#[trigger] init[i]).1 < u64::MAX by {
            assert(frames[i].1 < u64::MAX);
        }
        lemma_reference_kept(init);
        let s = after_frames(init);
        lemma_cc_after(s.cc_audio, s.audio(frames.last().0, frames.last().1).len());
        if init.len() > 0 {
            assert(frames[init.len() - 1].1 <= frames[init.len() as int].1);
        }
        assert(frames[init.len() as int].1 < u64::MAX);
    }
}

/// Clock references come first and then at least 9000 ticks apart: over a
/// series of frames, the first packet of a frame carries one exactly when the
/// frame is the first, or at least that far behind the latest frame with one;
/// it holds the time of its frame modulo 2^33, and no other packet has any.
pub proof fn law_clock_references(frames: Seq<(Seq<u8>, u64)>, i: int)
    requires
        timed(frames),
        0 <= i < frames.len(),
    ensures
        ({
            let pts = frames[i].1;
            let packets = after_frames(frames.take(i)).audio(frames[i].0, pts);
            let last = latest_reference(frames.take(i));
            &&& packets.len() > 0
            &&& has_pcr(packets[0]) <==> reference_due(last, pts)
            &&& has_pcr(packets[0]) ==> read_pcr(packets[0]) == pts % 0x2_0000_0000
            &&& forall|k: int| 0 < k < packets.len() ==> !has_pcr(#[trigger] packets[k])
            &&& last is None <==> i == 0
        }),
{
    let before = frames.take(i);
    assert forall|a: int, b: int| 0 <= a <= b < before.len() implies before[a].1 <= before[b].1 by {
        assert(frames[a].1 <= frames[b].1);
    }
    assert forall|a: int| 0 <= a < before.len() implies (#[trigger] before[a]).1 < u64::MAX by {
        assert(frames[a].1 < u64::MAX);
    }
    lemma_reference_kept(before);
    let s = after_frames(before);
    let pts = frames[i].1;
    if i > 0 {
        assert(before.last() == frames[i - 1]);
        assert(frames[i - 1].1 <= frames[i].1);
    }
    lemma_packets_pcr(
        pes_header(frames[i].0.len(), pts) + frames[i].0,
        AUDIO_PID,
        true,
        s.pcr(pts),
        s.cc_audio,
    );
}

/// Frames that follow one another without a gap are split at their borders:
/// splitting the joined frames gives the frames.
pub proof fn law_adts_frames_split(frames: Seq<Seq<u8>>, data: Seq<u8>, at: int)
    requires
        0 <= at,
        data.skip(at) == joined(frames),
        at <= data.len(),
        forall|i: int|
            0 <= i < frames.len() ==> adts_frame_at(#[trigger] frames[i], 0) && adts_len(
                frames[i],
                0,
            ) == frames[i].len(),
    ensures
        adts_frames(data, at) == frames,
    decreases frames.len(),
{
    if frames.len() == 0 {
        assert(data.skip(at).len() == 0);
    } else {
        let f = frames[0];
        let rest = frames.skip(1);
        assert(adts_frame_at(f, 0) && adts_len(f, 0) == f.len());
        assert(data.skip(at) == f + joined(rest));
        assert forall|k: int| 0 <= k < f.len() implies data[at + k] == #[trigger] f[k] by {
            assert(data.skip(at)[k] == f[k]);
        }
        assert(data[at + 0] == f[0]);
        assert(data[at + 1] == f[1]);
        assert(data[at + 3] == f[3]);
        assert(data[at + 4] == f[4]);
        assert(data[at + 5] == f[5]);
        assert(data.skip(at).len() >= f.len());
        assert(adts_frame_at(data, at));
        assert(data.subrange(at, at + f.len()) =~= f);
        assert(data.skip(at + f.len() as int) =~= joined(rest)) by {
            assert(data.skip(at).skip(f.len() as int) =~= data.skip(at + f.len() as int));
            assert((f + joined(rest)).skip(f.len() as int) =~= joined(rest));
        }
        assert forall|i: int| 0 <= i < rest.len() implies adts_frame_at(#[trigger] rest[i], 0)
            && adts_len(rest[i], 0) == rest[i].len() by {
            assert(rest[i] == frames[i + 1]);
        }
        law_adts_frames_split(rest, data, at + f.len() as int);
        assert(frames =~= seq![f] + rest);
    }
}

} // verus!
