//! The HLS output: segment names, the sliding window of segments, playlists,
//! and the state that survives a restart.

use vstd::prelude::*;
use vstd::arithmetic::power2::pow2;
use crate::bytes::slice_views;
use crate::config::{HlsOutputConfig, HlsRendition};
use crate::json::{entries_of, entry_view, entry_views, item_view, item_views, read_entries};
use crate::json::{document_text, holds_item, holds_section, holds_sections, readable};
use crate::json::{scalar_view, section_view, section_views, write_document};
use crate::json::{Entry, EntryView, Scalar, ScalarView, Section, SectionView};
use crate::ieee::{ceil_of_bits, ceiling, decimal_text, fixed_text, nearest, ratio_bits, rounded};
use crate::ieee::{text_of_bits, whole_above, Double};
use crate::mpegts::{adts_frames, cc_after, joined, next_cc, split_adts, MpegTsMuxer, TsState};
use crate::text::{char_is_digit, dec, dec_padded, is_digit, owned, push_dec};
use crate::text::{digits_value, has_prefix, has_suffix, joined_by, parsed, push_dec_padded, same};
use crate::text::{split_all, texts, to_chars};

verus! {

/// Samples of one AAC frame.
pub const AAC_FRAME_SAMPLES: u64 = 1024;

/// Ticks of the HLS clock in a second.
pub const CLOCK: u64 = 90_000;

/// Version of the state file.
pub const STATE_VERSION: u32 = 1;

/// Bitrate of the single stream of an output without renditions.
pub const CLASSIC_BITRATE: u32 = 128_000;

// ---------------------------------------------------------------------------
// Segment names
// ---------------------------------------------------------------------------

/// The template starts with a placeholder.
pub open spec fn placeholder(template: Seq<char>) -> bool {
    template.len() >= 3 && template[0] == '{' && (template[1] == 'n' || template[1] == 't')
        && template[2] == '}'
}

/// The template with `n` in place of each `{n}` and `t` in place of each
/// `{t}`.
pub open spec fn rendered(template: Seq<char>, n: Seq<char>, t: Seq<char>) -> Seq<char>
    decreases template.len(),
{
    if template.len() == 0 {
        Seq::empty()
    } else if placeholder(template) {
        (if template[1] == 'n' {
            n
        } else {
            t
        }) + rendered(template.skip(3), n, t)
    } else {
        seq![template[0]] + rendered(template.skip(1), n, t)
    }
}

/// The name of a segment: `{n}` is its number with at least six digits, `{t}`
/// the second it starts at.
pub open spec fn segment_name(template: Seq<char>, seq: nat, t: nat) -> Seq<char> {
    rendered(template, dec_padded(seq, 6), dec(t))
}

fn at_placeholder(chars: &[char], i: usize) -> (b: bool)
    requires
        i <= chars@.len(),
    ensures
        b == placeholder(chars@.skip(i as int)),
{
    let n: usize = chars.len();
    n - i >= 3 && chars[i] == '{' && (chars[i + 1] == 'n' || chars[i + 1] == 't') && chars[i + 2]
        == '}'
}

/// The name of a segment.
pub fn render_segment_name(template: &str, seq: u64, t: u64) -> (s: String)
    ensures
        s@ == segment_name(template@, seq as nat, t as nat),
{
    let chars = to_chars(template);
    let mut out = String::new();
    let mut i: usize = 0;
    let ghost n_text = dec_padded(seq as nat, 6);
    let ghost t_text = dec(t as nat);
    let ghost whole = rendered(template@, n_text, t_text);
    proof {
        assert(chars@.skip(0) =~= chars@);
        assert(out@ + whole =~= whole);
    }
    while i < chars.len()
        invariant
            i <= chars@.len(),
            n_text == dec_padded(seq as nat, 6),
            t_text == dec(t as nat),
            out@ + rendered(chars@.skip(i as int), n_text, t_text) == whole,
        decreases chars@.len() - i,
    {
        let ghost rest = chars@.skip(i as int);
        let ghost before = out@;
        if at_placeholder(chars.as_slice(), i) {
            proof {
                assert(rest.skip(3) =~= chars@.skip(i as int + 3));
            }
            let ghost tail = rendered(chars@.skip(i as int + 3), n_text, t_text);
            if chars[i + 1] == 'n' {
                push_dec_padded(&mut out, seq, 6);
                assert(out@ + tail =~= before + (n_text + tail));
            } else {
                push_dec(&mut out, t);
                assert(out@ + tail =~= before + (t_text + tail));
            }
            i = i + 3;
        } else {
            proof {
                assert(rest.skip(1) =~= chars@.skip(i as int + 1));
            }
            let ghost tail = rendered(chars@.skip(i as int + 1), n_text, t_text);
            out.push(chars[i]);
            assert(out@ + tail =~= before + (seq![rest[0]] + tail));
            i = i + 1;
        }
    }
    proof {
        assert(chars@.skip(i as int) =~= Seq::<char>::empty());
        assert(out@ + rendered(chars@.skip(i as int), n_text, t_text) =~= out@);
    }
    out
}

/// The number of digits that the text starts with.
pub open spec fn digit_run(s: Seq<char>) -> nat
    decreases s.len(),
{
    if s.len() > 0 && is_digit(s[0]) {
        1 + digit_run(s.skip(1))
    } else {
        0
    }
}

/// The name could be that of a segment: a run of digits stands in place of
/// each placeholder.
pub open spec fn name_matches(name: Seq<char>, template: Seq<char>) -> bool
    decreases template.len(),
{
    if template.len() == 0 {
        name.len() == 0
    } else if placeholder(template) {
        let d = digit_run(name);
        d > 0 && name_matches(name.skip(d as int), template.skip(3))
    } else {
        name.len() > 0 && name[0] == template[0] && name_matches(name.skip(1), template.skip(1))
    }
}

/// Whether the name could be that of a segment.
pub fn name_matches_template(name: &str, template: &str) -> (r: bool)
    ensures
        r == name_matches(name@, template@),
{
    let n = to_chars(name);
    let t = to_chars(template);
    let mut i: usize = 0;
    let mut j: usize = 0;
    proof {
        assert(n@.skip(0) =~= n@);
        assert(t@.skip(0) =~= t@);
    }
    while j < t.len()
        invariant
            i <= n@.len(),
            j <= t@.len(),
            name_matches(name@, template@) == name_matches(n@.skip(i as int), t@.skip(j as int)),
        decreases t@.len() - j,
    {
        let ghost nr = n@.skip(i as int);
        let ghost tr = t@.skip(j as int);
        if at_placeholder(t.as_slice(), j) {
            let start: usize = i;
            while i < n.len() && char_is_digit(n[i])
                invariant
                    start <= i <= n@.len(),
                    digit_run(n@.skip(start as int)) == (i - start) + digit_run(n@.skip(i as int)),
                decreases n@.len() - i,
            {
                proof {
                    assert(n@.skip(i as int).skip(1) =~= n@.skip(i as int + 1));
                }
                i = i + 1;
            }
            if i == start {
                return false;
            }
            proof {
                assert(nr.skip(i - start) =~= n@.skip(i as int));
                assert(tr.skip(3) =~= t@.skip(j as int + 3));
            }
            j = j + 3;
        } else {
            if i >= n.len() || n[i] != t[j] {
                return false;
            }
            proof {
                assert(nr.skip(1) =~= n@.skip(i as int + 1));
                assert(tr.skip(1) =~= t@.skip(j as int + 1));
            }
            i = i + 1;
            j = j + 1;
        }
    }
    i == n.len()
}

// ---------------------------------------------------------------------------
// Lengths
// ---------------------------------------------------------------------------

/// The length of a segment in seconds.
pub struct LengthView {
    pub bits: u64,
    pub ceil: u64,
    pub text: Seq<char>,
}

/// The length of a segment in seconds, a double: its bit pattern, the least
/// number of whole seconds that is not smaller, and its text with three
/// decimals.
#[derive(Clone, Debug)]
pub struct Length {
    pub bits: u64,
    pub ceil: u64,
    pub text: String,
}

impl View for Length {
    type V = LengthView;

    open spec fn view(&self) -> LengthView {
        LengthView { bits: self.bits, ceil: self.ceil, text: self.text@ }
    }
}

/// The length of a number of ticks: the double nearest to the quotient.
pub open spec fn length_of(ticks: nat) -> LengthView {
    let (m, k) = nearest(ticks, CLOCK as nat);
    LengthView {
        bits: ratio_bits(ticks, CLOCK as nat) as u64,
        ceil: ceiling(m, pow2(k)) as u64,
        text: decimal_text(rounded(m * 1000, pow2(k))),
    }
}

/// The length whose bit pattern is given.
pub open spec fn length_of_bits(bits: u64) -> LengthView {
    LengthView { bits, ceil: whole_above(bits), text: fixed_text(bits) }
}

impl Length {
    /// The length of a number of ticks.
    pub fn of_ticks(ticks: u64) -> (l: Length)
        requires
            ticks < 0x20_0000_0000_0000,
        ensures
            l@ == length_of(ticks as nat),
    {
        let d = Double::nearest(ticks, CLOCK as u32);
        proof {
            crate::ieee::lemma_nearest_zero(ticks as nat, CLOCK as nat);
            law_length_by_its_bits(ticks as nat);
        }
        Length::of_bits(d.bits())
    }

    /// The length whose bit pattern is given.
    pub fn of_bits(bits: u64) -> (l: Length)
        ensures
            l@ == length_of_bits(bits),
    {
        Length { bits, ceil: ceil_of_bits(bits), text: text_of_bits(bits) }
    }

    fn copy(&self) -> (l: Length)
        ensures
            l@ == self@,
    {
        Length { bits: self.bits, ceil: self.ceil, text: owned(self.text.as_str()) }
    }
}

// ---------------------------------------------------------------------------
// The window
// ---------------------------------------------------------------------------

/// A complete segment of the window.
pub struct ClosedView {
    pub seq: nat,
    pub length: LengthView,
    pub name: Seq<char>,
}

/// A complete segment of the window.
#[derive(Clone, Debug)]
pub struct ClosedSegment {
    pub seq: u64,
    pub length: Length,
    pub name: String,
}

impl View for ClosedSegment {
    type V = ClosedView;

    open spec fn view(&self) -> ClosedView {
        ClosedView { seq: self.seq as nat, length: self.length@, name: self.name@ }
    }
}

/// The views of the segments.
pub open spec fn closed_views(v: Seq<ClosedSegment>) -> Seq<ClosedView> {
    Seq::new(v.len(), |i: int| v[i]@)
}

impl ClosedSegment {
    fn copy(&self) -> (c: ClosedSegment)
        ensures
            c@ == self@,
    {
        ClosedSegment {
            seq: self.seq,
            length: self.length.copy(),
            name: owned(self.name.as_str()),
        }
    }
}

fn copy_window(v: &Vec<ClosedSegment>) -> (out: Vec<ClosedSegment>)
    ensures
        closed_views(out@) == closed_views(v@),
{
    let mut out: Vec<ClosedSegment> = Vec::new();
    let mut i: usize = 0;
    while i < v.len()
        invariant
            i <= v@.len(),
            out@.len() == i,
            forall|k: int| 0 <= k < i ==> (#[trigger] out@[k])@ == v@[k]@,
        decreases v@.len() - i,
    {
        out.push(v[i].copy());
        i = i + 1;
    }
    assert(closed_views(out@) =~= closed_views(v@));
    out
}

/// The segments from number `from` on.
pub open spec fn kept(window: Seq<ClosedView>, from: int) -> Seq<ClosedView>
    decreases window.len(),
{
    if window.len() == 0 {
        Seq::empty()
    } else {
        let before = kept(window.drop_last(), from);
        if window.last().seq >= from {
            before.push(window.last())
        } else {
            before
        }
    }
}

/// The names of the segments before number `from`.
pub open spec fn dropped(window: Seq<ClosedView>, from: int) -> Seq<Seq<char>>
    decreases window.len(),
{
    if window.len() == 0 {
        Seq::empty()
    } else {
        let before = dropped(window.drop_last(), from);
        if window.last().seq < from {
            before.push(window.last().name)
        } else {
            before
        }
    }
}

/// The target duration: the longest segment in whole seconds, and at least
/// one.
pub open spec fn target_duration(window: Seq<ClosedView>) -> u64
    decreases window.len(),
{
    if window.len() == 0 {
        1
    } else {
        let before = target_duration(window.drop_last());
        if window.last().length.ceil > before {
            window.last().length.ceil
        } else {
            before
        }
    }
}

/// The entries of a playlist.
pub open spec fn playlist_entries(window: Seq<ClosedView>) -> Seq<char>
    decreases window.len(),
{
    if window.len() == 0 {
        Seq::empty()
    } else {
        playlist_entries(window.drop_last()) + "#EXTINF:"@ + window.last().length.text + ",\n"@
            + window.last().name + "\n"@
    }
}

/// The media playlist of a window; a final one says that the stream is over.
pub open spec fn playlist_text(window: Seq<ClosedView>, finalized: bool) -> Seq<char> {
    let first = if window.len() == 0 {
        0
    } else {
        window[0].seq
    };
    "#EXTM3U\n#EXT-X-VERSION:3\n#EXT-X-TARGETDURATION:"@ + dec(target_duration(window) as nat)
        + "\n#EXT-X-MEDIA-SEQUENCE:"@ + dec(first) + "\n"@ + playlist_entries(window) + (
    if finalized {
        "#EXT-X-ENDLIST\n"@
    } else {
        Seq::empty()
    })
}

/// The media playlist of a window.
pub fn playlist(window: &Vec<ClosedSegment>, finalized: bool) -> (s: String)
    ensures
        s@ == playlist_text(closed_views(window@), finalized),
{
    let ghost all = closed_views(window@);
    let mut target: u64 = 1;
    let mut entries = String::new();
    let mut i: usize = 0;
    proof {
        assert(all.take(0) =~= Seq::<ClosedView>::empty());
    }
    while i < window.len()
        invariant
            i <= window@.len(),
            all == closed_views(window@),
            target == target_duration(all.take(i as int)),
            entries@ == playlist_entries(all.take(i as int)),
        decreases window@.len() - i,
    {
        proof {
            assert(all.take(i as int + 1).drop_last() =~= all.take(i as int));
            assert(all.take(i as int + 1).last() == window@[i as int]@);
        }
        let c = &window[i];
        if c.length.ceil > target {
            target = c.length.ceil;
        }
        entries.append("#EXTINF:");
        entries.append(c.length.text.as_str());
        entries.append(",\n");
        entries.append(c.name.as_str());
        entries.append("\n");
        i = i + 1;
    }
    proof {
        assert(all.take(i as int) =~= all);
    }
    let mut s = owned("#EXTM3U\n#EXT-X-VERSION:3\n#EXT-X-TARGETDURATION:");
    push_dec(&mut s, target);
    s.append("\n#EXT-X-MEDIA-SEQUENCE:");
    let first: u64 = if window.len() == 0 { 0 } else { window[0].seq };
    push_dec(&mut s, first);
    s.append("\n");
    s.append(entries.as_str());
    if finalized {
        s.append("#EXT-X-ENDLIST\n");
    }
    assert(s@ =~= playlist_text(all, finalized));
    s
}

/// What a closed segment leaves to be done, in this order: its bytes are
/// written, the segments that left the window are removed, and the playlist
/// is written.
pub struct FilesView {
    pub name: Seq<char>,
    pub bytes: Seq<u8>,
    pub removed: Seq<Seq<char>>,
    pub playlist: Seq<char>,
}

/// What a closed segment leaves to be done, in this order: its bytes are
/// written, the segments that left the window are removed, and the playlist
/// is written.
#[derive(Debug)]
pub struct SegmentFiles {
    pub name: String,
    pub bytes: Vec<u8>,
    pub removed: Vec<String>,
    pub playlist: String,
}

impl View for SegmentFiles {
    type V = FilesView;

    open spec fn view(&self) -> FilesView {
        FilesView {
            name: self.name@,
            bytes: self.bytes@,
            removed: texts(self.removed@),
            playlist: self.playlist@,
        }
    }
}

/// The views of the files.
pub open spec fn files_views(v: Seq<SegmentFiles>) -> Seq<FilesView> {
    Seq::new(v.len(), |i: int| v[i]@)
}

/// One stream of the output: its window, and the segment that is being
/// filled.
pub struct StreamState {
    pub frame_dur: nat,
    pub epoch: nat,
    /// Frames fed so far.
    pub frames: nat,
    pub window: Seq<ClosedView>,
    pub next_seq: nat,
    pub mux: TsState,
    pub bytes: Seq<u8>,
    pub seq: nat,
    pub start: nat,
    pub end: nat,
    /// Frames of the segment.
    pub count: nat,
    /// The segment is long enough, and waits for a picture to end at.
    pub window_reached: bool,
}

/// The state of a muxer that has written its program tables.
pub open spec fn program_written(m: TsState) -> TsState {
    m.after_program()
}

/// The state of a muxer at the start of a segment.
pub open spec fn fresh_mux() -> TsState {
    TsState { cc_pat: 0, cc_pmt: 0, cc_audio: 0, last_pcr: u64::MAX }
}

/// The stream with a new segment at `start`. Every segment carries its own
/// program tables.
pub open spec fn opened(s: StreamState, start: nat) -> StreamState {
    StreamState {
        mux: program_written(fresh_mux()),
        bytes: fresh_mux().program(),
        seq: s.next_seq,
        next_seq: s.next_seq + 1,
        start,
        end: start,
        count: 0,
        window_reached: false,
        ..s
    }
}

/// The first number that stays in the window once segment `seq` is closed:
/// the last `retention` segments do.
pub open spec fn keep_from(seq: nat, retention: nat) -> int {
    if seq >= retention {
        seq - retention + 1
    } else {
        0
    }
}

/// The name of the segment that is being filled.
pub open spec fn current_name(s: StreamState, template: Seq<char>) -> Seq<char> {
    segment_name(template, s.seq, s.epoch + s.start / (CLOCK as nat))
}

/// The stream once its segment is closed, and what is left to be done. A
/// segment without a frame is not closed.
pub open spec fn finished(s: StreamState, cfg: HlsOutputConfig) -> (StreamState, Option<FilesView>) {
    if s.count == 0 {
        (s, None)
    } else {
        let name = current_name(s, cfg.segment_name@);
        let all = s.window.push(
            ClosedView { seq: s.seq, length: length_of((s.end - s.start) as nat), name },
        );
        let from = keep_from(s.seq, cfg.retention as nat);
        (
            StreamState { window: kept(all, from), ..s },
            Some(
                FilesView {
                    name,
                    bytes: s.bytes,
                    removed: dropped(all, from),
                    playlist: playlist_text(kept(all, from), false),
                },
            ),
        )
    }
}

/// What a frame at `pts` does to the segment in front of it.
pub enum Cut {
    /// Nothing.
    Keep,
    /// It is marked as long enough.
    Mark,
    /// It is closed, and the next one starts at the frame.
    Rotate,
}

/// What a frame does to the segment in front of it: a segment that is long
/// enough is closed; while pictures are expected it waits for one, but not
/// longer than another full length.
pub open spec fn cut_before(s: StreamState, cfg: HlsOutputConfig, defer: bool) -> Cut {
    let age = s.frames * s.frame_dur - s.start;
    if s.count == 0 || age < cfg.segment_ticks {
        Cut::Keep
    } else if !s.window_reached {
        if defer {
            Cut::Mark
        } else {
            Cut::Rotate
        }
    } else if !defer || age >= 2 * cfg.segment_ticks {
        Cut::Rotate
    } else {
        Cut::Keep
    }
}

/// The stream with a frame appended to its segment.
pub open spec fn muxed(s: StreamState, frame: Seq<u8>) -> StreamState {
    let pts = s.frames * s.frame_dur;
    let packets = s.mux.audio(frame, pts as u64);
    StreamState {
        mux: TsState {
            cc_audio: cc_after(s.mux.cc_audio, packets.len()),
            last_pcr: if s.mux.wants_pcr(pts as u64) {
                pts as u64
            } else {
                s.mux.last_pcr
            },
            ..s.mux
        },
        bytes: s.bytes + joined(packets),
        end: pts + s.frame_dur,
        count: s.count + 1,
        frames: s.frames + 1,
        ..s
    }
}

/// The stream after one frame, and what a segment closed before it leaves to
/// be done.
pub open spec fn fed_one(s: StreamState, cfg: HlsOutputConfig, frame: Seq<u8>, defer: bool) -> (
    StreamState,
    Option<FilesView>,
) {
    match cut_before(s, cfg, defer) {
        Cut::Keep => (muxed(s, frame), None),
        Cut::Mark => (muxed(StreamState { window_reached: true, ..s }, frame), None),
        Cut::Rotate => {
            let (t, files) = finished(s, cfg);
            (muxed(opened(t, s.frames * s.frame_dur), frame), files)
        },
    }
}

/// The stream after a picture: one that decoding can start at ends a segment
/// that waits for it.
pub open spec fn with_picture(
    s: StreamState,
    cfg: HlsOutputConfig,
    pts: nat,
    idr: bool,
    picture_dur: nat,
) -> (StreamState, Option<FilesView>) {
    let (t, files) = if s.window_reached && idr {
        let (f, files) = finished(s, cfg);
        (opened(f, pts), files)
    } else {
        (s, None)
    };
    (
        StreamState {
            end: if pts + picture_dur > t.end {
                pts + picture_dur
            } else {
                t.end
            },
            ..t
        },
        files,
    )
}

/// A picture can be taken: the clock stays below 2^53 ticks, and a segment
/// that starts at the picture has a number and is not ahead of the audio.
pub open spec fn picture_fits(s: StreamState, pts: nat, idr: bool, picture_dur: nat) -> bool {
    &&& pts + picture_dur < 0x20_0000_0000_0000
    &&& s.window_reached && idr ==> s.next_seq < u64::MAX && pts <= s.frames * s.frame_dur
}

/// A time in microseconds on the 90 kHz clock.
pub open spec fn ticks_of_micros(pts_us: u64) -> int {
    pts_us * CLOCK / 1_000_000
}

/// A time in microseconds on the 90 kHz clock.
pub fn picture_ticks(pts_us: u64) -> (t: u64)
    requires
        pts_us * CLOCK <= u64::MAX,
    ensures
        t == ticks_of_micros(pts_us),
{
    pts_us * CLOCK / 1_000_000
}

/// The stream after frames, and what the segments closed among them leave to
/// be done.
pub open spec fn fed(s: StreamState, cfg: HlsOutputConfig, frames: Seq<Seq<u8>>, defer: bool) -> (
    StreamState,
    Seq<FilesView>,
)
    decreases frames.len(),
{
    if frames.len() == 0 {
        (s, Seq::empty())
    } else {
        let (t, out) = fed(s, cfg, frames.drop_last(), defer);
        let (u, files) = fed_one(t, cfg, frames.last(), defer);
        (
            u,
            match files {
                Some(f) => out.push(f),
                None => out,
            },
        )
    }
}

/// The stream at the start of a run: the first segment takes the next number.
pub open spec fn stream_start(
    sample_rate: u32,
    epoch: u64,
    next_seq: u64,
    window: Seq<ClosedView>,
) -> StreamState {
    opened(
        StreamState {
            frame_dur: (AAC_FRAME_SAMPLES * CLOCK) as nat / (sample_rate as nat),
            epoch: epoch as nat,
            frames: 0,
            window,
            next_seq: next_seq as nat,
            mux: fresh_mux(),
            bytes: Seq::empty(),
            seq: 0,
            start: 0,
            end: 0,
            count: 0,
            window_reached: false,
        },
        0,
    )
}

/// The stream has room for `n` more frames: its clock stays below 2^53 ticks,
/// and its numbers within 64 bits.
pub open spec fn room(s: StreamState, n: nat) -> bool {
    &&& s.frames + n + 1 <= u64::MAX
    &&& s.frame_dur * (s.frames + n + 1) < 0x20_0000_0000_0000
    &&& s.next_seq + n + 1 <= u64::MAX
}

/// What holds of a stream at every step.
pub open spec fn sound_stream(s: StreamState) -> bool {
    &&& s.mux.cc_pat < 16 && s.mux.cc_pmt < 16 && s.mux.cc_audio < 16
    &&& s.start <= s.end < 0x20_0000_0000_0000
    &&& s.start <= s.frames * s.frame_dur < 0x20_0000_0000_0000
    &&& s.count <= s.frames
    &&& s.epoch <= 0x7fff_ffff_ffff_ffff
    &&& s.seq + 1 == s.next_seq
}

/// One stream of the output, with an encoder of its own.
pub struct HlsStream {
    subdir: String,
    bitrate: u32,
    frame_dur: u64,
    epoch: u64,
    frames: u64,
    window: Vec<ClosedSegment>,
    next_seq: u64,
    mux: MpegTsMuxer,
    bytes: Vec<u8>,
    seq: u64,
    start_pts: u64,
    end_pts: u64,
    count: u64,
    window_reached: bool,
}

impl View for HlsStream {
    type V = StreamState;

    closed spec fn view(&self) -> StreamState {
        StreamState {
            frame_dur: self.frame_dur as nat,
            epoch: self.epoch as nat,
            frames: self.frames as nat,
            window: closed_views(self.window@),
            next_seq: self.next_seq as nat,
            mux: self.mux@,
            bytes: self.bytes@,
            seq: self.seq as nat,
            start: self.start_pts as nat,
            end: self.end_pts as nat,
            count: self.count as nat,
            window_reached: self.window_reached,
        }
    }
}

proof fn lemma_frame_lengths(data: Seq<u8>, i: int)
    ensures
        adts_frames(data, i).len() <= if 0 <= i <= data.len() {
            data.len() - i
        } else {
            0
        },
        forall|k: int|
            0 <= k < adts_frames(data, i).len() ==> (#[trigger] adts_frames(data, i)[k]).len()
                <= 8191,
    decreases data.len() - i,
{
    if i < 0 || i + 7 > data.len() {
    } else if crate::mpegts::adts_frame_at(data, i) {
        let n = crate::mpegts::adts_len(data, i);
        assert(n <= 8191) by {
            let a = data[i + 3] % 4;
            let c = data[i + 5] / 32;
            assert(a <= 3);
            assert(c <= 7);
        }
        lemma_frame_lengths(data, i + n);
    } else {
        lemma_frame_lengths(data, i + 1);
    }
}

impl HlsStream {
    /// Well-formed.
    pub open spec fn wf(&self) -> bool {
        sound_stream(self@)
    }

    /// The subdirectory of the stream; empty for the only stream.
    pub closed spec fn subdir_text(&self) -> Seq<char> {
        self.subdir@
    }

    /// The bitrate of the stream's encoder.
    pub closed spec fn bitrate_value(&self) -> u32 {
        self.bitrate
    }

    /// A stream that goes on behind the given window.
    pub fn new(
        subdir: &str,
        bitrate: u32,
        sample_rate: u32,
        epoch: u64,
        next_seq: u64,
        window: Vec<ClosedSegment>,
    ) -> (s: HlsStream)
        requires
            sample_rate > 0,
            epoch <= 0x7fff_ffff_ffff_ffff,
            next_seq < u64::MAX,
        ensures
            s.wf(),
            s@ == stream_start(sample_rate, epoch, next_seq, closed_views(window@)),
            s.subdir_text() == subdir@,
            s.bitrate_value() == bitrate,
    {
        let mut mux = MpegTsMuxer::new();
        let mut bytes: Vec<u8> = Vec::new();
        mux.write_program(&mut bytes);
        proof {
            assert(bytes@ =~= fresh_mux().program());
        }
        HlsStream {
            subdir: owned(subdir),
            bitrate,
            frame_dur: AAC_FRAME_SAMPLES * CLOCK / sample_rate as u64,
            epoch,
            frames: 0,
            window,
            next_seq: next_seq + 1,
            mux,
            bytes,
            seq: next_seq,
            start_pts: 0,
            end_pts: 0,
            count: 0,
            window_reached: false,
        }
    }

    /// The subdirectory of the stream; empty for the only stream.
    pub fn subdir(&self) -> (s: &str)
        ensures
            s@ == self.subdir_text(),
    {
        self.subdir.as_str()
    }

    /// The bitrate of the stream's encoder.
    pub fn bitrate(&self) -> (b: u32)
        ensures
            b == self.bitrate_value(),
    {
        self.bitrate
    }

    /// The complete segments of the window.
    pub fn window(&self) -> (w: &Vec<ClosedSegment>)
        ensures
            closed_views(w@) == self@.window,
    {
        &self.window
    }

    /// The number of the next segment.
    pub fn next_seq(&self) -> (n: u64)
        ensures
            n == self@.next_seq,
    {
        self.next_seq
    }

    /// Whether the stream has room for `n` more frames.
    pub fn has_room(&self, n: usize) -> (b: bool)
        requires
            self.wf(),
        ensures
            b == room(self@, n as nat),
    {
        let frames: u128 = self.frames as u128 + n as u128 + 1;
        if frames > u64::MAX as u128 || self.next_seq as u128 + n as u128 + 1 > u64::MAX as u128 {
            return false;
        }
        proof {
            assert(0 <= self.frame_dur * frames <= 0xffff_ffff_ffff_ffff * 0xffff_ffff_ffff_ffff)
                by (nonlinear_arith)
                requires
                    self.frame_dur <= 0xffff_ffff_ffff_ffff,
                    frames <= 0xffff_ffff_ffff_ffff,
            ;
        }
        (self.frame_dur as u128) * frames < 0x20_0000_0000_0000
    }

    /// Closes the segment, unless it is empty.
    pub fn finish_segment(&mut self, cfg: &HlsOutputConfig) -> (r: Option<SegmentFiles>)
        requires
            old(self).wf(),
        ensures
            final(self).wf(),
            final(self)@ == finished(old(self)@, *cfg).0,
            final(self).subdir_text() == old(self).subdir_text(),
            final(self).bitrate_value() == old(self).bitrate_value(),
            match r {
                None => finished(old(self)@, *cfg).1 is None,
                Some(f) => finished(old(self)@, *cfg).1 == Some(f@),
            },
    {
        if self.count == 0 {
            return None;
        }
        let length = Length::of_ticks(self.end_pts - self.start_pts);
        let name = render_segment_name(
            cfg.segment_name.as_str(),
            self.seq,
            self.epoch + self.start_pts / CLOCK,
        );
        let closed = ClosedSegment { seq: self.seq, length, name: owned(name.as_str()) };
        let from: u64 = if self.seq as u128 >= cfg.retention as u128 {
            self.seq - cfg.retention as u64 + 1
        } else {
            0
        };
        let ghost all = closed_views(self.window@).push(closed@);
        let mut kept_now: Vec<ClosedSegment> = Vec::new();
        let mut removed: Vec<String> = Vec::new();
        let ghost n = all.len();
        self.window.push(closed);
        proof {
            assert(closed_views(self.window@) =~= all);
            assert(all.take(0) =~= Seq::<ClosedView>::empty());
            assert(closed_views(kept_now@) =~= Seq::<ClosedView>::empty());
            assert(texts(removed@) =~= Seq::<Seq<char>>::empty());
        }
        let mut i: usize = 0;
        while i < self.window.len()
            invariant
                i <= self.window@.len(),
                closed_views(self.window@) == all,
                closed_views(kept_now@) == kept(all.take(i as int), from as int),
                texts(removed@) == dropped(all.take(i as int), from as int),
            decreases self.window@.len() - i,
        {
            let ghost k0 = closed_views(kept_now@);
            let ghost r0 = texts(removed@);
            proof {
                assert(all.take(i as int + 1).drop_last() =~= all.take(i as int));
                assert(all.take(i as int + 1).last() == self.window@[i as int]@);
            }
            if self.window[i].seq >= from {
                kept_now.push(self.window[i].copy());
                assert(closed_views(kept_now@) =~= k0.push(all[i as int]));
            } else {
                removed.push(owned(self.window[i].name.as_str()));
                assert(texts(removed@) =~= r0.push(all[i as int].name));
            }
            i = i + 1;
        }
        proof {
            assert(all.take(i as int) =~= all);
        }
        self.window = kept_now;
        let text = playlist(&self.window, false);
        let mut bytes: Vec<u8> = Vec::new();
        crate::bytes::append(&mut bytes, self.bytes.as_slice());
        proof {
            assert(bytes@ =~= self.bytes@);
        }
        Some(SegmentFiles { name, bytes, removed, playlist: text })
    }

    fn open_segment(&mut self, start: u64)
        requires
            old(self).wf(),
            old(self)@.next_seq < u64::MAX,
            start <= old(self)@.frames * old(self)@.frame_dur,
        ensures
            final(self).wf(),
            final(self)@ == opened(old(self)@, start as nat),
            final(self).subdir_text() == old(self).subdir_text(),
            final(self).bitrate_value() == old(self).bitrate_value(),
    {
        let mut mux = MpegTsMuxer::new();
        let mut bytes: Vec<u8> = Vec::new();
        mux.write_program(&mut bytes);
        proof {
            assert(bytes@ =~= fresh_mux().program());
        }
        self.mux = mux;
        self.bytes = bytes;
        self.seq = self.next_seq;
        self.next_seq = self.next_seq + 1;
        self.start_pts = start;
        self.end_pts = start;
        self.count = 0;
        self.window_reached = false;
    }

    fn feed_one(&mut self, cfg: &HlsOutputConfig, frame: &[u8], defer: bool) -> (r: Option<
        SegmentFiles,
    >)
        requires
            old(self).wf(),
            room(old(self)@, 1),
            frame@.len() <= 8191,
        ensures
            final(self).wf(),
            final(self)@ == fed_one(old(self)@, *cfg, frame@, defer).0,
            final(self).subdir_text() == old(self).subdir_text(),
            final(self).bitrate_value() == old(self).bitrate_value(),
            match r {
                None => fed_one(old(self)@, *cfg, frame@, defer).1 is None,
                Some(f) => fed_one(old(self)@, *cfg, frame@, defer).1 == Some(f@),
            },
    {
        let ghost s0 = self@;
        proof {
            assert(s0.frame_dur * (s0.frames + 2) == s0.frames * s0.frame_dur + 2 * s0.frame_dur)
                by (nonlinear_arith);
            assert(s0.frames * s0.frame_dur >= 0) by (nonlinear_arith);
            assert((s0.frames + 1) * s0.frame_dur == s0.frames * s0.frame_dur + s0.frame_dur)
                by (nonlinear_arith);
        }
        let pts: u64 = self.frames * self.frame_dur;
        let age: u64 = pts - self.start_pts;
        let mut files: Option<SegmentFiles> = None;
        if self.count > 0 && age >= cfg.segment_ticks {
            let rotate = if !self.window_reached {
                !defer
            } else {
                !defer || age as u128 >= 2 * cfg.segment_ticks as u128
            };
            if rotate {
                files = self.finish_segment(cfg);
                self.open_segment(pts);
            } else {
                self.window_reached = true;
            }
        }
        assert(files is Some <==> cut_before(s0, *cfg, defer) is Rotate);
        self.mux.push_audio(frame, pts, &mut self.bytes);
        self.end_pts = pts + self.frame_dur;
        self.count = self.count + 1;
        self.frames = self.frames + 1;
        files
    }

    /// Whether a picture can be taken.
    pub fn picture_fits(&self, pts: u64, idr: bool, picture_dur: u64) -> (b: bool)
        requires
            self.wf(),
        ensures
            b == picture_fits(self@, pts as nat, idr, picture_dur as nat),
    {
        if pts as u128 + picture_dur as u128 >= 0x20_0000_0000_0000 {
            return false;
        }
        if !self.window_reached || !idr {
            return true;
        }
        proof {
            assert(self.frames * self.frame_dur >= 0) by (nonlinear_arith)
                requires
                    self.frames >= 0,
                    self.frame_dur >= 0,
            ;
        }
        self.next_seq < u64::MAX && pts <= self.frames * self.frame_dur
    }

    /// Whether the segment is long enough and waits for a picture to end at:
    /// the next picture is then made one that decoding can start at.
    pub fn wants_picture(&self) -> (b: bool)
        ensures
            b == self@.window_reached,
    {
        self.window_reached
    }

    /// A picture comes at `pts`. One that decoding can start at ends a segment
    /// that waits for it, and starts the next one, which then lasts at least
    /// as long as the picture; it comes no later than the audio.
    pub fn on_picture(&mut self, cfg: &HlsOutputConfig, pts: u64, idr: bool, picture_dur: u64) -> (r:
        Option<SegmentFiles>)
        requires
            old(self).wf(),
            picture_fits(old(self)@, pts as nat, idr, picture_dur as nat),
        ensures
            final(self).wf(),
            final(self)@ == with_picture(old(self)@, *cfg, pts as nat, idr, picture_dur as nat).0,
            match r {
                None => with_picture(
                    old(self)@,
                    *cfg,
                    pts as nat,
                    idr,
                    picture_dur as nat,
                ).1 is None,
                Some(f) => with_picture(
                    old(self)@,
                    *cfg,
                    pts as nat,
                    idr,
                    picture_dur as nat,
                ).1 == Some(f@),
            },
            final(self).subdir_text() == old(self).subdir_text(),
            final(self).bitrate_value() == old(self).bitrate_value(),
    {
        let mut files: Option<SegmentFiles> = None;
        if self.window_reached && idr {
            files = self.finish_segment(cfg);
            self.open_segment(pts);
        }
        if pts + picture_dur > self.end_pts {
            self.end_pts = pts + picture_dur;
        }
        files
    }

    /// Routes the frames of `adts` into segments, and closes a segment once it
    /// is long enough. With `defer`, pictures are expected, and the segment
    /// waits for one.
    pub fn feed(&mut self, cfg: &HlsOutputConfig, adts: &[u8], defer: bool) -> (out: Vec<
        SegmentFiles,
    >)
        requires
            old(self).wf(),
            room(old(self)@, adts@.len()),
        ensures
            final(self).wf(),
            final(self)@ == fed(old(self)@, *cfg, adts_frames(adts@, 0), defer).0,
            files_views(out@) == fed(old(self)@, *cfg, adts_frames(adts@, 0), defer).1,
            final(self)@.frames <= old(self)@.frames + adts@.len(),
            final(self)@.frame_dur == old(self)@.frame_dur,
            final(self).subdir_text() == old(self).subdir_text(),
            final(self).bitrate_value() == old(self).bitrate_value(),
    {
        let frames = split_adts(adts);
        let ghost all = adts_frames(adts@, 0);
        let ghost s0 = self@;
        proof {
            lemma_frame_lengths(adts@, 0);
            assert(slice_views(frames@).len() == frames@.len());
            assert(all.take(0) =~= Seq::<Seq<u8>>::empty());
        }
        let mut out: Vec<SegmentFiles> = Vec::new();
        assert(files_views(out@) =~= Seq::<FilesView>::empty());
        let mut i: usize = 0;
        while i < frames.len()
            invariant
                i <= frames@.len(),
                all == slice_views(frames@),
                all.len() <= adts@.len(),
                forall|k: int| 0 <= k < all.len() ==> (#[trigger] all[k]).len() <= 8191,
                self.wf(),
                room(s0, adts@.len()),
                self@ == fed(s0, *cfg, all.take(i as int), defer).0,
                files_views(out@) == fed(s0, *cfg, all.take(i as int), defer).1,
                self@.frames == s0.frames + i,
                self@.frame_dur == s0.frame_dur,
                self@.next_seq <= s0.next_seq + i,
                self.subdir_text() == old(self).subdir_text(),
                self.bitrate_value() == old(self).bitrate_value(),
            decreases frames@.len() - i,
        {
            let ghost f0 = files_views(out@);
            let ghost s1 = self@;
            proof {
                assert(all.take(i as int + 1).drop_last() =~= all.take(i as int));
                assert(all.take(i as int + 1).last() == frames@[i as int]@);
                assert(all[i as int] == frames@[i as int]@);
                assert(s1.frame_dur * (s1.frames + 2) <= s0.frame_dur * (s0.frames + adts@.len()
                    + 1)) by (nonlinear_arith)
                    requires
                        s1.frame_dur == s0.frame_dur,
                        s1.frames + 2 <= s0.frames + adts@.len() + 1,
                        s0.frame_dur >= 0,
                ;
            }
            match self.feed_one(cfg, frames[i], defer) {
                Some(f) => {
                    out.push(f);
                    assert(files_views(out@) =~= f0.push(f@));
                },
                None => {},
            }
            i = i + 1;
        }
        proof {
            assert(all.take(i as int) =~= all);
        }
        out
    }
}

// ---------------------------------------------------------------------------
// The state file
// ---------------------------------------------------------------------------

/// What one rendition leaves behind for the next run.
pub struct SavedView {
    pub subdir: Seq<char>,
    pub next_seq: u64,
    pub window: Seq<ClosedView>,
}

/// What one rendition leaves behind for the next run.
#[derive(Clone, Debug)]
pub struct SavedRendition {
    pub subdir: String,
    pub next_seq: u64,
    pub window: Vec<ClosedSegment>,
}

impl View for SavedRendition {
    type V = SavedView;

    open spec fn view(&self) -> SavedView {
        SavedView {
            subdir: self.subdir@,
            next_seq: self.next_seq,
            window: closed_views(self.window@),
        }
    }
}

/// The views of the renditions.
pub open spec fn saved_views(v: Seq<SavedRendition>) -> Seq<SavedView> {
    Seq::new(v.len(), |i: int| v[i]@)
}

/// The segment that an item of the state file describes: it is a list of a
/// whole number, a number and a text.
pub open spec fn item_segment(item: Option<Seq<ScalarView>>) -> Option<ClosedView> {
    match item {
        Some(parts) => if parts.len() == 3 {
            match (parts[0].whole, parts[1].real, parts[2].text) {
                (Some(seq), Some(bits), Some(name)) => Some(
                    ClosedView { seq: seq as nat, length: length_of_bits(bits), name },
                ),
                _ => None,
            }
        } else {
            None
        },
        None => None,
    }
}

/// The segments that the items describe; others are skipped.
pub open spec fn item_segments(items: Seq<Option<Seq<ScalarView>>>) -> Seq<ClosedView>
    decreases items.len(),
{
    if items.len() == 0 {
        Seq::empty()
    } else {
        let before = item_segments(items.drop_last());
        match item_segment(items.last()) {
            Some(c) => before.push(c),
            None => before,
        }
    }
}

/// The state that an entry describes: what is missing counts as a start from
/// nothing.
pub open spec fn entry_state(e: EntryView) -> SavedView {
    SavedView {
        subdir: e.name,
        next_seq: match e.number {
            Some(n) => n,
            None => 0,
        },
        window: match e.list {
            Some(items) => item_segments(items),
            None => Seq::empty(),
        },
    }
}

/// The states that entries describe, in order.
pub open spec fn entry_states(entries: Seq<EntryView>) -> Seq<SavedView> {
    Seq::new(entries.len(), |i: int| entry_state(entries[i]))
}

fn load_item(item: &Option<Vec<Scalar>>) -> (r: Option<ClosedSegment>)
    ensures
        match r {
            Some(c) => item_segment(item_view(*item)) == Some(c@),
            None => item_segment(item_view(*item)) is None,
        },
{
    let parts = match item {
        Some(parts) => parts,
        None => return None,
    };
    if parts.len() != 3 {
        return None;
    }
    let ghost seen = item_view(*item).unwrap();
    assert(seen[0] == scalar_view(parts@[0]));
    assert(seen[1] == scalar_view(parts@[1]));
    assert(seen[2] == scalar_view(parts@[2]));
    match (&parts[0].0, &parts[1].1, &parts[2].2) {
        (Some(seq), Some(bits), Some(name)) => Some(
            ClosedSegment {
                seq: *seq,
                length: Length::of_bits(*bits),
                name: owned(name.as_str()),
            },
        ),
        _ => None,
    }
}

fn load_entry(e: &Entry) -> (r: SavedRendition)
    ensures
        r@ == entry_state(entry_view(*e)),
{
    let mut window: Vec<ClosedSegment> = Vec::new();
    assert(closed_views(window@) =~= Seq::<ClosedView>::empty());
    match &e.2 {
        None => {},
        Some(items) => {
            let ghost all = item_views(items@);
            let mut i: usize = 0;
            proof {
                assert(all.take(0) =~= Seq::<Option<Seq<ScalarView>>>::empty());
            }
            while i < items.len()
                invariant
                    i <= items@.len(),
                    all == item_views(items@),
                    closed_views(window@) == item_segments(all.take(i as int)),
                decreases items@.len() - i,
            {
                let ghost w0 = closed_views(window@);
                proof {
                    assert(all.take(i as int + 1).drop_last() =~= all.take(i as int));
                    assert(all.take(i as int + 1).last() == item_view(items@[i as int]));
                }
                match load_item(&items[i]) {
                    Some(c) => {
                        window.push(c);
                        assert(closed_views(window@) =~= w0.push(c@));
                    },
                    None => {},
                }
                i = i + 1;
            }
            proof {
                assert(all.take(i as int) =~= all);
            }
        },
    }
    SavedRendition {
        subdir: owned(e.0.as_str()),
        next_seq: match e.1 {
            Some(n) => n,
            None => 0,
        },
        window,
    }
}

/// The states that the entries of a document describe.
pub fn load_entries(entries: &Vec<Entry>) -> (out: Vec<SavedRendition>)
    ensures
        saved_views(out@) == entry_states(entry_views(entries@)),
{
    let mut out: Vec<SavedRendition> = Vec::new();
    let mut i: usize = 0;
    while i < entries.len()
        invariant
            i <= entries@.len(),
            out@.len() == i,
            forall|k: int|
                0 <= k < i ==> (#[trigger] out@[k])@ == entry_state(entry_view(entries@[k])),
        decreases entries@.len() - i,
    {
        out.push(load_entry(&entries[i]));
        i = i + 1;
    }
    assert(saved_views(out@) =~= entry_states(entry_views(entries@)));
    out
}

/// The entries of the text of a state file.
pub open spec fn state_entries_of(text: Seq<char>) -> Result<Option<Seq<EntryView>>, Seq<char>> {
    entries_of(text, "renditions"@, "next_seq"@, "closed"@)
}

/// Reads the text of a state file: the state of each rendition, in order;
/// nothing where the text holds no renditions; the error where it is no JSON.
pub fn load_state(text: &str) -> (r: Result<Option<Vec<SavedRendition>>, String>)
    ensures
        match state_entries_of(text@) {
            Err(e) => r matches Err(m) && m@ == e,
            Ok(None) => r matches Ok(None),
            Ok(Some(entries)) => r matches Ok(Some(v)) && saved_views(v@) == entry_states(entries),
        },
{
    match read_entries(text, "renditions", "next_seq", "closed") {
        Err(e) => Err(e),
        Ok(None) => Ok(None),
        Ok(Some(entries)) => Ok(Some(load_entries(&entries))),
    }
}

/// What a state file holds of a rendition.
pub open spec fn state_section(s: SavedView) -> SectionView {
    SectionView {
        name: s.subdir,
        number: s.next_seq,
        list: Seq::new(
            s.window.len(),
            |k: int| (s.window[k].seq as u64, s.window[k].length.bits, s.window[k].name),
        ),
    }
}

/// What a state file holds of renditions.
pub open spec fn state_sections(saved: Seq<SavedView>) -> Seq<SectionView> {
    Seq::new(saved.len(), |i: int| state_section(saved[i]))
}

/// The text of the state file of renditions.
pub open spec fn state_text_of(saved: Seq<SavedView>) -> Seq<char> {
    document_text(
        "version"@,
        STATE_VERSION,
        "renditions"@,
        "next_seq"@,
        "closed"@,
        state_sections(saved),
    )
}

/// The renditions differ in their names, and no segment is as long as 2^64
/// seconds.
pub open spec fn sound_state(saved: Seq<SavedView>) -> bool {
    &&& forall|i: int, j: int|
        0 <= i < j < saved.len() ==> (#[trigger] saved[i]).subdir != (#[trigger] saved[j]).subdir
    &&& forall|i: int, k: int|
        0 <= i < saved.len() && 0 <= k < saved[i].window.len() ==> (
        #[trigger] saved[i].window[k]).length.bits < 0x43f0_0000_0000_0000
}

/// A run goes on where a rendition stopped: with the same number, and with
/// segments of the same numbers and names.
pub open spec fn goes_on(from: (u64, Seq<ClosedView>), s: SavedView) -> bool {
    &&& from.0 == s.next_seq
    &&& from.1.len() == s.window.len()
    &&& forall|k: int|
        0 <= k < s.window.len() ==> (#[trigger] from.1[k]).seq == s.window[k].seq && from.1[k].name
            == s.window[k].name
}

/// What is read from a text goes on where the renditions stopped.
pub open spec fn reads_state(text: Seq<char>, saved: Seq<SavedView>) -> bool {
    state_entries_of(text) matches Ok(Some(read)) && forall|i: int|
        0 <= i < saved.len() ==> goes_on(
            resumed(entry_states(read), saved[i].subdir),
            #[trigger] saved[i],
        )
}

fn section_of(r: &SavedRendition) -> (s: Section)
    ensures
        section_view(s) == state_section(r@),
{
    let mut list: Vec<(u64, u64, String)> = Vec::new();
    let mut i: usize = 0;
    while i < r.window.len()
        invariant
            i <= r.window@.len(),
            list@.len() == i,
            forall|k: int|
                0 <= k < i ==> {
                    let c = r.window@[k];
                    &&& (#[trigger] list@[k]).0 == c.seq
                    &&& list@[k].1 == c.length.bits
                    &&& list@[k].2@ == c.name@
                },
        decreases r.window@.len() - i,
    {
        let c = &r.window[i];
        list.push((c.seq, c.length.bits, owned(c.name.as_str())));
        i = i + 1;
    }
    let s = (owned(r.subdir.as_str()), r.next_seq, list);
    assert(section_view(s).list =~= state_section(r@).list);
    s
}

/// The text of the state file of renditions. Where the state is sound, a run
/// that loads it goes on where each rendition stopped; the lengths of the
/// segments may be read back with another last place.
pub fn state_text(saved: &Vec<SavedRendition>) -> (s: String)
    ensures
        s@ == state_text_of(saved_views(saved@)),
        sound_state(saved_views(saved@)) ==> reads_state(s@, saved_views(saved@)),
{
    let mut sections: Vec<Section> = Vec::new();
    let mut i: usize = 0;
    while i < saved.len()
        invariant
            i <= saved@.len(),
            sections@.len() == i,
            forall|k: int|
                0 <= k < i ==> section_view(#[trigger] sections@[k]) == state_section(saved@[k]@),
        decreases saved@.len() - i,
    {
        sections.push(section_of(&saved[i]));
        i = i + 1;
    }
    let ghost views = saved_views(saved@);
    assert(section_views(sections@) =~= state_sections(views));
    let s = write_document(
        "version",
        STATE_VERSION,
        "renditions",
        "next_seq",
        "closed",
        &sections,
    );
    proof {
        if sound_state(views) {
            lemma_state_is_readable(views);
            match state_entries_of(s@) {
                Ok(Some(read)) => lemma_reads_state(read, views),
                _ => {},
            }
        }
    }
    s
}

proof fn lemma_state_is_readable(saved: Seq<SavedView>)
    requires
        sound_state(saved),
    ensures
        readable("version"@, "renditions"@, "next_seq"@, "closed"@, state_sections(saved)),
{
    reveal_strlit("version");
    reveal_strlit("renditions");
    reveal_strlit("next_seq");
    reveal_strlit("closed");
    assert("version"@.len() != "renditions"@.len());
    assert("next_seq"@.len() != "closed"@.len());
    let sections = state_sections(saved);
    assert forall|i: int, j: int| 0 <= i < j < sections.len() implies (
    #[trigger] sections[i]).name != (#[trigger] sections[j]).name by {
        assert(saved[i].subdir != saved[j].subdir);
    }
    assert forall|i: int, k: int|
        0 <= i < sections.len() && 0 <= k < sections[i].list.len() implies (
    #[trigger] sections[i].list[k]).1 < 0x43f0_0000_0000_0000 by {
        assert(saved[i].window[k].length.bits < 0x43f0_0000_0000_0000);
    }
}

proof fn lemma_resumed_at(states: Seq<SavedView>, j: int)
    requires
        0 <= j < states.len(),
        forall|a: int, b: int|
            0 <= a < b < states.len() ==> (#[trigger] states[a]).subdir != (
            #[trigger] states[b]).subdir,
    ensures
        resumed(states, states[j].subdir) == (states[j].next_seq, states[j].window),
    decreases states.len(),
{
    if j < states.len() - 1 {
        let init = states.drop_last();
        assert(states[j].subdir != states[states.len() - 1].subdir);
        assert forall|a: int, b: int| 0 <= a < b < init.len() implies (
        #[trigger] init[a]).subdir != (#[trigger] init[b]).subdir by {
            assert(states[a].subdir != states[b].subdir);
        }
        assert(init[j] == states[j]);
        lemma_resumed_at(init, j);
    }
}

proof fn lemma_held_items(
    items: Seq<Option<Seq<ScalarView>>>,
    list: Seq<(u64, u64, Seq<char>)>,
    n: int,
)
    requires
        items.len() == list.len(),
        0 <= n <= items.len(),
        forall|k: int| 0 <= k < items.len() ==> holds_item(#[trigger] items[k], list[k]),
    ensures
        item_segments(items.take(n)).len() == n,
        forall|k: int|
            0 <= k < n ==> (#[trigger] item_segments(items.take(n))[k]).seq == list[k].0
                && item_segments(items.take(n))[k].name == list[k].2,
    decreases n,
{
    if n > 0 {
        lemma_held_items(items, list, n - 1);
        let part = items.take(n);
        assert(part.drop_last() =~= items.take(n - 1));
        assert(part.last() == items[n - 1]);
        assert(holds_item(items[n - 1], list[n - 1]));
        assert(item_segment(part.last()) is Some);
        let before = item_segments(items.take(n - 1));
        assert(item_segments(part) == before.push(item_segment(part.last()).unwrap()));
    }
}

proof fn lemma_reads_state(read: Seq<EntryView>, saved: Seq<SavedView>)
    requires
        holds_sections(read, state_sections(saved)),
        forall|i: int, k: int|
            0 <= i < saved.len() && 0 <= k < saved[i].window.len() ==> (
            #[trigger] saved[i].window[k]).seq <= u64::MAX,
    ensures
        forall|i: int|
            0 <= i < saved.len() ==> goes_on(
                resumed(entry_states(read), saved[i].subdir),
                #[trigger] saved[i],
            ),
{
    let sections = state_sections(saved);
    let states = entry_states(read);
    assert forall|i: int| 0 <= i < saved.len() implies goes_on(
        resumed(states, saved[i].subdir),
        #[trigger] saved[i],
    ) by {
        assert(sections[i] == state_section(saved[i]));
        let j = choose|j: int|
            0 <= j < read.len() && holds_section(#[trigger] read[j], sections[i]);
        assert(holds_section(read[j], sections[i]));
        let items = read[j].list.unwrap();
        lemma_held_items(items, sections[i].list, items.len() as int);
        assert(items.take(items.len() as int) =~= items);
        assert forall|a: int, b: int| 0 <= a < b < states.len() implies (
        #[trigger] states[a]).subdir != (#[trigger] states[b]).subdir by {
            assert(read[a].name != read[b].name);
        }
        lemma_resumed_at(states, j);
        assert(states[j] == entry_state(read[j]));
        let window = states[j].window;
        assert forall|k: int| 0 <= k < saved[i].window.len() implies (#[trigger] window[k]).seq
            == saved[i].window[k].seq && window[k].name == saved[i].window[k].name by {
            assert(saved[i].window[k].seq <= u64::MAX);
            assert(sections[i].list[k].0 == saved[i].window[k].seq as u64);
        }
    }
}

/// What a rendition goes on from: the last saved state of its name, or
/// nothing.
pub open spec fn resumed(saved: Seq<SavedView>, subdir: Seq<char>) -> (u64, Seq<ClosedView>)
    decreases saved.len(),
{
    if saved.len() == 0 {
        (0, Seq::empty())
    } else if saved.last().subdir == subdir {
        (saved.last().next_seq, saved.last().window)
    } else {
        resumed(saved.drop_last(), subdir)
    }
}

/// What a rendition goes on from.
pub fn resume(saved: &Vec<SavedRendition>, subdir: &str) -> (r: (u64, Vec<ClosedSegment>))
    ensures
        (r.0, closed_views(r.1@)) == resumed(saved_views(saved@), subdir@),
{
    let ghost all = saved_views(saved@);
    let mut n: usize = saved.len();
    proof {
        assert(all.take(n as int) =~= all);
    }
    while n > 0
        invariant
            n <= saved@.len(),
            all == saved_views(saved@),
            resumed(all, subdir@) == resumed(all.take(n as int), subdir@),
        decreases n,
    {
        proof {
            assert(all.take(n as int).last() == saved@[n - 1]@);
            assert(all.take(n as int).drop_last() =~= all.take(n - 1));
        }
        let r = &saved[n - 1];
        if same(r.subdir.as_str(), subdir) {
            return (r.next_seq, copy_window(&r.window));
        }
        n = n - 1;
    }
    let empty: Vec<ClosedSegment> = Vec::new();
    assert(closed_views(empty@) =~= Seq::<ClosedView>::empty());
    (0, empty)
}

// ---------------------------------------------------------------------------
// Renditions
// ---------------------------------------------------------------------------

/// The subdirectories of the streams: one for each rendition, or the
/// directory itself.
pub open spec fn subdirs_of(cfg: HlsOutputConfig) -> Seq<Seq<char>> {
    if cfg.renditions@.len() == 0 {
        seq![Seq::empty()]
    } else {
        Seq::new(cfg.renditions@.len(), |i: int| cfg.renditions@[i].name@)
    }
}

/// The bitrate of a stream: that of the first rendition of its name.
pub open spec fn bitrate_for(renditions: Seq<HlsRendition>, subdir: Seq<char>) -> u32
    decreases renditions.len(),
{
    if renditions.len() == 0 {
        CLASSIC_BITRATE
    } else if renditions[0].name@ == subdir {
        renditions[0].bitrate
    } else {
        bitrate_for(renditions.skip(1), subdir)
    }
}

fn find_bitrate(renditions: &Vec<HlsRendition>, subdir: &str) -> (b: u32)
    ensures
        b == bitrate_for(renditions@, subdir@),
{
    let mut i: usize = 0;
    proof {
        assert(renditions@.skip(0) =~= renditions@);
    }
    while i < renditions.len()
        invariant
            i <= renditions@.len(),
            bitrate_for(renditions@, subdir@) == bitrate_for(renditions@.skip(i as int), subdir@),
        decreases renditions@.len() - i,
    {
        proof {
            assert(renditions@.skip(i as int)[0] == renditions@[i as int]);
            assert(renditions@.skip(i as int).skip(1) =~= renditions@.skip(i as int + 1));
        }
        if same(renditions[i].name.as_str(), subdir) {
            return renditions[i].bitrate;
        }
        i = i + 1;
    }
    CLASSIC_BITRATE
}

/// The stream of a subdirectory at the start of a run: with a saved state it
/// goes on, without one it starts from nothing.
pub open spec fn planned(
    cfg: HlsOutputConfig,
    saved: Option<Vec<SavedRendition>>,
    sample_rate: u32,
    epoch: u64,
    subdir: Seq<char>,
) -> StreamState {
    let (next_seq, window) = match saved {
        Some(states) => resumed(saved_views(states@), subdir),
        None => (0, Seq::empty()),
    };
    stream_start(sample_rate, epoch, next_seq, window)
}

/// No saved number is at its limit.
pub open spec fn sound_saved(saved: Option<Vec<SavedRendition>>) -> bool {
    saved matches Some(states) ==> forall|i: int|
        0 <= i < states@.len() ==> (#[trigger] states@[i]).next_seq < u64::MAX
}

/// Whether no saved number is at its limit.
pub fn saved_is_sound(saved: &Option<Vec<SavedRendition>>) -> (b: bool)
    ensures
        b == sound_saved(*saved),
{
    match saved {
        None => true,
        Some(states) => {
            let mut i: usize = 0;
            while i < states.len()
                invariant
                    i <= states@.len(),
                    *saved == Some(*states),
                    forall|k: int| 0 <= k < i ==> (#[trigger] states@[k]).next_seq < u64::MAX,
                decreases states@.len() - i,
            {
                if states[i].next_seq == u64::MAX {
                    proof {
                        assert(sound_saved(*saved) ==> (saved->0)@[i as int].next_seq < u64::MAX);
                    }
                    return false;
                }
                i = i + 1;
            }
            true
        },
    }
}

proof fn lemma_resumed_sound(saved: Seq<SavedView>, subdir: Seq<char>)
    requires
        forall|i: int| 0 <= i < saved.len() ==> (#[trigger] saved[i]).next_seq < u64::MAX,
    ensures
        resumed(saved, subdir).0 < u64::MAX,
    decreases saved.len(),
{
    if saved.len() > 0 {
        assert(saved.last() == saved[saved.len() - 1]);
        if saved.last().subdir != subdir {
            assert forall|i: int| 0 <= i < saved.drop_last().len() implies (
            #[trigger] saved.drop_last()[i]).next_seq < u64::MAX by {
                assert(saved.drop_last()[i] == saved[i]);
            }
            lemma_resumed_sound(saved.drop_last(), subdir);
        }
    }
}

/// The streams of the output at the start of a run.
pub fn plan_streams(
    cfg: &HlsOutputConfig,
    saved: &Option<Vec<SavedRendition>>,
    sample_rate: u32,
    epoch: u64,
) -> (out: Vec<HlsStream>)
    requires
        sample_rate > 0,
        epoch <= 0x7fff_ffff_ffff_ffff,
        sound_saved(*saved),
    ensures
        out@.len() == subdirs_of(*cfg).len(),
        forall|i: int|
            0 <= i < out@.len() ==> {
                &&& (#[trigger] out@[i]).wf()
                &&& out@[i].subdir_text() == subdirs_of(*cfg)[i]
                &&& out@[i].bitrate_value() == bitrate_for(cfg.renditions@, subdirs_of(*cfg)[i])
                &&& out@[i]@ == planned(*cfg, *saved, sample_rate, epoch, subdirs_of(*cfg)[i])
            },
{
    let n: usize = if cfg.renditions.len() == 0 { 1 } else { cfg.renditions.len() };
    let mut out: Vec<HlsStream> = Vec::new();
    let mut i: usize = 0;
    while i < n
        invariant
            i <= n,
            n == subdirs_of(*cfg).len(),
            n == (if cfg.renditions@.len() == 0 {
                1
            } else {
                cfg.renditions@.len()
            }),
            sample_rate > 0,
            epoch <= 0x7fff_ffff_ffff_ffff,
            sound_saved(*saved),
            out@.len() == i,
            forall|k: int|
                0 <= k < i ==> {
                    &&& (#[trigger] out@[k]).wf()
                    &&& out@[k].subdir_text() == subdirs_of(*cfg)[k]
                    &&& out@[k].bitrate_value() == bitrate_for(
                        cfg.renditions@,
                        subdirs_of(*cfg)[k],
                    )
                    &&& out@[k]@ == planned(*cfg, *saved, sample_rate, epoch, subdirs_of(*cfg)[k])
                },
        decreases n - i,
    {
        let subdir = if cfg.renditions.len() == 0 {
            String::new()
        } else {
            owned(cfg.renditions[i].name.as_str())
        };
        assert(subdir@ =~= subdirs_of(*cfg)[i as int]);
        let bitrate: u32 = find_bitrate(&cfg.renditions, subdir.as_str());
        let (next_seq, window) = match saved {
            Some(states) => {
                proof {
                    let views = saved_views(states@);
                    assert forall|k: int| 0 <= k < views.len() implies (
                    #[trigger] views[k]).next_seq < u64::MAX by {
                        assert(states@[k].next_seq < u64::MAX);
                    }
                    lemma_resumed_sound(views, subdir@);
                }
                resume(states, subdir.as_str())
            },
            None => {
                let empty: Vec<ClosedSegment> = Vec::new();
                assert(closed_views(empty@) =~= Seq::<ClosedView>::empty());
                (0, empty)
            },
        };
        out.push(HlsStream::new(subdir.as_str(), bitrate, sample_rate, epoch, next_seq, window));
        i = i + 1;
    }
    out
}

/// A file of the directory is left over from an earlier run: a playlist or
/// what could be a segment.
pub open spec fn stale(name: Seq<char>, template: Seq<char>) -> bool {
    name == "playlist.m3u8"@ || name == "index.m3u8"@ || name_matches(name, template)
}

/// Whether a file is removed before a run that starts from nothing.
pub fn is_stale(name: &str, cfg: &HlsOutputConfig) -> (b: bool)
    ensures
        b == stale(name@, cfg.segment_name@),
{
    same(name, "playlist.m3u8") || same(name, "index.m3u8") || name_matches_template(
        name,
        cfg.segment_name.as_str(),
    )
}

/// The window holds a segment of this name.
pub open spec fn in_window(window: Seq<ClosedView>, name: Seq<char>) -> bool {
    exists|i: int| 0 <= i < window.len() && (#[trigger] window[i]).name == name
}

/// A file is removed before a run that goes on: it could be a segment and is
/// not in the window.
pub open spec fn orphaned(name: Seq<char>, template: Seq<char>, window: Seq<ClosedView>) -> bool {
    name_matches(name, template) && !in_window(window, name)
}

/// Whether a file is removed before a run that goes on: it could be a segment
/// and is not in the window.
pub fn is_orphan(name: &str, cfg: &HlsOutputConfig, stream: &HlsStream) -> (b: bool)
    ensures
        b == orphaned(name@, cfg.segment_name@, stream@.window),
{
    if !name_matches_template(name, cfg.segment_name.as_str()) {
        return false;
    }
    let window = stream.window();
    let mut i: usize = 0;
    while i < window.len()
        invariant
            i <= window@.len(),
            closed_views(window@) == stream@.window,
            forall|k: int| 0 <= k < i ==> (#[trigger] stream@.window[k]).name != name@,
        decreases window@.len() - i,
    {
        assert(stream@.window[i as int] == window@[i as int]@);
        if same(window[i].name.as_str(), name) {
            return false;
        }
        i = i + 1;
    }
    assert(stream@.window.len() == window@.len());
    true
}

// ---------------------------------------------------------------------------
// The master playlist
// ---------------------------------------------------------------------------

/// The rendition carries pictures.
pub open spec fn carries_video(r: HlsRendition, source: Option<(u32, u32)>) -> bool {
    r.video_bitrate > 0 && source is Some
}

/// The bandwidth of a rendition: its bitrates and a tenth for the container.
pub open spec fn bandwidth(r: HlsRendition, source: Option<(u32, u32)>) -> nat {
    let sum = r.bitrate + (if carries_video(r, source) {
        r.video_bitrate as int
    } else {
        0
    });
    (sum * 11 / 10) as nat
}

/// The picture size of a rendition: its own, or that of the source.
pub open spec fn picture_size(r: HlsRendition, source: Option<(u32, u32)>) -> (u32, u32) {
    match (r.width, r.height, source) {
        (Some(w), Some(h), _) => (w, h),
        (None, None, Some(size)) => size,
        _ => (0, 0),
    }
}

/// The two lines of a rendition in the master playlist.
pub open spec fn variant_lines(r: HlsRendition, source: Option<(u32, u32)>) -> Seq<char> {
    let (w, h) = picture_size(r, source);
    "#EXT-X-STREAM-INF:BANDWIDTH="@ + dec(bandwidth(r, source)) + (if carries_video(r, source) {
        ",RESOLUTION="@ + dec(w as nat) + "x"@ + dec(h as nat)
            + ",CODECS=\"avc1.42401f,mp4a.40.2\",NAME=\""@
    } else {
        ",CODECS=\"mp4a.40.2\",NAME=\""@
    }) + r.name@ + "\"\n"@ + r.name@ + "/playlist.m3u8\n"@
}

/// The lines of the renditions in the master playlist.
pub open spec fn variants(renditions: Seq<HlsRendition>, source: Option<(u32, u32)>) -> Seq<char>
    decreases renditions.len(),
{
    if renditions.len() == 0 {
        Seq::empty()
    } else {
        variants(renditions.drop_last(), source) + variant_lines(renditions.last(), source)
    }
}

/// The master playlist lists every rendition's playlist.
pub open spec fn master_text(renditions: Seq<HlsRendition>, source: Option<(u32, u32)>) -> Seq<char> {
    "#EXTM3U\n#EXT-X-VERSION:3\n"@ + variants(renditions, source)
}

/// The master playlist lists every rendition's playlist.
#[verifier::rlimit(40)]
pub fn master_playlist(cfg: &HlsOutputConfig, source: Option<(u32, u32)>) -> (s: String)
    ensures
        s@ == master_text(cfg.renditions@, source),
{
    let mut s = owned("#EXTM3U\n#EXT-X-VERSION:3\n");
    let ghost head = s@;
    let ghost all = cfg.renditions@;
    let mut i: usize = 0;
    proof {
        assert(all.take(0) =~= Seq::<HlsRendition>::empty());
        assert(s@ =~= head + variants(all.take(0), source));
    }
    while i < cfg.renditions.len()
        invariant
            i <= cfg.renditions@.len(),
            all == cfg.renditions@,
            s@ == head + variants(all.take(i as int), source),
        decreases cfg.renditions@.len() - i,
    {
        proof {
            assert(all.take(i as int + 1).drop_last() =~= all.take(i as int));
            assert(all.take(i as int + 1).last() == all[i as int]);
        }
        let ghost before = s@;
        let r = &cfg.renditions[i];
        let video = r.video_bitrate > 0 && source.is_some();
        let sum: u64 = r.bitrate as u64 + (if video { r.video_bitrate as u64 } else { 0 });
        s.append("#EXT-X-STREAM-INF:BANDWIDTH=");
        push_dec(&mut s, sum * 11 / 10);
        if video {
            let (w, h) = match (r.width, r.height, source) {
                (Some(w), Some(h), _) => (w, h),
                (None, None, Some(size)) => size,
                _ => (0, 0),
            };
            s.append(",RESOLUTION=");
            push_dec(&mut s, w as u64);
            s.append("x");
            push_dec(&mut s, h as u64);
            s.append(",CODECS=\"avc1.42401f,mp4a.40.2\",NAME=\"");
        } else {
            s.append(",CODECS=\"mp4a.40.2\",NAME=\"");
        }
        s.append(r.name.as_str());
        s.append("\"\n");
        s.append(r.name.as_str());
        s.append("/playlist.m3u8\n");
        proof {
            assert(s@ =~= before + variant_lines(*r, source));
            assert(s@ =~= head + (variants(all.take(i as int), source) + variant_lines(
                *r,
                source,
            )));
        }
        i = i + 1;
    }
    proof {
        assert(all.take(i as int) =~= all);
    }
    s
}

/// The master playlist of a single stream with pictures.
pub open spec fn video_master_text(width: u32, height: u32) -> Seq<char> {
    "#EXTM3U\n#EXT-X-VERSION:3\n#EXT-X-STREAM-INF:BANDWIDTH=1628000,RESOLUTION="@ + dec(
        width as nat,
    ) + "x"@ + dec(height as nat) + ",CODECS=\"avc1.42401f,mp4a.40.2\"\nplaylist.m3u8\n"@
}

/// The master playlist of a single stream with pictures.
pub fn video_master_playlist(width: u32, height: u32) -> (s: String)
    ensures
        s@ == video_master_text(width, height),
{
    let mut s = owned(
        "#EXTM3U\n#EXT-X-VERSION:3\n#EXT-X-STREAM-INF:BANDWIDTH=1628000,RESOLUTION=",
    );
    push_dec(&mut s, width as u64);
    s.append("x");
    push_dec(&mut s, height as u64);
    s.append(",CODECS=\"avc1.42401f,mp4a.40.2\"\nplaylist.m3u8\n");
    s
}

// ---------------------------------------------------------------------------
// The output
// ---------------------------------------------------------------------------

/// What is to be done for one stream.
pub struct StreamWork {
    /// The files of the segments that were closed, in order.
    pub segments: Vec<SegmentFiles>,
    /// The playlist that ends the stream, where it is over.
    pub last_playlist: Option<String>,
}

/// The streams of an output, fed with the same audio.
pub struct HlsOutput {
    config: HlsOutputConfig,
    streams: Vec<HlsStream>,
    unsaved: bool,
}

/// The stream at the end: the tail of its encoder is fed, and its last
/// segment closed.
pub open spec fn ended(s: StreamState, cfg: HlsOutputConfig, tail: Seq<u8>) -> (
    StreamState,
    Seq<FilesView>,
) {
    let (t, files) = fed(s, cfg, adts_frames(tail, 0), false);
    let (u, last) = finished(t, cfg);
    (
        u,
        match last {
            Some(f) => files.push(f),
            None => files,
        },
    )
}

/// Every stream has room for the bytes that it is fed.
pub open spec fn all_have_room(streams: Seq<HlsStream>, adts: Seq<Vec<u8>>) -> bool {
    &&& streams.len() == adts.len()
    &&& forall|i: int| 0 <= i < streams.len() ==> room((#[trigger] streams[i])@, adts[i]@.len())
}

/// Some stream closed a segment.
pub open spec fn any_closed(work: Seq<StreamWork>) -> bool {
    exists|i: int| 0 <= i < work.len() && (#[trigger] work[i]).segments@.len() > 0
}

impl HlsOutput {
    /// The streams.
    pub closed spec fn streams_seq(&self) -> Seq<HlsStream> {
        self.streams@
    }

    /// The configuration.
    pub closed spec fn config_value(&self) -> HlsOutputConfig {
        self.config
    }

    /// A segment was closed at a picture, and the state was not saved since.
    pub closed spec fn unsaved(&self) -> bool {
        self.unsaved
    }

    /// Every stream is well-formed.
    pub open spec fn wf(&self) -> bool {
        forall|i: int|
            0 <= i < self.streams_seq().len() ==> (#[trigger] self.streams_seq()[i]).wf()
    }

    /// The output at the start of a run.
    pub fn new(
        config: HlsOutputConfig,
        saved: &Option<Vec<SavedRendition>>,
        sample_rate: u32,
        epoch: u64,
    ) -> (o: HlsOutput)
        requires
            sample_rate > 0,
            epoch <= 0x7fff_ffff_ffff_ffff,
            sound_saved(*saved),
        ensures
            o.wf(),
            !o.unsaved(),
            o.config_value() == config,
            o.streams_seq().len() == subdirs_of(config).len(),
            forall|i: int|
                0 <= i < o.streams_seq().len() ==> {
                    &&& (#[trigger] o.streams_seq()[i]).subdir_text() == subdirs_of(config)[i]
                    &&& o.streams_seq()[i].bitrate_value() == bitrate_for(
                        config.renditions@,
                        subdirs_of(config)[i],
                    )
                    &&& o.streams_seq()[i]@ == planned(
                        config,
                        *saved,
                        sample_rate,
                        epoch,
                        subdirs_of(config)[i],
                    )
                },
    {
        let streams = plan_streams(&config, saved, sample_rate, epoch);
        HlsOutput { config, streams, unsaved: false }
    }

    /// The streams.
    pub fn streams(&self) -> (v: &Vec<HlsStream>)
        ensures
            v@ == self.streams_seq(),
    {
        &self.streams
    }

    /// The configuration.
    pub fn config(&self) -> (c: &HlsOutputConfig)
        ensures
            *c == self.config_value(),
    {
        &self.config
    }

    /// A picture comes to stream `i`. Says what a segment that ends at it
    /// leaves to be done. What comes behind the end of the audio is handed in
    /// as a picture that decoding cannot start at.
    pub fn on_picture(&mut self, i: usize, pts: u64, idr: bool, picture_dur: u64) -> (r: Option<
        SegmentFiles,
    >)
        requires
            old(self).wf(),
            i < old(self).streams_seq().len(),
            picture_fits(old(self).streams_seq()[i as int]@, pts as nat, idr, picture_dur as nat),
        ensures
            final(self).wf(),
            final(self).config_value() == old(self).config_value(),
            final(self).streams_seq().len() == old(self).streams_seq().len(),
            forall|k: int|
                #![trigger final(self).streams_seq()[k]]
                0 <= k < old(self).streams_seq().len() && k != i ==> final(self).streams_seq()[k]
                    == old(self).streams_seq()[k],
            ({
                let before = old(self).streams_seq()[i as int];
                let after = final(self).streams_seq()[i as int];
                let (s, files) = with_picture(
                    before@,
                    old(self).config_value(),
                    pts as nat,
                    idr,
                    picture_dur as nat,
                );
                &&& after@ == s
                &&& after.subdir_text() == before.subdir_text()
                &&& after.bitrate_value() == before.bitrate_value()
                &&& match r {
                    Some(f) => files == Some(f@),
                    None => files is None,
                }
                &&& final(self).unsaved() == (old(self).unsaved() || files is Some)
            }),
    {
        let files = self.streams[i].on_picture(&self.config, pts, idr, picture_dur);
        if files.is_some() {
            self.unsaved = true;
        }
        files
    }

    /// Feeds each stream what its encoder made of a frame. A stream that
    /// expects pictures defers the end of a segment until one comes. Says what
    /// is to be done for each, and whether the state is to be saved: it is
    /// whenever a segment was closed, here or at a picture since the last
    /// frame.
    pub fn feed(&mut self, adts: &Vec<Vec<u8>>, defer: &Vec<bool>) -> (r: (Vec<StreamWork>, bool))
        requires
            old(self).wf(),
            all_have_room(old(self).streams_seq(), adts@),
            defer@.len() == old(self).streams_seq().len(),
        ensures
            final(self).wf(),
            !final(self).unsaved(),
            final(self).config_value() == old(self).config_value(),
            final(self).streams_seq().len() == old(self).streams_seq().len(),
            r.0@.len() == old(self).streams_seq().len(),
            forall|i: int|
                #![trigger final(self).streams_seq()[i]]
                #![trigger r.0@[i]]
                0 <= i < r.0@.len() ==> {
                    let (s, files) = fed(
                        old(self).streams_seq()[i]@,
                        old(self).config_value(),
                        adts_frames(adts@[i]@, 0),
                        defer@[i],
                    );
                    &&& final(self).streams_seq()[i]@ == s
                    &&& final(self).streams_seq()[i].subdir_text() == old(
                        self,
                    ).streams_seq()[i].subdir_text()
                    &&& final(self).streams_seq()[i].bitrate_value() == old(
                        self,
                    ).streams_seq()[i].bitrate_value()
                    &&& files_views(r.0@[i].segments@) == files
                    &&& r.0@[i].last_playlist is None
                },
            r.1 == (old(self).unsaved() || any_closed(r.0@)),
    {
        let ghost before = self.streams@;
        let mut work: Vec<StreamWork> = Vec::new();
        let mut save = false;
        let mut i: usize = 0;
        while i < self.streams.len()
            invariant
                i <= self.streams@.len(),
                self.config == old(self).config,
                self.unsaved == old(self).unsaved,
                before == old(self).streams@,
                self.streams@.len() == before.len(),
                work@.len() == i,
                all_have_room(before, adts@),
                defer@.len() == before.len(),
                forall|k: int| 0 <= k < before.len() ==> (#[trigger] before[k]).wf(),
                forall|k: int| i <= k < before.len() ==> #[trigger] self.streams@[k] == before[k],
                forall|k: int| 0 <= k < i ==> (#[trigger] self.streams@[k]).wf(),
                forall|k: int|
                    #![trigger self.streams@[k]]
                    #![trigger work@[k]]
                    0 <= k < i ==> {
                        let (s, files) = fed(
                            before[k]@,
                            self.config,
                            adts_frames(adts@[k]@, 0),
                            defer@[k],
                        );
                        &&& self.streams@[k]@ == s
                        &&& self.streams@[k].subdir_text() == before[k].subdir_text()
                        &&& self.streams@[k].bitrate_value() == before[k].bitrate_value()
                        &&& files_views(work@[k].segments@) == files
                        &&& work@[k].last_playlist is None
                    },
                save == any_closed(work@),
            decreases self.streams@.len() - i,
        {
            let ghost w0 = work@;
            assert(self.streams@[i as int] == before[i as int]);
            let segments = self.streams[i].feed(&self.config, adts[i].as_slice(), defer[i]);
            if segments.len() > 0 {
                save = true;
            }
            work.push(StreamWork { segments, last_playlist: None });
            proof {
                assert(any_closed(work@) == (any_closed(w0) || segments@.len() > 0)) by {
                    if any_closed(w0) {
                        let k = choose|k: int|
                            0 <= k < w0.len() && (#[trigger] w0[k]).segments@.len() > 0;
                        assert(work@[k] == w0[k]);
                    }
                    if segments@.len() > 0 {
                        assert(work@[i as int].segments@.len() > 0);
                    }
                    if any_closed(work@) {
                        let k = choose|k: int|
                            0 <= k < work@.len() && (#[trigger] work@[k]).segments@.len() > 0;
                        if k < w0.len() {
                            assert(w0[k] == work@[k]);
                        }
                    }
                }
            }
            i = i + 1;
        }
        let save = save || self.unsaved;
        self.unsaved = false;
        (work, save)
    }

    /// Ends each stream with what its encoder had left; the state is to be
    /// saved then.
    pub fn finish(&mut self, tails: &Vec<Vec<u8>>) -> (work: Vec<StreamWork>)
        requires
            old(self).wf(),
            all_have_room(old(self).streams_seq(), tails@),
        ensures
            final(self).wf(),
            !final(self).unsaved(),
            final(self).config_value() == old(self).config_value(),
            final(self).streams_seq().len() == old(self).streams_seq().len(),
            work@.len() == old(self).streams_seq().len(),
            forall|i: int|
                #![trigger final(self).streams_seq()[i]]
                #![trigger work@[i]]
                0 <= i < work@.len() ==> {
                    let (s, files) = ended(
                        old(self).streams_seq()[i]@,
                        old(self).config_value(),
                        tails@[i]@,
                    );
                    &&& final(self).streams_seq()[i]@ == s
                    &&& final(self).streams_seq()[i].subdir_text() == old(
                        self,
                    ).streams_seq()[i].subdir_text()
                    &&& final(self).streams_seq()[i].bitrate_value() == old(
                        self,
                    ).streams_seq()[i].bitrate_value()
                    &&& files_views(work@[i].segments@) == files
                    &&& work@[i].last_playlist matches Some(p) && p@ == playlist_text(
                        s.window,
                        true,
                    )
                },
    {
        let ghost before = self.streams@;
        let mut work: Vec<StreamWork> = Vec::new();
        let mut i: usize = 0;
        while i < self.streams.len()
            invariant
                i <= self.streams@.len(),
                self.config == old(self).config,
                before == old(self).streams@,
                self.streams@.len() == before.len(),
                work@.len() == i,
                all_have_room(before, tails@),
                forall|k: int| 0 <= k < before.len() ==> (#[trigger] before[k]).wf(),
                forall|k: int| i <= k < before.len() ==> #[trigger] self.streams@[k] == before[k],
                forall|k: int| 0 <= k < i ==> (#[trigger] self.streams@[k]).wf(),
                forall|k: int|
                    #![trigger self.streams@[k]]
                    #![trigger work@[k]]
                    0 <= k < i ==> {
                        let (s, files) = ended(before[k]@, self.config, tails@[k]@);
                        &&& self.streams@[k]@ == s
                        &&& self.streams@[k].subdir_text() == before[k].subdir_text()
                        &&& self.streams@[k].bitrate_value() == before[k].bitrate_value()
                        &&& files_views(work@[k].segments@) == files
                        &&& work@[k].last_playlist matches Some(p) && p@ == playlist_text(
                            s.window,
                            true,
                        )
                    },
            decreases self.streams@.len() - i,
        {
            assert(self.streams@[i as int] == before[i as int]);
            let mut segments = self.streams[i].feed(&self.config, tails[i].as_slice(), false);
            let ghost f0 = files_views(segments@);
            match self.streams[i].finish_segment(&self.config) {
                Some(f) => {
                    segments.push(f);
                    assert(files_views(segments@) =~= f0.push(f@));
                },
                None => {},
            }
            let last = playlist(&self.streams[i].window, true);
            work.push(StreamWork { segments, last_playlist: Some(last) });
            i = i + 1;
        }
        self.unsaved = false;
        work
    }

    /// What each stream leaves behind for the next run.
    pub fn saved(&self) -> (v: Vec<SavedRendition>)
        ensures
            v@.len() == self.streams_seq().len(),
            forall|i: int|
                0 <= i < v@.len() ==> (#[trigger] v@[i])@ == saved_of(self.streams_seq()[i]),
    {
        let mut v: Vec<SavedRendition> = Vec::new();
        let mut i: usize = 0;
        while i < self.streams.len()
            invariant
                i <= self.streams@.len(),
                v@.len() == i,
                forall|k: int| 0 <= k < i ==> (#[trigger] v@[k])@ == saved_of(self.streams@[k]),
            decreases self.streams@.len() - i,
        {
            let s = &self.streams[i];
            v.push(
                SavedRendition {
                    subdir: owned(s.subdir.as_str()),
                    next_seq: s.next_seq,
                    window: copy_window(&s.window),
                },
            );
            i = i + 1;
        }
        v
    }
}

/// What a stream leaves behind for the next run.
pub open spec fn saved_of(s: HlsStream) -> SavedView {
    SavedView { subdir: s.subdir_text(), next_seq: s@.next_seq as u64, window: s@.window }
}

// ---------------------------------------------------------------------------
// Laws
// ---------------------------------------------------------------------------

/// The numbers of the window increase, and stay below that of the segment
/// that is being filled.
pub open spec fn numbered(s: StreamState) -> bool {
    &&& increasing(s.window)
    &&& forall|i: int| 0 <= i < s.window.len() ==> (#[trigger] s.window[i]).seq < s.seq
    &&& s.seq + 1 == s.next_seq
}

/// The numbers of the window increase.
pub open spec fn increasing(window: Seq<ClosedView>) -> bool {
    forall|i: int, j: int|
        0 <= i < j < window.len() ==> (#[trigger] window[i]).seq < (#[trigger] window[j]).seq
}

/// Where the kept segments come from.
proof fn lemma_kept(window: Seq<ClosedView>, from: int)
    ensures
        kept(window, from).len() <= window.len(),
        forall|i: int|
            0 <= i < kept(window, from).len() ==> (#[trigger] kept(window, from)[i]).seq >= from,
        forall|i: int|
            0 <= i < kept(window, from).len() ==> exists|j: int|
                0 <= j < window.len() && #[trigger] window[j] == #[trigger] kept(window, from)[i],
        increasing(window) ==> increasing(kept(window, from)),
        window.len() > 0 && window.last().seq >= from ==> kept(window, from).len() > 0 && kept(
            window,
            from,
        ).last() == window.last(),
    decreases window.len(),
{
    if window.len() > 0 {
        let front = window.drop_last();
        lemma_kept(front, from);
        let before = kept(front, from);
        let all = kept(window, from);
        assert forall|i: int| 0 <= i < all.len() implies exists|j: int|
            0 <= j < window.len() && #[trigger] window[j] == #[trigger] all[i] by {
            if i < before.len() {
                assert(all[i] == before[i]);
                let j = choose|j: int|
                    0 <= j < front.len() && #[trigger] front[j] == before[i];
                assert(window[j] == front[j]);
            } else {
                assert(window[window.len() - 1] == all[i]);
            }
        }
        if increasing(window) {
            assert(increasing(front)) by {
                assert forall|i: int, j: int| 0 <= i < j < front.len() implies (
                #[trigger] front[i]).seq < (#[trigger] front[j]).seq by {
                    assert(window[i].seq < window[j].seq);
                }
            }
            assert forall|i: int, j: int| 0 <= i < j < all.len() implies (#[trigger] all[i]).seq < (
            #[trigger] all[j]).seq by {
                if j < before.len() {
                    assert(before[i].seq < before[j].seq);
                } else {
                    assert(all[i] == before[i]);
                    let k = choose|k: int|
                        0 <= k < front.len() && #[trigger] front[k] == before[i];
                    assert(window[k].seq < window[window.len() - 1].seq);
                }
            }
        }
    }
}

/// The window behind a closed segment.
proof fn lemma_finished_window(s: StreamState, cfg: HlsOutputConfig)
    requires
        numbered(s),
    ensures
        ({
            let t = finished(s, cfg).0;
            &&& increasing(t.window)
            &&& forall|i: int| 0 <= i < t.window.len() ==> (#[trigger] t.window[i]).seq <= s.seq
            &&& s.count > 0 && cfg.retention > 0 ==> t.window.len() > 0 && t.window.last().seq
                == s.seq
            &&& s.count > 0 ==> forall|i: int|
                0 <= i < t.window.len() ==> (#[trigger] t.window[i]).seq + cfg.retention > s.seq
        }),
{
    if s.count > 0 {
        let all = s.window.push(
            ClosedView {
                seq: s.seq,
                length: length_of((s.end - s.start) as nat),
                name: current_name(s, cfg.segment_name@),
            },
        );
        let from = keep_from(s.seq, cfg.retention as nat);
        assert(increasing(all)) by {
            assert forall|i: int, j: int| 0 <= i < j < all.len() implies (#[trigger] all[i]).seq < (
            #[trigger] all[j]).seq by {
                if j < s.window.len() {
                    assert(s.window[i].seq < s.window[j].seq);
                } else {
                    assert(s.window[i].seq < s.seq);
                }
            }
        }
        assert forall|j: int| 0 <= j < all.len() implies (#[trigger] all[j]).seq <= s.seq by {
            if j < s.window.len() {
                assert(s.window[j].seq < s.seq);
            }
        }
        lemma_kept(all, from);
        assert(all.last().seq == s.seq);
        assert forall|i: int| 0 <= i < kept(all, from).len() implies (
        #[trigger] kept(all, from)[i]).seq <= s.seq by {
            let j = choose|j: int| 0 <= j < all.len() && #[trigger] all[j] == kept(all, from)[i];
            assert(all[j].seq <= s.seq);
        }
    }
}

/// Segments are never renumbered: however long a stream is fed, the numbers of
/// its window increase, and stay below that of the segment being filled.
pub proof fn law_numbers_increase(
    s: StreamState,
    cfg: HlsOutputConfig,
    frames: Seq<Seq<u8>>,
    defer: bool,
)
    requires
        numbered(s),
    ensures
        numbered(fed(s, cfg, frames, defer).0),
        fed(s, cfg, frames, defer).0.seq >= s.seq,
    decreases frames.len(),
{
    if frames.len() > 0 {
        law_numbers_increase(s, cfg, frames.drop_last(), defer);
        let t = fed(s, cfg, frames.drop_last(), defer).0;
        lemma_finished_window(t, cfg);
    }
}

/// A segment that ends at a picture is numbered like any other.
pub proof fn law_picture_cuts_are_numbered(
    s: StreamState,
    cfg: HlsOutputConfig,
    pts: nat,
    idr: bool,
    picture_dur: nat,
)
    requires
        numbered(s),
    ensures
        numbered(with_picture(s, cfg, pts, idr, picture_dur).0),
        with_picture(s, cfg, pts, idr, picture_dur).1 is Some ==> s.window_reached && idr,
{
    lemma_finished_window(s, cfg);
}

/// Segments are cut at pictures that decoding can start at: while pictures are
/// expected, audio ends a segment only once it is twice as long as it should
/// be, and such a picture ends one that is long enough, so that the next one
/// starts at the picture.
pub proof fn law_cuts_wait_for_pictures(
    s: StreamState,
    cfg: HlsOutputConfig,
    frame: Seq<u8>,
    pts: nat,
    picture_dur: nat,
)
    ensures
        fed_one(s, cfg, frame, true).1 is Some ==> s.window_reached && s.frames * s.frame_dur
            - s.start >= 2 * cfg.segment_ticks,
        s.count > 0 && s.frames * s.frame_dur - s.start >= cfg.segment_ticks && fed_one(
            s,
            cfg,
            frame,
            true,
        ).1 is None ==> fed_one(s, cfg, frame, true).0.window_reached,
        s.count > 0 && s.window_reached ==> {
            let (t, files) = with_picture(s, cfg, pts, true, picture_dur);
            files is Some && t.start == pts && t.count == 0 && !t.window_reached
        },
        with_picture(s, cfg, pts, false, picture_dur).1 is None,
{
}

/// A stream that goes on from a saved window is numbered, if the saved number
/// is behind those of the window; its first segment takes exactly the saved
/// number.
pub proof fn law_resume_continues_numbering(
    cfg: HlsOutputConfig,
    saved: Vec<SavedRendition>,
    sample_rate: u32,
    epoch: u64,
    subdir: Seq<char>,
)
    requires
        ({
            let (next, window) = resumed(saved_views(saved@), subdir);
            &&& increasing(window)
            &&& forall|i: int| 0 <= i < window.len() ==> (#[trigger] window[i]).seq < next
        }),
    ensures
        ({
            let s = planned(cfg, Some(saved), sample_rate, epoch, subdir);
            let (next, window) = resumed(saved_views(saved@), subdir);
            &&& numbered(s)
            &&& s.seq == next
            &&& s.window == window
        }),
{
}

/// A text of one line.
pub open spec fn one_line(s: Seq<char>) -> bool {
    forall|i: int| 0 <= i < s.len() ==> #[trigger] s[i] != '\n'
}

/// The lines of the segments in a playlist: two for each.
pub open spec fn segment_lines(window: Seq<ClosedView>) -> Seq<Seq<char>> {
    Seq::new(
        2 * window.len(),
        |i: int|
            if i % 2 == 0 {
                "#EXTINF:"@ + window[i / 2].length.text + ","@
            } else {
                window[i / 2].name
            },
    )
}

proof fn lemma_playlist_joined(head: Seq<Seq<char>>, window: Seq<ClosedView>)
    requires
        head.len() > 0,
    ensures
        joined_by(head, '\n') + "\n"@ + playlist_entries(window) == joined_by(
            head + segment_lines(window),
            '\n',
        ) + "\n"@,
    decreases window.len(),
{
    reveal_strlit("\n");
    reveal_strlit(",");
    reveal_strlit(",\n");
    assert("\n"@ =~= seq!['\n']);
    assert(",\n"@ =~= ","@ + "\n"@);
    if window.len() == 0 {
        assert(head + segment_lines(window) =~= head);
        assert(joined_by(head, '\n') + "\n"@ + Seq::<char>::empty() =~= joined_by(head, '\n')
            + "\n"@);
    } else {
        let init = window.drop_last();
        let c = window.last();
        lemma_playlist_joined(head, init);
        let e = "#EXTINF:"@ + c.length.text + ","@;
        let a = head + segment_lines(init);
        let b = a.push(e);
        let d = b.push(c.name);
        assert(d =~= head + segment_lines(window)) by {
            let n = 2 * init.len() as int;
            assert forall|i: int| 0 <= i < n implies segment_lines(init)[i]
                == #[trigger] segment_lines(window)[i] by {
                assert(init[i / 2] == window[i / 2]);
            }
            assert(n / 2 == init.len() && (n + 1) / 2 == init.len());
        }
        assert(b.drop_last() =~= a);
        assert(d.drop_last() =~= b);
        assert(joined_by(b, '\n') == joined_by(a, '\n') + seq!['\n'] + e);
        assert(joined_by(d, '\n') == joined_by(b, '\n') + seq!['\n'] + c.name);
        assert(playlist_entries(window) == playlist_entries(init) + "#EXTINF:"@ + c.length.text
            + ",\n"@ + c.name + "\n"@);
        let top = joined_by(head, '\n') + "\n"@;
        assert(top + playlist_entries(window) =~= (top + playlist_entries(init)) + e + "\n"@
            + c.name + "\n"@);
        assert(joined_by(head, '\n') + "\n"@ + playlist_entries(window) =~= joined_by(a, '\n')
            + "\n"@ + e + "\n"@ + c.name + "\n"@);
    }
}

proof fn lemma_four_lines(a: Seq<char>, b: Seq<char>, c: Seq<char>, d: Seq<char>)
    ensures
        joined_by(seq![a, b, c, d], '\n') == a + "\n"@ + b + "\n"@ + c + "\n"@ + d,
{
    reveal_strlit("\n");
    assert("\n"@ =~= seq!['\n']);
    let head = seq![a, b, c, d];
    reveal_with_fuel(joined_by, 5);
    assert(head.drop_last() =~= seq![a, b, c]);
    assert(seq![a, b, c].drop_last() =~= seq![a, b]);
    assert(seq![a, b].drop_last() =~= seq![a]);
}

/// A player reads every segment from the playlist: behind the target duration
/// and the number of the first segment, the length and the name of each
/// segment of the window, in order; and that the stream is over, exactly when
/// it is.
#[verifier::rlimit(60)]
pub proof fn law_playlist_reads_back(window: Seq<ClosedView>, finalized: bool)
    requires
        forall|i: int|
            0 <= i < window.len() ==> one_line((#[trigger] window[i]).name) && one_line(
                window[i].length.text,
            ),
    ensures
        ({
            let lines = split_all(playlist_text(window, finalized), '\n');
            let n = window.len() as int;
            &&& lines.len() == 2 * n + (if finalized {
                6int
            } else {
                5
            })
            &&& lines[0] == "#EXTM3U"@
            &&& lines[2] == "#EXT-X-TARGETDURATION:"@ + dec(target_duration(window) as nat)
            &&& lines[3] == "#EXT-X-MEDIA-SEQUENCE:"@ + dec(
                if n == 0 {
                    0
                } else {
                    window[0].seq
                },
            )
            &&& forall|i: int|
                0 <= i < n ==> #[trigger] lines[4 + 2 * i] == "#EXTINF:"@ + window[i].length.text
                    + ","@
            &&& forall|i: int| 0 <= i < n ==> #[trigger] lines[5 + 2 * i] == window[i].name
            &&& finalized ==> lines[4 + 2 * n] == "#EXT-X-ENDLIST"@
            &&& lines.last().len() == 0
        }),
{
    reveal_strlit("\n");
    reveal_strlit(",");
    reveal_strlit("#EXTM3U");
    reveal_strlit("#EXT-X-VERSION:3");
    reveal_strlit("#EXT-X-TARGETDURATION:");
    reveal_strlit("#EXT-X-MEDIA-SEQUENCE:");
    reveal_strlit("\n#EXT-X-MEDIA-SEQUENCE:");
    reveal_strlit("#EXTM3U\n#EXT-X-VERSION:3\n#EXT-X-TARGETDURATION:");
    reveal_strlit("#EXTINF:");
    reveal_strlit("#EXT-X-ENDLIST");
    reveal_strlit("#EXT-X-ENDLIST\n");
    assert("\n"@ =~= seq!['\n']);
    let n = window.len() as int;
    let first = if n == 0 {
        0
    } else {
        window[0].seq
    };
    let t = dec(target_duration(window) as nat);
    let a = "#EXTM3U"@;
    let b = "#EXT-X-VERSION:3"@;
    let c = "#EXT-X-TARGETDURATION:"@ + t;
    let d = "#EXT-X-MEDIA-SEQUENCE:"@ + dec(first);
    crate::text::lemma_dec_is_numeric(target_duration(window) as nat);
    crate::text::lemma_dec_is_numeric(first);
    assert(one_line(a) && one_line(b));
    assert(one_line(c)) by {
        assert forall|i: int| 0 <= i < c.len() implies #[trigger] c[i] != '\n' by {
            if i >= 22 {
                assert(is_digit(t[i - 22]));
            }
        }
    }
    assert(one_line(d)) by {
        assert forall|i: int| 0 <= i < d.len() implies #[trigger] d[i] != '\n' by {
            if i >= 22 {
                assert(is_digit(dec(first)[i - 22]));
            }
        }
    }
    let head = seq![a, b, c, d];
    lemma_four_lines(a, b, c, d);
    assert("#EXTM3U\n#EXT-X-VERSION:3\n#EXT-X-TARGETDURATION:"@ =~= a + "\n"@ + b + "\n"@
        + "#EXT-X-TARGETDURATION:"@);
    assert("\n#EXT-X-MEDIA-SEQUENCE:"@ =~= "\n"@ + "#EXT-X-MEDIA-SEQUENCE:"@);
    assert("#EXT-X-ENDLIST\n"@ =~= "#EXT-X-ENDLIST"@ + "\n"@);
    lemma_playlist_joined(head, window);
    let body = head + segment_lines(window);
    let end = Seq::<char>::empty();
    let all = if finalized {
        body.push("#EXT-X-ENDLIST"@).push(end)
    } else {
        body.push(end)
    };
    assert(body.push("#EXT-X-ENDLIST"@).drop_last() =~= body);
    assert(body.push(end).drop_last() =~= body);
    assert(all.drop_last().len() > 0);
    if finalized {
        assert(all.drop_last() =~= body.push("#EXT-X-ENDLIST"@));
    }
    assert(playlist_text(window, finalized) =~= joined_by(all, '\n')) by {
        let text = joined_by(head, '\n') + "\n"@ + playlist_entries(window);
        if finalized {
            let mid = body.push("#EXT-X-ENDLIST"@);
            assert(joined_by(mid, '\n') == joined_by(body, '\n') + seq!['\n']
                + "#EXT-X-ENDLIST"@);
            assert(joined_by(all, '\n') == joined_by(mid, '\n') + seq!['\n'] + end);
            assert(playlist_text(window, true) =~= text + "#EXT-X-ENDLIST\n"@);
        } else {
            assert(joined_by(all, '\n') =~= joined_by(body, '\n') + "\n"@ + end);
            assert(playlist_text(window, false) =~= text);
        }
    }
    assert forall|i: int, k: int| 0 <= i < all.len() && 0 <= k < all[i].len() implies
        #[trigger] all[i][k] != '\n' by {
        if i < 4 {
            assert(all[i] == head[i]);
            assert(one_line(head[i]));
        } else if i < body.len() {
            let j = i - 4;
            assert(all[i] == segment_lines(window)[j]);
            let w = window[j / 2];
            assert(one_line(w.name) && one_line(w.length.text));
            if j % 2 == 0 {
                if 8 <= k < 8 + w.length.text.len() {
                    assert(w.length.text[k - 8] != '\n');
                }
            }
        }
    }
    crate::text::law_split_reads_back(all, '\n');
    assert forall|i: int| 0 <= i < n implies #[trigger] all[4 + 2 * i] == "#EXTINF:"@
        + window[i].length.text + ","@ by {
        assert(all[4 + 2 * i] == segment_lines(window)[2 * i]);
    }
    assert forall|i: int| 0 <= i < n implies #[trigger] all[5 + 2 * i] == window[i].name by {
        assert(all[5 + 2 * i] == segment_lines(window)[2 * i + 1]);
        assert((2 * i + 1) / 2 == i);
    }
}

/// The target duration is the least number of whole seconds, from one on, that
/// no segment exceeds.
pub proof fn law_target_duration_covers(window: Seq<ClosedView>)
    ensures
        target_duration(window) >= 1,
        forall|i: int|
            0 <= i < window.len() ==> (#[trigger] window[i]).length.ceil <= target_duration(window),
        target_duration(window) == 1 || exists|i: int|
            0 <= i < window.len() && (#[trigger] window[i]).length.ceil == target_duration(window),
    decreases window.len(),
{
    if window.len() > 0 {
        let init = window.drop_last();
        law_target_duration_covers(init);
        assert forall|i: int| 0 <= i < window.len() implies (#[trigger] window[i]).length.ceil
            <= target_duration(window) by {
            if i < init.len() {
                assert(init[i] == window[i]);
            }
        }
        if target_duration(window) > 1 {
            if window.last().length.ceil > target_duration(init) {
                assert(window[window.len() - 1].length.ceil == target_duration(window));
            } else {
                let i = choose|i: int|
                    0 <= i < init.len() && (#[trigger] init[i]).length.ceil == target_duration(
                        init,
                    );
                assert(window[i].length.ceil == target_duration(window));
            }
        }
    }
}

/// A segment that is closed is written as it was filled, under its name, and
/// is the last one of the window, with the time from its start to its end as
/// its length. A segment without a frame is not closed.
pub proof fn law_closed_segment(s: StreamState, cfg: HlsOutputConfig)
    requires
        numbered(s),
        cfg.retention > 0,
    ensures
        ({
            let (t, files) = finished(s, cfg);
            &&& s.count == 0 ==> t == s && files is None
            &&& s.count > 0 ==> {
                &&& files is Some
                &&& (files->0).bytes == s.bytes
                &&& (files->0).name == segment_name(
                    cfg.segment_name@,
                    s.seq,
                    s.epoch + s.start / 90_000,
                )
                &&& t.window.len() > 0
                &&& t.window.last().seq == s.seq
                &&& t.window.last().name == (files->0).name
                &&& t.window.last().length == length_of((s.end - s.start) as nat)
                &&& (files->0).playlist == playlist_text(t.window, false)
                &&& t.frames == s.frames && t.next_seq == s.next_seq
            }
        }),
{
    if s.count > 0 {
        let name = current_name(s, cfg.segment_name@);
        let c = ClosedView { seq: s.seq, length: length_of((s.end - s.start) as nat), name };
        let all = s.window.push(c);
        assert(all.drop_last() =~= s.window);
        assert(all.last() == c);
    }
}

/// The window keeps exactly the segments of the last numbers, and every other
/// one is removed: nothing is removed that the playlist still names, nor left
/// behind that it does not.
pub proof fn law_removed_segments_left_the_window(window: Seq<ClosedView>, from: int)
    ensures
        forall|i: int|
            0 <= i < window.len() ==> {
                &&& (#[trigger] window[i]).seq >= from ==> kept(window, from).contains(window[i])
                &&& window[i].seq < from ==> dropped(window, from).contains(window[i].name)
            },
        forall|i: int|
            0 <= i < kept(window, from).len() ==> (#[trigger] kept(window, from)[i]).seq >= from
                && window.contains(kept(window, from)[i]),
        forall|i: int|
            0 <= i < dropped(window, from).len() ==> exists|j: int|
                0 <= j < window.len() && (#[trigger] window[j]).seq < from && window[j].name
                    == #[trigger] dropped(window, from)[i],
        kept(window, from).len() + dropped(window, from).len() == window.len(),
    decreases window.len(),
{
    if window.len() > 0 {
        let init = window.drop_last();
        law_removed_segments_left_the_window(init, from);
        let k0 = kept(init, from);
        let d0 = dropped(init, from);
        let k = kept(window, from);
        let d = dropped(window, from);
        assert forall|i: int| 0 <= i < window.len() implies {
            &&& (#[trigger] window[i]).seq >= from ==> k.contains(window[i])
            &&& window[i].seq < from ==> d.contains(window[i].name)
        } by {
            if i < init.len() {
                assert(init[i] == window[i]);
                if window[i].seq >= from {
                    let j = choose|j: int| 0 <= j < k0.len() && k0[j] == init[i];
                    assert(k[j] == window[i]);
                } else {
                    let j = choose|j: int| 0 <= j < d0.len() && d0[j] == init[i].name;
                    assert(d[j] == window[i].name);
                }
            } else if window[i].seq >= from {
                assert(k[k0.len() as int] == window[i]);
            } else {
                assert(d[d0.len() as int] == window[i].name);
            }
        }
        assert forall|i: int| 0 <= i < k.len() implies (#[trigger] k[i]).seq >= from
            && window.contains(k[i]) by {
            if i < k0.len() {
                assert(k[i] == k0[i]);
                let j = choose|j: int| 0 <= j < init.len() && init[j] == k0[i];
                assert(window[j] == k[i]);
            } else {
                assert(window[window.len() - 1] == k[i]);
            }
        }
        assert forall|i: int| 0 <= i < d.len() implies exists|j: int|
            0 <= j < window.len() && (#[trigger] window[j]).seq < from && window[j].name
                == #[trigger] d[i] by {
            if i < d0.len() {
                assert(d[i] == d0[i]);
                let j = choose|j: int|
                    0 <= j < init.len() && (#[trigger] init[j]).seq < from && init[j].name
                        == d0[i];
                assert(window[j].seq < from && window[j].name == d[i]);
            } else {
                assert(window[window.len() - 1].name == d[i]);
            }
        }
    }
}

/// Without pictures a segment ends at the first frame behind which it is long
/// enough, and the next one starts at that frame; before that no segment ends.
/// Every segment starts with the program tables, so that a player can join at
/// any of them, and its first frame carries the clock.
pub proof fn law_segments_end_when_long_enough(
    s: StreamState,
    cfg: HlsOutputConfig,
    frame: Seq<u8>,
)
    requires
        sound_stream(s),
    ensures
        ({
            let (t, files) = fed_one(s, cfg, frame, false);
            let pts = s.frames * s.frame_dur;
            let due = s.count > 0 && pts - s.start >= cfg.segment_ticks;
            &&& files is Some <==> due
            &&& t.frames == s.frames + 1
            &&& t.end == pts + s.frame_dur
            &&& !due ==> {
                &&& t.seq == s.seq && t.start == s.start && t.count == s.count + 1
                &&& t.window == s.window
                &&& t.bytes.len() >= s.bytes.len() && t.bytes.take(s.bytes.len() as int) == s.bytes
                &&& t.bytes.skip(s.bytes.len() as int) == joined(s.mux.audio(frame, pts as u64))
            }
            &&& due ==> {
                let fresh = TsState { cc_pat: 0, cc_pmt: 0, cc_audio: 0, last_pcr: u64::MAX };
                let first = fresh.after_program();
                &&& t.seq == s.seq + 1 && t.start == pts && t.count == 1
                &&& t.bytes == fresh.program() + joined(first.audio(frame, pts as u64))
                &&& first.wants_pcr(pts as u64)
            }
        }),
{
    let (t, files) = fed_one(s, cfg, frame, false);
    let pts = s.frames * s.frame_dur;
    let more = joined(s.mux.audio(frame, pts as u64));
    assert((s.bytes + more).take(s.bytes.len() as int) =~= s.bytes);
    assert((s.bytes + more).skip(s.bytes.len() as int) =~= more);
}

/// A picture lengthens the segment that it is in, and never shortens it.
pub proof fn law_pictures_lengthen_segments(
    s: StreamState,
    cfg: HlsOutputConfig,
    pts: nat,
    picture_dur: nat,
)
    ensures
        ({
            let t = with_picture(s, cfg, pts, false, picture_dur).0;
            &&& t.end >= s.end && t.end >= pts + picture_dur
            &&& t.end == s.end || t.end == pts + picture_dur
            &&& t == (StreamState { end: t.end, ..s })
        }),
{
}

/// A stream without a saved state starts from nothing, with the number zero;
/// the frames of all streams are as long as a frame of AAC lasts.
pub proof fn law_fresh_start(
    cfg: HlsOutputConfig,
    sample_rate: u32,
    epoch: u64,
    subdir: Seq<char>,
)
    requires
        sample_rate > 0,
    ensures
        ({
            let s = planned(cfg, None, sample_rate, epoch, subdir);
            &&& s.seq == 0 && s.next_seq == 1
            &&& s.window.len() == 0
            &&& s.frames == 0 && s.count == 0 && s.start == 0 && s.end == 0
            &&& s.epoch == epoch
            &&& s.frame_dur * sample_rate <= 1024 * 90_000 < (s.frame_dur + 1) * sample_rate
        }),
{
    let r = sample_rate as nat;
    let q = 92_160_000nat / r;
    assert(q * r <= 92_160_000 < (q + 1) * r) by (nonlinear_arith)
        requires
            q == 92_160_000nat / r,
            r > 0,
    ;
}

/// There is a stream for each rendition, in order, with its bitrate; without
/// renditions a single one in the directory itself.
pub proof fn law_streams_of_renditions(cfg: HlsOutputConfig)
    ensures
        cfg.renditions@.len() == 0 ==> {
            &&& subdirs_of(cfg).len() == 1 && subdirs_of(cfg)[0].len() == 0
            &&& bitrate_for(cfg.renditions@, subdirs_of(cfg)[0]) == 128_000
        },
        cfg.renditions@.len() > 0 ==> {
            &&& subdirs_of(cfg).len() == cfg.renditions@.len()
            &&& forall|i: int|
                0 <= i < cfg.renditions@.len() ==> #[trigger] subdirs_of(cfg)[i]
                    == cfg.renditions@[i].name@
        },
        (forall|i: int, j: int|
            0 <= i < j < cfg.renditions@.len() ==> (#[trigger] cfg.renditions@[i]).name@ != (
            #[trigger] cfg.renditions@[j]).name@) ==> forall|i: int|
            0 <= i < cfg.renditions@.len() ==> bitrate_for(
                cfg.renditions@,
                (#[trigger] cfg.renditions@[i]).name@,
            ) == cfg.renditions@[i].bitrate,
{
    if forall|i: int, j: int|
        0 <= i < j < cfg.renditions@.len() ==> (#[trigger] cfg.renditions@[i]).name@ != (
        #[trigger] cfg.renditions@[j]).name@ {
        assert forall|i: int| 0 <= i < cfg.renditions@.len() implies bitrate_for(
            cfg.renditions@,
            (#[trigger] cfg.renditions@[i]).name@,
        ) == cfg.renditions@[i].bitrate by {
            assert forall|k: int| 0 <= k < i implies (#[trigger] cfg.renditions@[k]).name@
                != cfg.renditions@[i].name@ by {
            }
            lemma_bitrate_at(cfg.renditions@, i);
        }
    }
}

proof fn lemma_bitrate_at(r: Seq<HlsRendition>, i: int)
    requires
        0 <= i < r.len(),
        forall|k: int| 0 <= k < i ==> (#[trigger] r[k]).name@ != r[i].name@,
    ensures
        bitrate_for(r, r[i].name@) == r[i].bitrate,
    decreases r.len(),
{
    if i > 0 {
        assert(r[0].name@ != r[i].name@);
        let t = r.skip(1);
        assert(t[i - 1] == r[i]);
        assert forall|k: int| 0 <= k < i - 1 implies (#[trigger] t[k]).name@ != t[i - 1].name@ by {
            assert(t[k] == r[k + 1]);
        }
        lemma_bitrate_at(t, i - 1);
    }
}

/// The master playlist has one entry for each rendition, in order: what its
/// streams need together and a tenth more, its picture size where it has
/// pictures, its name, and the way to its playlist.
pub proof fn law_master_playlist(
    a: Seq<HlsRendition>,
    r: HlsRendition,
    source: Option<(u32, u32)>,
)
    ensures
        master_text(a.push(r), source) == master_text(a, source) + variant_lines(r, source),
        master_text(Seq::empty(), source) == "#EXTM3U\n#EXT-X-VERSION:3\n"@,
        ({
            let v = variant_lines(r, source);
            let video = r.video_bitrate > 0 && source is Some;
            let need = r.bitrate + if video {
                r.video_bitrate as int
            } else {
                0
            };
            let b = bandwidth(r, source);
            &&& 10 * b <= 11 * need < 10 * b + 10
            &&& has_prefix(v, "#EXT-X-STREAM-INF:BANDWIDTH="@ + dec(b) + ","@)
            &&& has_suffix(v, "NAME=\""@ + r.name@ + "\"\n"@ + r.name@ + "/playlist.m3u8\n"@)
            &&& video ==> has_prefix(
                v,
                "#EXT-X-STREAM-INF:BANDWIDTH="@ + dec(b) + ",RESOLUTION="@ + dec(
                    picture_size(r, source).0 as nat,
                ) + "x"@ + dec(picture_size(r, source).1 as nat) + ",CODECS="@,
            )
            &&& !video ==> has_prefix(
                v,
                "#EXT-X-STREAM-INF:BANDWIDTH="@ + dec(b) + ",CODECS="@,
            )
        }),
        r.width is Some && r.height is Some ==> picture_size(r, source) == (r.width->0, r.height->0),
        r.width is None && r.height is None && source is Some ==> picture_size(r, source)
            == source->0,
{
    assert(a.push(r).drop_last() =~= a);
    assert(master_text(a.push(r), source) =~= master_text(a, source) + variant_lines(r, source));
    assert(master_text(Seq::empty(), source) =~= "#EXTM3U\n#EXT-X-VERSION:3\n"@);
    reveal_strlit(",");
    reveal_strlit("x");
    reveal_strlit("NAME=\"");
    reveal_strlit(",CODECS=");
    reveal_strlit(",RESOLUTION=");
    reveal_strlit("\"\n");
    reveal_strlit("/playlist.m3u8\n");
    reveal_strlit(",CODECS=\"avc1.42401f,mp4a.40.2\",NAME=\"");
    reveal_strlit(",CODECS=\"mp4a.40.2\",NAME=\"");
    let v = variant_lines(r, source);
    let b = dec(bandwidth(r, source));
    let p = "#EXT-X-STREAM-INF:BANDWIDTH="@ + b + ","@;
    assert(v.take(p.len() as int) =~= p);
    let e = "NAME=\""@ + r.name@ + "\"\n"@ + r.name@ + "/playlist.m3u8\n"@;
    assert(v.skip(v.len() - e.len()) =~= e);
    let (w, h) = picture_size(r, source);
    if r.video_bitrate > 0 && source is Some {
        let q = "#EXT-X-STREAM-INF:BANDWIDTH="@ + b + ",RESOLUTION="@ + dec(w as nat) + "x"@ + dec(
            h as nat,
        ) + ",CODECS="@;
        assert(v.take(q.len() as int) =~= q);
    } else {
        let q = "#EXT-X-STREAM-INF:BANDWIDTH="@ + b + ",CODECS="@;
        assert(v.take(q.len() as int) =~= q);
    }
}

/// The number and the time stand in a name where the template has them, and
/// the rest of the template as it is; so segments of different numbers have
/// different names.
pub proof fn law_names_hold_their_numbers(
    a: Seq<char>,
    b: Seq<char>,
    m: nat,
    n: nat,
    t: nat,
)
    requires
        forall|i: int| 0 <= i < a.len() ==> #[trigger] a[i] != '{',
        forall|i: int| 0 <= i < b.len() ==> #[trigger] b[i] != '{',
    ensures
        segment_name(a + seq!['{', 'n', '}'] + b, n, t) == a + dec_padded(n, 6) + b,
        segment_name(a + seq!['{', 't', '}'] + b, n, t) == a + dec(t) + b,
        segment_name(a, n, t) == a,
        m != n ==> segment_name(a + seq!['{', 'n', '}'] + b, m, t) != segment_name(
            a + seq!['{', 'n', '}'] + b,
            n,
            t,
        ),
        dec_padded(n, 6).len() >= 6,
        parsed(dec_padded(n, 6), 10, n as int) == Some(n as int),
{
    lemma_rendered_around(a, seq!['{', 'n', '}'], b, dec_padded(n, 6), dec(t));
    lemma_rendered_around(a, seq!['{', 'n', '}'], b, dec_padded(m, 6), dec(t));
    lemma_rendered_around(a, seq!['{', 't', '}'], b, dec_padded(n, 6), dec(t));
    lemma_rendered_plain(a, dec_padded(n, 6), dec(t));
    lemma_padded_value(n);
    lemma_padded_value(m);
    if m != n {
        let x = a + dec_padded(m, 6) + b;
        let y = a + dec_padded(n, 6) + b;
        if x == y {
            assert(x.skip(a.len() as int).take(x.len() - a.len() - b.len()) =~= dec_padded(m, 6));
            assert(y.skip(a.len() as int).take(y.len() - a.len() - b.len()) =~= dec_padded(n, 6));
            let top = (m + n) as int;
            assert(parsed(dec_padded(m, 6), 10, top) == Some(m as int));
            assert(parsed(dec_padded(n, 6), 10, top) == Some(n as int));
        }
    }
}

proof fn lemma_rendered_plain(a: Seq<char>, n: Seq<char>, t: Seq<char>)
    requires
        forall|i: int| 0 <= i < a.len() ==> #[trigger] a[i] != '{',
    ensures
        rendered(a, n, t) == a,
    decreases a.len(),
{
    if a.len() > 0 {
        assert forall|i: int| 0 <= i < a.skip(1).len() implies #[trigger] a.skip(1)[i] != '{' by {
            assert(a[i + 1] != '{');
        }
        lemma_rendered_plain(a.skip(1), n, t);
        assert(seq![a[0]] + a.skip(1) =~= a);
    } else {
        assert(a =~= Seq::<char>::empty());
    }
}

proof fn lemma_rendered_around(
    a: Seq<char>,
    p: Seq<char>,
    b: Seq<char>,
    n: Seq<char>,
    t: Seq<char>,
)
    requires
        forall|i: int| 0 <= i < a.len() ==> #[trigger] a[i] != '{',
        forall|i: int| 0 <= i < b.len() ==> #[trigger] b[i] != '{',
        p == seq!['{', 'n', '}'] || p == seq!['{', 't', '}'],
    ensures
        rendered(a + p + b, n, t) == a + (if p[1] == 'n' {
            n
        } else {
            t
        }) + b,
    decreases a.len(),
{
    let s = a + p + b;
    let x = if p[1] == 'n' {
        n
    } else {
        t
    };
    if a.len() > 0 {
        let r = a.skip(1);
        assert forall|i: int| 0 <= i < r.len() implies #[trigger] r[i] != '{' by {
            assert(a[i + 1] != '{');
        }
        assert(s[0] == a[0]);
        assert(s.skip(1) =~= r + p + b);
        lemma_rendered_around(r, p, b, n, t);
        assert(seq![a[0]] + (r + x + b) =~= a + x + b);
    } else {
        assert(s =~= p + b);
        assert(s[0] == '{' && s[1] == p[1] && s[2] == '}');
        assert(s.skip(3) =~= b);
        lemma_rendered_plain(b, n, t);
        assert(x + b =~= a + x + b);
    }
}

proof fn lemma_padded_value(n: nat)
    ensures
        dec_padded(n, 6).len() >= 6,
        forall|max: int| n <= max ==> #[trigger] parsed(dec_padded(n, 6), 10, max) == Some(n as int),
{
    let d = dec(n);
    crate::text::lemma_dec_is_numeric(n);
    crate::text::law_dec_reads_back(n, n);
    assert(is_digit(d[0]));
    if d.len() < 6 {
        let z = Seq::new((6 - d.len()) as nat, |i: int| '0');
        lemma_leading_zeros(z, d);
    }
}

proof fn lemma_leading_zeros(z: Seq<char>, d: Seq<char>)
    requires
        forall|i: int| 0 <= i < z.len() ==> #[trigger] z[i] == '0',
        d.len() > 0,
    ensures
        digits_value(z + d, 10) == digits_value(d, 10),
    decreases d.len(),
{
    let s = z + d;
    assert(s.last() == d.last());
    assert(s.drop_last() =~= z + d.drop_last());
    if d.len() > 1 {
        lemma_leading_zeros(z, d.drop_last());
    } else {
        assert(d.drop_last() =~= Seq::<char>::empty());
        assert(s.drop_last() =~= z);
        lemma_zeros(z);
        reveal_with_fuel(digits_value, 2);
    }
}

proof fn lemma_zeros(z: Seq<char>)
    requires
        forall|i: int| 0 <= i < z.len() ==> #[trigger] z[i] == '0',
    ensures
        digits_value(z, 10) == Some(0int),
    decreases z.len(),
{
    if z.len() > 0 {
        assert(z[z.len() - 1] == '0');
        lemma_zeros(z.drop_last());
    }
}

/// Before a run that starts from nothing, both playlists are removed; before
/// one that goes on, no segment of the window is, nor any file that is not
/// named like one.
pub proof fn law_files_that_are_removed(name: Seq<char>, template: Seq<char>, window: Seq<ClosedView>)
    ensures
        stale("playlist.m3u8"@, template) && stale("index.m3u8"@, template),
        name_matches(name, template) ==> stale(name, template),
        (exists|i: int| 0 <= i < window.len() && (#[trigger] window[i]).name == name) ==> !orphaned(
            name,
            template,
            window,
        ),
        !name_matches(name, template) ==> !orphaned(name, template, window),
        name_matches(name, template) && (forall|i: int|
            0 <= i < window.len() ==> (#[trigger] window[i]).name != name) ==> orphaned(
            name,
            template,
            window,
        ),
{
}

/// A second is a second on the clock of the pictures.
pub proof fn law_picture_clock(pts_us: u64)
    ensures
        ticks_of_micros(pts_us) * 1_000_000 <= pts_us * 90_000 < (ticks_of_micros(pts_us) + 1)
            * 1_000_000,
{
}

/// What a rendition leaves behind is what the state file keeps of it: the
/// number of its next segment, and of each segment of the window the number,
/// the length and the name; a list of three such values is read as that
/// segment, and anything else as none.
pub proof fn law_state_keeps_segments(s: SavedView, seq: u64, bits: u64, name: Seq<char>, v: ScalarView)
    ensures
        state_section(s).name == s.subdir && state_section(s).number == s.next_seq,
        state_section(s).list.len() == s.window.len(),
        forall|k: int|
            0 <= k < s.window.len() && s.window[k].seq <= u64::MAX ==> #[trigger] state_section(
                s,
            ).list[k] == (s.window[k].seq as u64, s.window[k].length.bits, s.window[k].name),
        ({
            let a = ScalarView { whole: Some(seq), real: Some(bits), text: None };
            let b = ScalarView { whole: None, real: Some(bits), text: None };
            let c = ScalarView { whole: None, real: None, text: Some(name) };
            &&& item_segment(Some(seq![a, b, c])) matches Some(w) && w.seq == seq && w.name == name
                && w.length.bits == bits
            &&& item_segment(Some(seq![a, b])) is None
            &&& item_segment(Some(seq![a, b, c, v])) is None
            &&& item_segment(Some(seq![b, b, c])) is None
            &&& item_segment(None) is None
        }),
{
}

/// A length is the same whether it is made from ticks or from the bit pattern
/// that the state file keeps of it: a playlist that is written anew after a
/// restart says of a segment what it said before, if the pattern is the same.
pub proof fn law_length_by_its_bits(ticks: nat)
    requires
        ticks < 0x20_0000_0000_0000,
    ensures
        length_of(ticks) == length_of_bits(ratio_bits(ticks, CLOCK as nat) as u64),
        length_of(ticks).bits == ratio_bits(ticks, CLOCK as nat),
{
    crate::ieee::lemma_nearest_reads_back(ticks, CLOCK as nat);
}

/// A segment of whole seconds is as long as they are, in the target duration
/// and in its entry alike.
pub proof fn law_whole_seconds(n: u64)
    requires
        n * CLOCK < 0x20_0000_0000_0000,
    ensures
        length_of((n * CLOCK) as nat).ceil == n,
        length_of((n * CLOCK) as nat).text == dec(n as nat) + ".000"@,
{
    crate::ieee::lemma_whole_quotient(n as nat, CLOCK as nat);
    reveal_strlit(".");
    reveal_strlit(".000");
    assert((n * 1000) / 1000 == n);
    assert((n * 1000) % 1000 == 0);
    assert(dec_padded(0, 3) =~= seq!['0', '0', '0']);
    assert("."@ + dec_padded(0, 3) =~= ".000"@);
    assert(length_of((n * CLOCK) as nat).text =~= dec(n as nat) + ".000"@);
}

/// Every segment has the length of its bit pattern.
pub open spec fn true_lengths(window: Seq<ClosedView>) -> bool {
    forall|i: int|
        0 <= i < window.len() ==> (#[trigger] window[i]).length == length_of_bits(
            window[i].length.bits,
        )
}

/// Whatever a state file holds, the segments that are loaded from it have the
/// whole seconds and the text of their bit patterns.
pub proof fn law_loaded_lengths_are_true(e: EntryView)
    ensures
        true_lengths(entry_state(e).window),
{
    match e.list {
        Some(items) => lemma_item_lengths(items),
        None => {},
    }
}

proof fn lemma_item_lengths(items: Seq<Option<Seq<ScalarView>>>)
    ensures
        true_lengths(item_segments(items)),
    decreases items.len(),
{
    if items.len() > 0 {
        lemma_item_lengths(items.drop_last());
    }
}

/// So have those that a stream closes, and those that it keeps.
pub proof fn law_closed_lengths_are_true(s: StreamState, cfg: HlsOutputConfig)
    requires
        sound_stream(s),
        true_lengths(s.window),
    ensures
        true_lengths(finished(s, cfg).0.window),
{
    if s.count > 0 {
        let ticks = (s.end - s.start) as nat;
        law_length_by_its_bits(ticks);
        let name = current_name(s, cfg.segment_name@);
        let all = s.window.push(ClosedView { seq: s.seq, length: length_of(ticks), name });
        lemma_kept_lengths(all, keep_from(s.seq, cfg.retention as nat));
    }
}

proof fn lemma_kept_lengths(window: Seq<ClosedView>, from: int)
    requires
        true_lengths(window),
    ensures
        true_lengths(kept(window, from)),
    decreases window.len(),
{
    if window.len() > 0 {
        lemma_kept_lengths(window.drop_last(), from);
    }
}

/// A rendition is read back as it was written: from an entry that holds what
/// was written of it, a run goes on where it stopped.
pub proof fn law_state_reads_back(s: SavedView, e: EntryView)
    requires
        forall|k: int| 0 <= k < s.window.len() ==> (#[trigger] s.window[k]).seq <= u64::MAX,
        holds_section(e, state_section(s)),
    ensures
        entry_state(e).subdir == s.subdir,
        goes_on((entry_state(e).next_seq, entry_state(e).window), s),
{
    let items = e.list.unwrap();
    lemma_held_items(items, state_section(s).list, items.len() as int);
    assert(items.take(items.len() as int) =~= items);
    assert forall|k: int| 0 <= k < s.window.len() implies (
    #[trigger] entry_state(e).window[k]).seq == s.window[k].seq && entry_state(e).window[k].name
        == s.window[k].name by {
        assert(s.window[k].seq <= u64::MAX);
        assert(state_section(s).list[k].0 == s.window[k].seq as u64);
    }
}

/// The retention caps the window: behind a closed segment it holds at most
/// `retention` segments, of which that one is the last.
pub proof fn law_window_is_bounded(s: StreamState, cfg: HlsOutputConfig)
    requires
        numbered(s),
        s.count > 0,
    ensures
        ({
            let w = finished(s, cfg).0.window;
            &&& w.len() <= cfg.retention
            &&& cfg.retention > 0 ==> w.len() > 0 && w.last().seq == s.seq
        }),
{
    lemma_finished_window(s, cfg);
    let w = finished(s, cfg).0.window;
    if w.len() > 0 {
        lemma_spread(w, w.len());
        assert(w[w.len() - 1].seq <= s.seq);
        assert(w[0].seq + cfg.retention > s.seq);
    }
}

/// Increasing numbers spread at least as far as their count.
proof fn lemma_spread(w: Seq<ClosedView>, n: nat)
    requires
        increasing(w),
        0 < n <= w.len(),
    ensures
        w[n - 1].seq >= w[0].seq + n - 1,
    decreases n,
{
    if n > 1 {
        lemma_spread(w, (n - 1) as nat);
        assert(w[n - 2].seq < w[n - 1].seq);
    }
}

/// The segment that is being filled ends where the clock stands, and is as
/// long as its frames.
pub open spec fn contiguous(s: StreamState) -> bool {
    &&& s.end == s.frames * s.frame_dur
    &&& s.end == s.start + s.count * s.frame_dur
}

/// No audio is lost or doubled between segments: a segment is exactly as long
/// as its frames, and the next one starts where it ends.
pub proof fn law_segments_are_contiguous(
    s: StreamState,
    cfg: HlsOutputConfig,
    frames: Seq<Seq<u8>>,
    defer: bool,
)
    requires
        contiguous(s),
    ensures
        contiguous(fed(s, cfg, frames, defer).0),
        fed(s, cfg, frames, defer).0.frames == s.frames + frames.len(),
        fed(s, cfg, frames, defer).0.frame_dur == s.frame_dur,
    decreases frames.len(),
{
    if frames.len() > 0 {
        law_segments_are_contiguous(s, cfg, frames.drop_last(), defer);
        let t = fed(s, cfg, frames.drop_last(), defer).0;
        assert((t.frames + 1) * t.frame_dur == t.frames * t.frame_dur + t.frame_dur)
            by (nonlinear_arith);
        assert((t.count + 1) * t.frame_dur == t.count * t.frame_dur + t.frame_dur)
            by (nonlinear_arith);
        assert(0 * t.frame_dur == 0 && 1 * t.frame_dur == t.frame_dur) by (nonlinear_arith);
    }
}

/// The bytes are whole transport packets, and start with one.
pub open spec fn packet_aligned(bytes: Seq<u8>) -> bool {
    &&& bytes.len() > 0
    &&& bytes.len() % 188 == 0
    &&& bytes[0] == crate::mpegts::SYNC
}

/// Every segment that is written is made of whole transport packets.
pub proof fn law_segments_are_packets(
    s: StreamState,
    cfg: HlsOutputConfig,
    frames: Seq<Seq<u8>>,
    defer: bool,
)
    requires
        packet_aligned(s.bytes),
        s.mux.cc_audio < 16,
    ensures
        ({
            let (t, files) = fed(s, cfg, frames, defer);
            &&& packet_aligned(t.bytes)
            &&& t.mux.cc_audio < 16
            &&& forall|i: int|
                0 <= i < files.len() ==> packet_aligned((#[trigger] files[i]).bytes)
        }),
    decreases frames.len(),
{
    if frames.len() > 0 {
        law_segments_are_packets(s, cfg, frames.drop_last(), defer);
        let t = fed(s, cfg, frames.drop_last(), defer).0;
        let frame = frames.last();
        lemma_muxed_aligned(t, frame);
        lemma_muxed_aligned(StreamState { window_reached: true, ..t }, frame);
        let o = opened(finished(t, cfg).0, t.frames * t.frame_dur);
        crate::mpegts::law_program_packets(fresh_mux());
        lemma_muxed_aligned(o, frame);
    }
}

proof fn lemma_muxed_aligned(s: StreamState, frame: Seq<u8>)
    requires
        packet_aligned(s.bytes),
        s.mux.cc_audio < 16,
    ensures
        packet_aligned(muxed(s, frame).bytes),
        muxed(s, frame).mux.cc_audio < 16,
{
    let pts = (s.frames * s.frame_dur) as u64;
    let packets = s.mux.audio(frame, pts);
    crate::mpegts::law_packets(
        crate::mpegts::pes_header(frame.len(), pts) + frame,
        crate::mpegts::AUDIO_PID,
        true,
        s.mux.pcr(pts),
        s.mux.cc_audio,
    );
    lemma_cc_after(s.mux.cc_audio, packets.len());
    assert(joined(packets).len() == 188 * packets.len());
    assert((s.bytes + joined(packets))[0] == s.bytes[0]);
}

proof fn lemma_cc_after(cc: u8, n: nat)
    requires
        cc < 16,
    ensures
        cc_after(cc, n) < 16,
    decreases n,
{
    if n > 0 {
        lemma_cc_after(next_cc(cc), (n - 1) as nat);
    }
}

/// No placeholder of the template is followed at once by a digit or by
/// another placeholder.
pub open spec fn separated(template: Seq<char>) -> bool
    decreases template.len(),
{
    if template.len() == 0 {
        true
    } else if placeholder(template) {
        let rest = template.skip(3);
        &&& rest.len() > 0 ==> !is_digit(rest[0]) && !placeholder(rest)
        &&& separated(rest)
    } else {
        separated(template.skip(1))
    }
}

/// The text is a number.
pub open spec fn numeric(s: Seq<char>) -> bool {
    s.len() > 0 && forall|i: int| 0 <= i < s.len() ==> is_digit(#[trigger] s[i])
}

proof fn lemma_digit_run(a: Seq<char>, b: Seq<char>)
    requires
        forall|i: int| 0 <= i < a.len() ==> is_digit(#[trigger] a[i]),
        b.len() > 0 ==> !is_digit(b[0]),
    ensures
        digit_run(a + b) == a.len(),
    decreases a.len(),
{
    if a.len() > 0 {
        assert((a + b).skip(1) =~= a.skip(1) + b);
        lemma_digit_run(a.skip(1), b);
    } else {
        assert(a + b =~= b);
    }
}

proof fn lemma_dec_numeric(n: nat)
    ensures
        numeric(dec(n)),
    decreases n,
{
    if n >= 10 {
        lemma_dec_numeric(n / 10);
        assert forall|i: int| 0 <= i < dec(n).len() implies is_digit(#[trigger] dec(n)[i]) by {
            if i < dec(n / 10).len() {
                assert(dec(n)[i] == dec(n / 10)[i]);
            }
        }
    }
}

/// The name of a segment is recognised as one: a run that starts from nothing
/// removes it, whatever its number and time. Left out are templates in which a
/// placeholder meets a digit or another placeholder.
pub proof fn law_names_are_recognised(template: Seq<char>, seq: nat, t: nat)
    requires
        separated(template),
    ensures
        name_matches(segment_name(template, seq, t), template),
        stale(segment_name(template, seq, t), template),
{
    lemma_dec_numeric(seq);
    lemma_dec_numeric(t);
    let n = dec_padded(seq, 6);
    assert(numeric(n)) by {
        assert forall|i: int| 0 <= i < n.len() implies is_digit(#[trigger] n[i]) by {
            let pad = n.len() - dec(seq).len();
            if i >= pad {
                assert(n[i] == dec(seq)[i - pad]);
            }
        }
    }
    lemma_rendered_matches(template, n, dec(t));
}

proof fn lemma_rendered_matches(template: Seq<char>, n: Seq<char>, t: Seq<char>)
    requires
        separated(template),
        numeric(n),
        numeric(t),
    ensures
        name_matches(rendered(template, n, t), template),
    decreases template.len(),
{
    let name = rendered(template, n, t);
    if template.len() == 0 {
    } else if placeholder(template) {
        let digits = if template[1] == 'n' {
            n
        } else {
            t
        };
        let rest = rendered(template.skip(3), n, t);
        lemma_rendered_matches(template.skip(3), n, t);
        assert(name == digits + rest);
        if rest.len() > 0 {
            assert(template.skip(3).len() > 0);
            assert(rest[0] == template.skip(3)[0]);
        }
        lemma_digit_run(digits, rest);
        assert(name.skip(digits.len() as int) =~= rest);
    } else {
        lemma_rendered_matches(template.skip(1), n, t);
        assert(name.skip(1) =~= rendered(template.skip(1), n, t));
    }
}

} // verus!
