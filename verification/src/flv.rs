//! FLV container framing: the file header, tags, the metadata script tag, and
//! the repacking of Annex-B access units into length-prefixed ones.

use vstd::prelude::*;
use crate::bytes::{append, be16, be24, be32, be64, from_be, slice_views};
use crate::bytes::{lemma_be32_reads_back, push_be16, push_be24, push_be32, push_be64};
use crate::ieee::{f64_bits_of_ratio, ratio_bits};
use crate::seqs::lemma_skip_parts;

verus! {

/// Tag type of audio data.
pub const TAG_AUDIO: u8 = 8;

/// Tag type of video data.
pub const TAG_VIDEO: u8 = 9;

/// Tag type of script data.
pub const TAG_SCRIPT: u8 = 18;

/// First payload byte of an AAC audio tag: AAC, 44 kHz, 16 bit, stereo.
pub const AAC_HEADER: u8 = 0xaf;

/// First payload byte of an AVC keyframe.
pub const VIDEO_KEYFRAME: u8 = 0x17;

/// First payload byte of any other AVC frame.
pub const VIDEO_INTER: u8 = 0x27;

/// The file header and the leading previous-tag-size.
pub open spec fn file_header(has_video: bool) -> Seq<u8> {
    seq![
        0x46u8,
        0x4c,
        0x56,
        0x01,
        if has_video { 0x05u8 } else { 0x04u8 },
        0,
        0,
        0,
        9,
        0,
        0,
        0,
        0,
    ]
}

/// One tag: type, 24-bit size, 24-bit millisecond timestamp, a zero extension
/// byte and stream id, the payload, and the size of the tag.
pub open spec fn tag_bytes(tag_type: u8, ts_ms: u32, data: Seq<u8>) -> Seq<u8> {
    seq![tag_type] + be24(data.len() as int) + be24(ts_ms as int) + seq![0u8, 0, 0, 0] + data
        + be32(data.len() as int % 0x1_0000_0000 + 11)
}

/// The size of a tag with a payload of `len` bytes fits its trailing field.
pub open spec fn fits_tag(len: nat) -> bool {
    len % 0x1_0000_0000 + 11 <= u32::MAX
}

/// The payload of an audio tag.
pub open spec fn audio_payload(sequence_header: bool, aac: Seq<u8>) -> Seq<u8> {
    seq![AAC_HEADER, if sequence_header { 0u8 } else { 1u8 }] + aac
}

/// The payload of a video tag that carries an access unit.
pub open spec fn video_payload(keyframe: bool, avcc: Seq<u8>) -> Seq<u8> {
    seq![(if keyframe { VIDEO_KEYFRAME } else { VIDEO_INTER }), 1, 0, 0, 0] + avcc
}

/// The payload of a video tag that carries the decoder configuration.
pub open spec fn video_config_payload(avcdcr: Seq<u8>) -> Seq<u8> {
    seq![VIDEO_KEYFRAME, 0, 0, 0, 0] + avcdcr
}

/// The file header (9 bytes) plus the mandatory leading previous-tag-size.
pub fn header(has_video: bool) -> (out: Vec<u8>)
    ensures
        out@ == file_header(has_video),
{
    let mut out: Vec<u8> = Vec::new();
    append(&mut out, &[0x46, 0x4c, 0x56, 0x01]);
    out.push(if has_video { 0x05 } else { 0x04 });
    append(&mut out, &[0, 0, 0, 9, 0, 0, 0, 0]);
    assert(out@ =~= file_header(has_video));
    out
}

/// One tag.
pub fn tag(tag_type: u8, ts_ms: u32, data: &[u8]) -> (out: Vec<u8>)
    requires
        fits_tag(data@.len()),
    ensures
        out@ == tag_bytes(tag_type, ts_ms, data@),
{
    let size: u32 = (data.len() as u64 % 0x1_0000_0000) as u32;
    let mut out: Vec<u8> = Vec::new();
    out.push(tag_type);
    push_be24(&mut out, size);
    push_be24(&mut out, ts_ms);
    append(&mut out, &[0, 0, 0, 0]);
    append(&mut out, data);
    push_be32(&mut out, size + 11);
    proof {
        lemma_be24_mod(data@.len() as int);
        assert(out@ =~= tag_bytes(tag_type, ts_ms, data@));
    }
    out
}

proof fn lemma_be24_mod(x: int)
    requires
        0 <= x,
    ensures
        be24(x % 0x1_0000_0000) == be24(x),
{
    let y = x % 0x1_0000_0000;
    let q = x / 0x1_0000_0000;
    assert(x == q * 0x1_0000_0000 + y);
    assert(x / 0x1_0000 == q * 0x1_0000 + y / 0x1_0000);
    assert(x / 0x100 == q * 0x100_0000 + y / 0x100);
    assert((x / 0x1_0000) % 0x100 == (y / 0x1_0000) % 0x100) by {
        assert((q * 0x1_0000 + y / 0x1_0000) % 0x100 == (y / 0x1_0000) % 0x100);
    }
    assert((x / 0x100) % 0x100 == (y / 0x100) % 0x100) by {
        assert((q * 0x100_0000 + y / 0x100) % 0x100 == (y / 0x100) % 0x100);
    }
}

/// AAC audio tag: `aac` is the decoder configuration for a sequence header,
/// a raw access unit otherwise.
pub fn audio_tag(ts_ms: u32, sequence_header: bool, aac: &[u8]) -> (out: Vec<u8>)
    requires
        fits_tag(aac@.len() + 2),
    ensures
        out@ == tag_bytes(TAG_AUDIO, ts_ms, audio_payload(sequence_header, aac@)),
{
    let mut payload: Vec<u8> = Vec::new();
    payload.push(AAC_HEADER);
    payload.push(if sequence_header { 0 } else { 1 });
    append(&mut payload, aac);
    assert(payload@ =~= audio_payload(sequence_header, aac@));
    tag(TAG_AUDIO, ts_ms, payload.as_slice())
}

/// AVC video tag that carries a length-prefixed access unit (composition time
/// zero: there are no B-frames).
pub fn video_tag(ts_ms: u32, keyframe: bool, avcc: &[u8]) -> (out: Vec<u8>)
    requires
        fits_tag(avcc@.len() + 5),
    ensures
        out@ == tag_bytes(TAG_VIDEO, ts_ms, video_payload(keyframe, avcc@)),
{
    let mut payload: Vec<u8> = Vec::new();
    payload.push(if keyframe { VIDEO_KEYFRAME } else { VIDEO_INTER });
    append(&mut payload, &[1, 0, 0, 0]);
    append(&mut payload, avcc);
    assert(payload@ =~= video_payload(keyframe, avcc@));
    tag(TAG_VIDEO, ts_ms, payload.as_slice())
}

/// AVC sequence header tag, at timestamp 0.
pub fn video_sequence_header(avcdcr: &[u8]) -> (out: Vec<u8>)
    requires
        fits_tag(avcdcr@.len() + 5),
    ensures
        out@ == tag_bytes(TAG_VIDEO, 0, video_config_payload(avcdcr@)),
{
    let mut payload: Vec<u8> = Vec::new();
    payload.push(VIDEO_KEYFRAME);
    append(&mut payload, &[0, 0, 0, 0]);
    append(&mut payload, avcdcr);
    assert(payload@ =~= video_config_payload(avcdcr@));
    tag(TAG_VIDEO, 0, payload.as_slice())
}

// ---------------------------------------------------------------------------
// Metadata
// ---------------------------------------------------------------------------

/// One numeric property of the metadata: its name as a string, then the bit
/// pattern of its value.
pub open spec fn property(name: Seq<char>, bits: int) -> Seq<u8> {
    let text = vstd::utf8::encode_utf8(name);
    seq![0x02u8] + be16(text.len() as int) + text + seq![0x00u8] + be64(bits)
}

/// The payload of the metadata tag: the string `onMetaData` and an array of
/// numbers, introduced by their count.
pub open spec fn metadata_payload(
    width: u32,
    height: u32,
    fps_bits: u64,
    has_video: bool,
    audio_bitrate: u32,
) -> Seq<u8> {
    seq![0x02u8, 0, 10, 0x6f, 0x6e, 0x4d, 0x65, 0x74, 0x61, 0x44, 0x61, 0x74, 0x61, 0x08]
        + be32(if has_video { 7 } else { 3 }) + property("duration"@, 0) + (if has_video {
        property("width"@, ratio_bits(width as nat, 1)) + property(
            "height"@,
            ratio_bits(height as nat, 1),
        ) + property("framerate"@, fps_bits as int) + property("videocodecid"@, ratio_bits(7, 1))
    } else {
        Seq::empty()
    }) + property("audiocodecid"@, ratio_bits(10, 1)) + property(
        "audiodatarate"@,
        ratio_bits(audio_bitrate as nat, 1000),
    ) + seq![0u8, 0, 9]
}

fn push_property(out: &mut Vec<u8>, name: &str, bits: u64)
    requires
        vstd::utf8::encode_utf8(name@).len() <= u16::MAX,
    ensures
        final(out)@ == old(out)@ + property(name@, bits as int),
{
    let text = name.as_bytes();
    out.push(0x02);
    push_be16(out, text.len() as u16);
    append(out, text);
    out.push(0x00);
    push_be64(out, bits);
    assert(out@ =~= old(out)@ + property(name@, bits as int));
}

/// The names of the metadata properties are ASCII, so each character is one
/// byte.
proof fn lemma_property_names()
    ensures
        vstd::utf8::encode_utf8("duration"@).len() == 8,
        vstd::utf8::encode_utf8("width"@).len() == 5,
        vstd::utf8::encode_utf8("height"@).len() == 6,
        vstd::utf8::encode_utf8("framerate"@).len() == 9,
        vstd::utf8::encode_utf8("videocodecid"@).len() == 12,
        vstd::utf8::encode_utf8("audiocodecid"@).len() == 12,
        vstd::utf8::encode_utf8("audiodatarate"@).len() == 13,
{
    reveal_strlit("duration");
    reveal_strlit("width");
    reveal_strlit("height");
    reveal_strlit("framerate");
    reveal_strlit("videocodecid");
    reveal_strlit("audiocodecid");
    reveal_strlit("audiodatarate");
    vstd::utf8::is_ascii_chars_encode_utf8("duration"@);
    vstd::utf8::is_ascii_chars_encode_utf8("width"@);
    vstd::utf8::is_ascii_chars_encode_utf8("height"@);
    vstd::utf8::is_ascii_chars_encode_utf8("framerate"@);
    vstd::utf8::is_ascii_chars_encode_utf8("videocodecid"@);
    vstd::utf8::is_ascii_chars_encode_utf8("audiocodecid"@);
    vstd::utf8::is_ascii_chars_encode_utf8("audiodatarate"@);
}

/// The `onMetaData` script tag, published before the first audio or video tag
/// so that players can size their canvas. `fps_bits` is the bit pattern of
/// the frame rate as a double.
pub fn metadata_tag(
    width: u32,
    height: u32,
    fps_bits: u64,
    has_video: bool,
    audio_bitrate: u32,
) -> (out: Vec<u8>)
    ensures
        out@ == tag_bytes(
            TAG_SCRIPT,
            0,
            metadata_payload(width, height, fps_bits, has_video, audio_bitrate),
        ),
{
    proof {
        lemma_property_names();
    }
    let mut data: Vec<u8> = Vec::new();
    append(
        &mut data,
        &[0x02, 0, 10, 0x6f, 0x6e, 0x4d, 0x65, 0x74, 0x61, 0x44, 0x61, 0x74, 0x61, 0x08],
    );
    push_be32(&mut data, if has_video { 7 } else { 3 });
    push_property(&mut data, "duration", 0);
    let ghost before = data@;
    if has_video {
        push_property(&mut data, "width", f64_bits_of_ratio(width, 1));
        push_property(&mut data, "height", f64_bits_of_ratio(height, 1));
        push_property(&mut data, "framerate", fps_bits);
        push_property(&mut data, "videocodecid", f64_bits_of_ratio(7, 1));
        assert(data@ =~= before + (property("width"@, ratio_bits(width as nat, 1)) + property(
            "height"@,
            ratio_bits(height as nat, 1),
        ) + property("framerate"@, fps_bits as int) + property("videocodecid"@, ratio_bits(7, 1))));
    } else {
        assert(data@ =~= before + Seq::<u8>::empty());
    }
    push_property(&mut data, "audiocodecid", f64_bits_of_ratio(10, 1));
    push_property(&mut data, "audiodatarate", f64_bits_of_ratio(audio_bitrate, 1000));
    append(&mut data, &[0, 0, 9]);
    assert(data@ =~= metadata_payload(width, height, fps_bits, has_video, audio_bitrate));
    tag(TAG_SCRIPT, 0, data.as_slice())
}

// ---------------------------------------------------------------------------
// Annex-B access units
// ---------------------------------------------------------------------------

/// The length of the start code at `i`: 4 for 00 00 00 01, 3 for 00 00 01,
/// 0 where none starts.
pub open spec fn code_len(data: Seq<u8>, i: int) -> int {
    if i + 3 < data.len() && data[i] == 0 && data[i + 1] == 0 && data[i + 2] == 0 && data[i + 3]
        == 1 {
        4
    } else if i + 2 < data.len() && data[i] == 0 && data[i + 1] == 0 && data[i + 2] == 1 {
        3
    } else {
        0
    }
}

/// The place of the first start code at or behind `i`; the end of the data
/// where there is none.
pub open spec fn next_code(data: Seq<u8>, i: int) -> int
    decreases data.len() - i,
{
    if i >= data.len() {
        data.len() as int
    } else if code_len(data, i) > 0 {
        i
    } else {
        next_code(data, i + 1)
    }
}

/// The units of `data`, the first of which starts at `i`, directly behind a
/// start code.
pub open spec fn units_from(data: Seq<u8>, i: int) -> Seq<Seq<u8>>
    decreases data.len() - i,
    when 0 <= i <= data.len()
    via units_from_decreases
{
    let j = next_code(data, i);
    if j >= data.len() {
        seq![data.subrange(i, data.len() as int)]
    } else {
        seq![data.subrange(i, j)] + units_from(data, j + code_len(data, j))
    }
}

#[via_fn]
proof fn units_from_decreases(data: Seq<u8>, i: int) {
    lemma_next_code(data, i);
}

proof fn lemma_next_code(data: Seq<u8>, i: int)
    requires
        0 <= i <= data.len(),
    ensures
        i <= next_code(data, i) <= data.len(),
        next_code(data, i) < data.len() ==> code_len(data, next_code(data, i)) > 0,
    decreases data.len() - i,
{
    if i < data.len() && code_len(data, i) == 0 {
        lemma_next_code(data, i + 1);
    }
}

/// The NAL units of an Annex-B buffer: what stands between start codes, and
/// behind the last one.
pub open spec fn annexb_units(data: Seq<u8>) -> Seq<Seq<u8>> {
    let j = next_code(data, 0);
    if j >= data.len() {
        Seq::empty()
    } else {
        units_from(data, j + code_len(data, j))
    }
}

/// Splits an Annex-B buffer (start codes 00 00 00 01 or 00 00 01) into its
/// NAL units.
pub fn split_annexb(data: &[u8]) -> (nals: Vec<&[u8]>)
    ensures
        slice_views(nals@) == annexb_units(data@),
{
    let mut nals: Vec<&[u8]> = Vec::new();
    let mut start: Option<usize> = None;
    let mut i: usize = 0;
    while i < data.len()
        invariant
            i <= data@.len(),
            match start {
                Some(s) => {
                    &&& s <= i
                    &&& next_code(data@, s as int) == next_code(data@, i as int)
                    &&& slice_views(nals@) + units_from(data@, s as int) == annexb_units(data@)
                },
                None => {
                    &&& nals@.len() == 0
                    &&& next_code(data@, 0) == next_code(data@, i as int)
                },
            },
        decreases data@.len() - i,
    {
        let four = data.len() - i > 3 && data[i] == 0 && data[i + 1] == 0 && data[i + 2] == 0
            && data[i + 3] == 1;
        let three = data.len() - i > 2 && data[i] == 0 && data[i + 1] == 0 && data[i + 2] == 1;
        if four || three {
            let code_len: usize = if four { 4 } else { 3 };
            let ghost done = slice_views(nals@);
            match start {
                Some(s) => {
                    let nal = vstd::slice::slice_subrange(data, s, i);
                    nals.push(nal);
                    proof {
                        let tail = units_from(data@, i + code_len);
                        assert(units_from(data@, s as int) == seq![nal@] + tail);
                        assert(slice_views(nals@) =~= done + seq![nal@]);
                        assert(slice_views(nals@) + tail =~= done + (seq![nal@] + tail));
                    }
                },
                None => {
                    proof {
                        let tail = units_from(data@, i + code_len);
                        assert(slice_views(nals@) + tail =~= tail);
                    }
                },
            }
            i = i + code_len;
            start = Some(i);
        } else {
            i = i + 1;
        }
    }
    match start {
        Some(s) => {
            let ghost done = slice_views(nals@);
            let nal = vstd::slice::slice_subrange(data, s, data.len());
            nals.push(nal);
            proof {
                assert(units_from(data@, s as int) == seq![nal@]);
                assert(slice_views(nals@) =~= done + seq![nal@]);
            }
        },
        None => {
            assert(slice_views(nals@) =~= Seq::<Seq<u8>>::empty());
        },
    }
    nals
}

/// The units, each behind its length in four bytes.
pub open spec fn length_prefixed(units: Seq<Seq<u8>>) -> Seq<u8>
    decreases units.len(),
{
    if units.len() == 0 {
        Seq::empty()
    } else {
        length_prefixed(units.drop_last()) + be32(units.last().len() as int % 0x1_0000_0000)
            + units.last()
    }
}

/// Repacks an Annex-B access unit into length-prefixed form (4-byte lengths).
pub fn avcc_nalus(data: &[u8]) -> (out: Vec<u8>)
    ensures
        out@ == length_prefixed(annexb_units(data@)),
{
    let nals = split_annexb(data);
    let ghost units = slice_views(nals@);
    let mut out: Vec<u8> = Vec::new();
    let mut i: usize = 0;
    while i < nals.len()
        invariant
            i <= nals@.len(),
            units == slice_views(nals@),
            out@ == length_prefixed(units.take(i as int)),
        decreases nals@.len() - i,
    {
        let nalu: &[u8] = nals[i];
        push_be32(&mut out, (nalu.len() as u64 % 0x1_0000_0000) as u32);
        append(&mut out, nalu);
        proof {
            assert(units.take(i as int + 1).drop_last() =~= units.take(i as int));
            assert(units.take(i as int + 1).last() == nalu@);
        }
        i = i + 1;
    }
    assert(units.take(units.len() as int) =~= units);
    out
}

/// What is known of the parameter sets once `sps` and `pps` were seen before
/// `units`: the last set of each type up to the unit that completes the pair.
pub open spec fn sets_from(units: Seq<Seq<u8>>, sps: Option<Seq<u8>>, pps: Option<Seq<u8>>) -> Option<
    (Seq<u8>, Seq<u8>),
>
    decreases units.len(),
{
    if sps is Some && pps is Some {
        Some((sps->0, pps->0))
    } else if units.len() == 0 {
        None
    } else {
        let u = units[0];
        let kind: int = if u.len() == 0 { 0 } else { (u[0] % 32) as int };
        sets_from(
            units.skip(1),
            if kind == 7 { Some(u) } else { sps },
            if kind == 8 { Some(u) } else { pps },
        )
    }
}

/// The sequence and picture parameter sets of an access unit (unit types 7
/// and 8).
pub open spec fn parameter_sets_of(data: Seq<u8>) -> Option<(Seq<u8>, Seq<u8>)> {
    sets_from(annexb_units(data), None, None)
}

spec fn opt_view(v: Option<Vec<u8>>) -> Option<Seq<u8>> {
    match v {
        Some(x) => Some(x@),
        None => None,
    }
}

/// Extracts the SPS and PPS from an Annex-B access unit.
pub fn parameter_sets(data: &[u8]) -> (sets: Option<(Vec<u8>, Vec<u8>)>)
    ensures
        match sets {
            Some((sps, pps)) => parameter_sets_of(data@) == Some((sps@, pps@)),
            None => parameter_sets_of(data@) is None,
        },
{
    let nals = split_annexb(data);
    let ghost units = slice_views(nals@);
    let mut sps: Option<Vec<u8>> = None;
    let mut pps: Option<Vec<u8>> = None;
    let mut i: usize = 0;
    proof {
        assert(units.skip(0) =~= units);
    }
    while i < nals.len() && !(sps.is_some() && pps.is_some())
        invariant
            i <= nals@.len(),
            units == slice_views(nals@),
            units == annexb_units(data@),
            sets_from(units, None, None) == sets_from(
                units.skip(i as int),
                opt_view(sps),
                opt_view(pps),
            ),
        decreases nals@.len() - i,
    {
        let nalu: &[u8] = nals[i];
        proof {
            assert(units.skip(i as int)[0] == nalu@);
            assert(units.skip(i as int).skip(1) =~= units.skip(i as int + 1));
        }
        let kind: u8 = if nalu.len() == 0 { 0 } else { nalu[0] % 32 };
        if kind == 7 {
            sps = Some(vstd::slice::slice_to_vec(nalu));
        } else if kind == 8 {
            pps = Some(vstd::slice::slice_to_vec(nalu));
        }
        i = i + 1;
    }
    match (sps, pps) {
        (Some(s), Some(p)) => Some((s, p)),
        _ => None,
    }
}

/// The decoder configuration record: version 1, profile and level from the
/// SPS, 4-byte lengths, then the two parameter sets behind their lengths.
pub open spec fn config_record(sps: Seq<u8>, pps: Seq<u8>) -> Seq<u8> {
    seq![1u8, sps[1], sps[2], sps[3], 0xff, 0xe1] + be16(sps.len() as int) + sps + seq![1u8] + be16(
        pps.len() as int,
    ) + pps
}

/// Builds the decoder configuration record.
pub fn avcdcr(sps: &[u8], pps: &[u8]) -> (out: Vec<u8>)
    requires
        sps@.len() >= 4,
    ensures
        out@ == config_record(sps@, pps@),
{
    let mut out: Vec<u8> = Vec::new();
    out.push(1);
    out.push(sps[1]);
    out.push(sps[2]);
    out.push(sps[3]);
    out.push(0xff);
    out.push(0xe1);
    push_len16(&mut out, sps.len());
    append(&mut out, sps);
    out.push(1);
    push_len16(&mut out, pps.len());
    append(&mut out, pps);
    assert(out@ =~= config_record(sps@, pps@));
    out
}

fn push_len16(out: &mut Vec<u8>, len: usize)
    ensures
        final(out)@ == old(out)@ + be16(len as int),
{
    out.push(((len / 0x100) % 0x100) as u8);
    out.push((len % 0x100) as u8);
}

// ---------------------------------------------------------------------------
// Laws
// ---------------------------------------------------------------------------

/// One tag as a reader sees it.
pub struct TagView {
    pub tag_type: u8,
    pub ts_ms: u32,
    pub data: Seq<u8>,
}

/// The bytes of consecutive tags.
pub open spec fn tags_bytes(tags: Seq<TagView>) -> Seq<u8>
    decreases tags.len(),
{
    if tags.len() == 0 {
        Seq::empty()
    } else {
        tag_bytes(tags[0].tag_type, tags[0].ts_ms, tags[0].data) + tags_bytes(tags.skip(1))
    }
}

/// How a reader walks tags: the 24-bit size of each leads to the next one.
pub open spec fn read_tags(s: Seq<u8>) -> Seq<TagView>
    decreases s.len(),
{
    let size = from_be(s.subrange(1, 4));
    if s.len() < 15 || size < 0 || s.len() < 15 + size {
        Seq::empty()
    } else {
        seq![
            TagView {
                tag_type: s[0],
                ts_ms: from_be(s.subrange(4, 7)) as u32,
                data: s.subrange(11, 11 + size),
            },
        ] + read_tags(s.skip(15 + size))
    }
}

proof fn lemma_be24_reads_back(x: int)
    requires
        0 <= x < 0x100_0000,
    ensures
        from_be(be24(x)) == x,
{
    let s = be24(x);
    assert(s.drop_last().drop_last().drop_last() =~= Seq::<u8>::empty());
    reveal_with_fuel(from_be, 4);
}

/// A tag of a payload that its 24-bit size can express takes 15 more bytes
/// than the payload; its last four bytes give the size of the tag, eleven
/// more than the payload, so that a reader can also walk backwards.
pub proof fn law_tag_size(tag_type: u8, ts_ms: u32, data: Seq<u8>)
    requires
        data.len() < 0x100_0000,
    ensures
        ({
            let t = tag_bytes(tag_type, ts_ms, data);
            &&& t.len() == 15 + data.len()
            &&& from_be(t.skip(t.len() - 4)) == 11 + data.len()
            &&& from_be(t.subrange(1, 4)) == data.len()
            &&& t.subrange(11, 11 + data.len() as int) == data
        }),
{
    let t = tag_bytes(tag_type, ts_ms, data);
    lemma_be24_reads_back(data.len() as int);
    lemma_be32_reads_back(data.len() as int + 11);
    assert(t.skip(t.len() - 4) =~= be32(data.len() as int + 11));
    assert(t.subrange(1, 4) =~= be24(data.len() as int));
    assert(t.subrange(11, 11 + data.len() as int) =~= data);
}

/// A reader gets back the tags that were written, as long as their sizes and
/// timestamps fit into 24 bits.
pub proof fn law_tags_read_back(tags: Seq<TagView>)
    requires
        forall|i: int|
            0 <= i < tags.len() ==> (#[trigger] tags[i]).data.len() < 0x100_0000 && tags[i].ts_ms
                < 0x100_0000,
    ensures
        read_tags(tags_bytes(tags)) == tags,
    decreases tags.len(),
{
    if tags.len() == 0 {
        assert(read_tags(Seq::empty()) =~= tags);
    } else {
        let t = tags[0];
        let rest = tags.skip(1);
        let head = tag_bytes(t.tag_type, t.ts_ms, t.data);
        let s = head + tags_bytes(rest);
        law_tag_size(t.tag_type, t.ts_ms, t.data);
        lemma_be24_reads_back(t.ts_ms as int);
        assert(s.subrange(1, 4) =~= head.subrange(1, 4));
        assert(s.subrange(4, 7) =~= be24(t.ts_ms as int));
        assert(s.subrange(11, 11 + t.data.len() as int) =~= t.data);
        assert(s.skip(15 + t.data.len() as int) =~= tags_bytes(rest));
        assert forall|i: int| 0 <= i < rest.len() implies (#[trigger] rest[i]).data.len()
            < 0x100_0000 && rest[i].ts_ms < 0x100_0000 by {
            assert(rest[i] == tags[i + 1]);
        }
        law_tags_read_back(rest);
        assert(read_tags(s) =~= tags);
    }
}

/// A unit that holds no start code.
pub open spec fn clean_unit(u: Seq<u8>) -> bool {
    forall|i: int|
        0 <= i < u.len() - 2 ==> !(#[trigger] u[i] == 0 && u[i + 1] == 0 && u[i + 2] == 1)
}

/// A start code, of four bytes or of three.
pub open spec fn start_code(long: bool) -> Seq<u8> {
    if long {
        seq![0u8, 0, 0, 1]
    } else {
        seq![0u8, 0, 1]
    }
}

/// Units behind start codes, each with the kind of its code.
pub open spec fn annexb_bytes(units: Seq<(bool, Seq<u8>)>) -> Seq<u8>
    decreases units.len(),
{
    if units.len() == 0 {
        Seq::empty()
    } else {
        start_code(units[0].0) + units[0].1 + annexb_bytes(units.skip(1))
    }
}

/// No unit holds a start code, and none ends in a zero that would lengthen
/// the short code behind it.
pub open spec fn clean_units(units: Seq<(bool, Seq<u8>)>) -> bool {
    &&& forall|i: int| 0 <= i < units.len() ==> clean_unit((#[trigger] units[i]).1)
    &&& forall|i: int|
        0 <= i < units.len() - 1 && (#[trigger] units[i]).1.len() > 0 && !units[i + 1].0
            ==> units[i].1.last() != 0
}

/// The units alone.
pub open spec fn unit_data(units: Seq<(bool, Seq<u8>)>) -> Seq<Seq<u8>> {
    Seq::new(units.len(), |i: int| units[i].1)
}

/// A start code stands at `e` that a unit which ends there cannot lengthen.
spec fn code_follows(data: Seq<u8>, u: Seq<u8>, e: int) -> bool {
    ||| e + 4 <= data.len() && data[e] == 0 && data[e + 1] == 0 && data[e + 2] == 0 && data[e + 3]
        == 1
    ||| e + 3 <= data.len() && data[e] == 0 && data[e + 1] == 0 && data[e + 2] == 1 && (u.len() > 0
        ==> u.last() != 0)
}

proof fn lemma_clean_scan(data: Seq<u8>, u: Seq<u8>, at: int, k: int)
    requires
        clean_unit(u),
        0 <= at,
        0 <= k <= u.len(),
        at + u.len() <= data.len(),
        data.subrange(at, at + u.len()) == u,
        at + u.len() < data.len() ==> code_follows(data, u, at + u.len() as int),
    ensures
        next_code(data, at + k) == at + u.len(),
    decreases u.len() - k,
{
    if k < u.len() {
        assert forall|m: int| 0 <= m < u.len() implies data[at + m] == #[trigger] u[m] by {
            assert(data.subrange(at, at + u.len())[m] == u[m]);
        }
        assert(data[at + k] == u[k]);
        if k + 1 < u.len() {
            assert(data[at + k + 1] == u[k + 1]);
        }
        if k + 2 < u.len() {
            assert(data[at + k + 2] == u[k + 2]);
        }
        if k + 3 < u.len() {
            assert(data[at + k + 3] == u[k + 3]);
        }
        assert(code_len(data, at + k) == 0);
        lemma_clean_scan(data, u, at, k + 1);
    }
}

proof fn lemma_units_at(units: Seq<(bool, Seq<u8>)>, data: Seq<u8>, at: int)
    requires
        units.len() > 0,
        0 <= at <= data.len(),
        data.skip(at) == annexb_bytes(units),
        clean_units(units),
    ensures
        code_len(data, at) == start_code(units[0].0).len(),
        units_from(data, at + start_code(units[0].0).len()) == unit_data(units),
        at + start_code(units[0].0).len() <= data.len(),
        data.subrange(at, at + start_code(units[0].0).len()) == start_code(units[0].0),
    decreases units.len(),
{
    let code = start_code(units[0].0);
    let u = units[0].1;
    let rest = units.skip(1);
    let b = at + code.len();
    let e = b + u.len();
    assert(clean_unit(units[0].1));
    lemma_skip_parts(data, at, code, u, annexb_bytes(rest));
    assert(data.subrange(at, b) == code);
    assert forall|k: int| 0 <= k < code.len() implies data[at + k] == #[trigger] code[k] by {
        assert(data.subrange(at, b)[k] == code[k]);
    }
    assert(data[at + 0] == code[0] && data[at + 1] == code[1] && data[at + 2] == code[2]);
    if units[0].0 {
        assert(data[at + 3] == code[3]);
    }
    if rest.len() == 0 {
        assert(e == data.len());
        lemma_clean_scan(data, u, b, 0);
        assert(unit_data(units) =~= seq![u]);
    } else {
        assert forall|i: int| 0 <= i < rest.len() implies clean_unit((#[trigger] rest[i]).1) by {
            assert(rest[i] == units[i + 1]);
        }
        assert forall|i: int|
            0 <= i < rest.len() - 1 && (#[trigger] rest[i]).1.len() > 0 && !rest[i + 1].0 implies
            rest[i].1.last() != 0 by {
            assert(rest[i] == units[i + 1] && rest[i + 1] == units[i + 2]);
        }
        lemma_units_at(rest, data, e);
        let next = start_code(rest[0].0);
        assert(rest[0] == units[1]);
        assert forall|k: int| 0 <= k < next.len() implies data[e + k] == #[trigger] next[k] by {
            assert(data.subrange(e, e + next.len())[k] == next[k]);
        }
        assert(data[e + 0] == next[0] && data[e + 1] == next[1] && data[e + 2] == next[2]);
        if rest[0].0 {
            assert(data[e + 3] == next[3]);
        }
        assert(units[0].1 == u);
        assert(code_follows(data, u, e));
        lemma_clean_scan(data, u, b, 0);
        assert(unit_data(units) =~= seq![u] + unit_data(rest));
    }
}

/// Splitting what was joined with start codes, of three bytes or of four,
/// gives the units back.
pub proof fn law_annexb_round_trip(units: Seq<(bool, Seq<u8>)>)
    requires
        clean_units(units),
    ensures
        annexb_units(annexb_bytes(units)) == unit_data(units),
{
    let data = annexb_bytes(units);
    if units.len() == 0 {
        assert(annexb_units(data) =~= unit_data(units));
    } else {
        assert(data.skip(0) =~= data);
        lemma_units_at(units, data, 0);
    }
}

/// How a reader takes length-prefixed units apart, from the back of the unit
/// list: `n` units.
pub open spec fn read_prefixed(s: Seq<u8>) -> Seq<Seq<u8>>
    decreases s.len(),
{
    let n = from_be(s.take(4));
    if s.len() < 4 || n < 0 || s.len() < 4 + n {
        Seq::empty()
    } else {
        seq![s.subrange(4, 4 + n)] + read_prefixed(s.skip(4 + n))
    }
}

proof fn lemma_prefixed_front(units: Seq<Seq<u8>>)
    requires
        units.len() > 0,
    ensures
        length_prefixed(units) == be32(units[0].len() as int % 0x1_0000_0000) + units[0]
            + length_prefixed(units.skip(1)),
    decreases units.len(),
{
    if units.len() == 1 {
        assert(units.drop_last() =~= Seq::empty());
        assert(units.skip(1) =~= Seq::empty());
        assert(length_prefixed(units) =~= be32(units[0].len() as int % 0x1_0000_0000) + units[0]
            + length_prefixed(units.skip(1)));
    } else {
        lemma_prefixed_front(units.drop_last());
        assert(units.drop_last().skip(1) =~= units.skip(1).drop_last());
        assert(length_prefixed(units) =~= be32(units[0].len() as int % 0x1_0000_0000) + units[0]
            + length_prefixed(units.skip(1)));
    }
}

/// A reader gets back the units from their length-prefixed form.
pub proof fn law_avcc_reads_back(units: Seq<Seq<u8>>)
    requires
        forall|i: int| 0 <= i < units.len() ==> (#[trigger] units[i]).len() < 0x1_0000_0000,
    ensures
        read_prefixed(length_prefixed(units)) == units,
    decreases units.len(),
{
    if units.len() == 0 {
        assert(read_prefixed(Seq::empty()) =~= units);
    } else {
        let u = units[0];
        let rest = units.skip(1);
        let s = length_prefixed(units);
        lemma_prefixed_front(units);
        lemma_be32_reads_back(u.len() as int);
        assert(s.take(4) =~= be32(u.len() as int));
        assert(s.subrange(4, 4 + u.len() as int) =~= u);
        assert(s.skip(4 + u.len() as int) =~= length_prefixed(rest));
        assert forall|i: int| 0 <= i < rest.len() implies (#[trigger] rest[i]).len()
            < 0x1_0000_0000 by {
            assert(rest[i] == units[i + 1]);
        }
        law_avcc_reads_back(rest);
        assert(read_prefixed(s) =~= units);
    }
}

/// A player sees from the first byte of a payload what it carries: AAC or AVC,
/// a picture that decoding can start at or another one, and from the second
/// whether it is the configuration of the decoder or data for it.
pub proof fn law_payloads_tell_what_they_carry(flag: bool, data: Seq<u8>)
    ensures
        ({
            let a = audio_payload(flag, data);
            let v = video_payload(flag, data);
            let c = video_config_payload(data);
            &&& a[0] / 16 == 10 && a.skip(2) == data
            &&& a[1] == if flag {
                0int
            } else {
                1
            }
            &&& v[0] % 16 == 7 && v[1] == 1 && v.subrange(2, 5) == seq![0u8, 0, 0] && v.skip(5)
                == data
            &&& v[0] / 16 == if flag {
                1int
            } else {
                2
            }
            &&& c[0] % 16 == 7 && c[0] / 16 == 1 && c[1] == 0 && c.subrange(2, 5) == seq![
                0u8,
                0,
                0,
            ] && c.skip(5) == data
        }),
{
    assert(audio_payload(flag, data).skip(2) =~= data);
    assert(video_payload(flag, data).skip(5) =~= data);
    assert(video_config_payload(data).skip(5) =~= data);
    assert(video_payload(flag, data).subrange(2, 5) =~= seq![0u8, 0, 0]);
    assert(video_config_payload(data).subrange(2, 5) =~= seq![0u8, 0, 0]);
}

/// A player knows the file by its signature, and from its flags whether there
/// are pictures beside the audio; the first tag stands behind the header.
pub proof fn law_file_header(has_video: bool)
    ensures
        ({
            let h = file_header(has_video);
            &&& h.subrange(0, 4) == seq![0x46u8, 0x4c, 0x56, 1]
            &&& (h[4] / 4) % 2 == 1
            &&& h[4] % 2 == 1 <==> has_video
            &&& from_be(h.subrange(5, 9)) == 9
            &&& from_be(h.subrange(9, 13)) == 0
            &&& h.len() == 13
        }),
{
    let h = file_header(has_video);
    assert(h.subrange(0, 4) =~= seq![0x46u8, 0x4c, 0x56, 1]);
    assert(h.subrange(5, 9) =~= be32(9));
    assert(h.subrange(9, 13) =~= be32(0));
    lemma_be32_reads_back(9);
    lemma_be32_reads_back(0);
}

/// A decoder gets the parameter sets back from its configuration, and profile
/// and level as the sequence parameter set has them; lengths take four bytes.
pub proof fn law_configuration_reads_back(sps: Seq<u8>, pps: Seq<u8>)
    requires
        4 <= sps.len() < 0x1_0000,
        pps.len() < 0x1_0000,
    ensures
        ({
            let r = config_record(sps, pps);
            let n = sps.len() as int;
            &&& r[0] == 1
            &&& r.subrange(1, 4) == sps.subrange(1, 4)
            &&& r[4] % 4 == 3
            &&& r[5] % 32 == 1
            &&& from_be(r.subrange(6, 8)) == n
            &&& r.subrange(8, 8 + n) == sps
            &&& r[8 + n] == 1
            &&& from_be(r.subrange(9 + n, 11 + n)) == pps.len()
            &&& r.skip(11 + n) == pps
        }),
{
    let r = config_record(sps, pps);
    let n = sps.len() as int;
    assert(r.subrange(1, 4) =~= sps.subrange(1, 4));
    assert(r.subrange(6, 8) =~= be16(n));
    assert(r.subrange(8, 8 + n) =~= sps);
    assert(r.subrange(9 + n, 11 + n) =~= be16(pps.len() as int));
    assert(r.skip(11 + n) =~= pps);
    lemma_be16_reads_back(n);
    lemma_be16_reads_back(pps.len() as int);
}

proof fn lemma_be16_reads_back(x: int)
    requires
        0 <= x < 0x1_0000,
    ensures
        from_be(be16(x)) == x,
{
    let s = be16(x);
    assert(s.drop_last().drop_last() =~= Seq::<u8>::empty());
    reveal_with_fuel(from_be, 3);
}

/// The unit holds a parameter set of the type.
pub open spec fn is_set(u: Seq<u8>, kind: int) -> bool {
    u.len() > 0 && u[0] as int % 32 == kind
}

/// The parameter sets are found where an access unit holds both: a sequence
/// and a picture parameter set, whatever stands around them; what is found is
/// one of its units, of the right type. Without one of them nothing is found.
pub proof fn law_parameter_sets(units: Seq<Seq<u8>>, sps: Option<Seq<u8>>, pps: Option<Seq<u8>>)
    requires
        sps matches Some(s) ==> is_set(s, 7),
        pps matches Some(p) ==> is_set(p, 8),
    ensures
        match sets_from(units, sps, pps) {
            Some((s, p)) => is_set(s, 7) && is_set(p, 8) && (sps == Some(s) || units.contains(s))
                && (pps == Some(p) || units.contains(p)),
            None => {
                ||| sps is None && forall|i: int|
                    0 <= i < units.len() ==> !is_set(#[trigger] units[i], 7)
                ||| pps is None && forall|i: int|
                    0 <= i < units.len() ==> !is_set(#[trigger] units[i], 8)
            },
        },
    decreases units.len(),
{
    if !(sps is Some && pps is Some) && units.len() > 0 {
        let u = units[0];
        let rest = units.skip(1);
        let a = if is_set(u, 7) {
            Some(u)
        } else {
            sps
        };
        let b = if is_set(u, 8) {
            Some(u)
        } else {
            pps
        };
        law_parameter_sets(rest, a, b);
        assert(sets_from(units, sps, pps) == sets_from(rest, a, b));
        assert(units.contains(u));
        match sets_from(units, sps, pps) {
            Some((s, p)) => {
                if rest.contains(s) {
                    let k = choose|k: int| 0 <= k < rest.len() && rest[k] == s;
                    assert(units[k + 1] == s);
                }
                if rest.contains(p) {
                    let k = choose|k: int| 0 <= k < rest.len() && rest[k] == p;
                    assert(units[k + 1] == p);
                }
            },
            None => {
                if a is None && forall|i: int|
                    0 <= i < rest.len() ==> !is_set(#[trigger] rest[i], 7) {
                    assert forall|i: int| 0 <= i < units.len() implies !is_set(
                        #[trigger] units[i],
                        7,
                    ) by {
                        if i > 0 {
                            assert(rest[i - 1] == units[i]);
                        }
                    }
                } else {
                    assert forall|i: int| 0 <= i < units.len() implies !is_set(
                        #[trigger] units[i],
                        8,
                    ) by {
                        if i > 0 {
                            assert(rest[i - 1] == units[i]);
                        }
                    }
                }
            },
        }
    }
}

/// The numbers that metadata holds, as a reader finds them: each is a name
/// behind its length, and the bits of a double.
pub open spec fn read_properties(s: Seq<u8>, n: int) -> Seq<(Seq<u8>, int)>
    decreases n,
{
    if n <= 0 {
        Seq::empty()
    } else {
        let len = from_be(s.subrange(1, 3));
        seq![(s.subrange(3, 3 + len), from_be(s.subrange(4 + len, 12 + len)))] + read_properties(
            s.skip(12 + len),
            n - 1,
        )
    }
}

/// The metadata tells what follows: their count in front, then the size of the
/// pictures, their rate and codec where there are any, the codec of the audio
/// (AAC) and its rate in kilobits, and the mark of the end.
#[verifier::rlimit(60)]
pub proof fn law_metadata_reads_back(
    width: u32,
    height: u32,
    fps_bits: u64,
    has_video: bool,
    audio_bitrate: u32,
)
    ensures
        ({
            let p = metadata_payload(width, height, fps_bits, has_video, audio_bitrate);
            let name = vstd::utf8::encode_utf8("duration"@);
            let audio = seq![
                (vstd::utf8::encode_utf8("audiocodecid"@), ratio_bits(10, 1)),
                (
                    vstd::utf8::encode_utf8("audiodatarate"@),
                    ratio_bits(audio_bitrate as nat, 1000),
                ),
            ];
            let video = seq![
                (vstd::utf8::encode_utf8("width"@), ratio_bits(width as nat, 1)),
                (vstd::utf8::encode_utf8("height"@), ratio_bits(height as nat, 1)),
                (vstd::utf8::encode_utf8("framerate"@), fps_bits as int),
                (vstd::utf8::encode_utf8("videocodecid"@), ratio_bits(7, 1)),
            ];
            let all = seq![(name, 0int)] + (if has_video {
                video
            } else {
                Seq::empty()
            }) + audio;
            &&& p[0] == 2 && from_be(p.subrange(1, 3)) == 10 && p.subrange(3, 13) == seq![
                0x6fu8,
                0x6e,
                0x4d,
                0x65,
                0x74,
                0x61,
                0x44,
                0x61,
                0x74,
                0x61,
            ]
            &&& p[13] == 8
            &&& from_be(p.subrange(14, 18)) == all.len()
            &&& read_properties(p.skip(18), all.len() as int) == all
            &&& p.skip(p.len() - 3) == seq![0u8, 0, 9]
        }),
{
    let p = metadata_payload(width, height, fps_bits, has_video, audio_bitrate);
    lemma_property_names();
    crate::ieee::lemma_ratio_fits(width as nat, 1);
    crate::ieee::lemma_ratio_fits(height as nat, 1);
    crate::ieee::lemma_ratio_fits(7, 1);
    crate::ieee::lemma_ratio_fits(10, 1);
    crate::ieee::lemma_ratio_fits(audio_bitrate as nat, 1000);
    let count: int = if has_video {
        7
    } else {
        3
    };
    lemma_be32_reads_back(count);
    lemma_be16_reads_back(10);
    assert(p.subrange(1, 3) =~= be16(10));
    assert(p.subrange(14, 18) =~= be32(count));
    assert(p.skip(p.len() - 3) =~= seq![0u8, 0, 9]);
    let tail = seq![0u8, 0, 9];
    let last = ratio_bits(audio_bitrate as nat, 1000);
    let c2 = property("audiodatarate"@, last) + tail;
    let c1 = property("audiocodecid"@, ratio_bits(10, 1)) + c2;
    lemma_read_property("audiodatarate"@, last, tail, 1);
    assert(read_properties(tail, 0) =~= Seq::empty());
    lemma_read_property("audiocodecid"@, ratio_bits(10, 1), c2, 2);
    let audio = seq![
        (vstd::utf8::encode_utf8("audiocodecid"@), ratio_bits(10, 1)),
        (vstd::utf8::encode_utf8("audiodatarate"@), last),
    ];
    assert(read_properties(c1, 2) =~= audio);
    let d = property("duration"@, 0);
    if has_video {
        let v4 = property("videocodecid"@, ratio_bits(7, 1)) + c1;
        let v3 = property("framerate"@, fps_bits as int) + v4;
        let v2 = property("height"@, ratio_bits(height as nat, 1)) + v3;
        let v1 = property("width"@, ratio_bits(width as nat, 1)) + v2;
        lemma_read_property("videocodecid"@, ratio_bits(7, 1), c1, 3);
        lemma_read_property("framerate"@, fps_bits as int, v4, 4);
        lemma_read_property("height"@, ratio_bits(height as nat, 1), v3, 5);
        lemma_read_property("width"@, ratio_bits(width as nat, 1), v2, 6);
        lemma_read_property("duration"@, 0, v1, 7);
        assert(p.skip(18) =~= d + v1);
        let video = seq![
            (vstd::utf8::encode_utf8("width"@), ratio_bits(width as nat, 1)),
            (vstd::utf8::encode_utf8("height"@), ratio_bits(height as nat, 1)),
            (vstd::utf8::encode_utf8("framerate"@), fps_bits as int),
            (vstd::utf8::encode_utf8("videocodecid"@), ratio_bits(7, 1)),
        ];
        assert(read_properties(p.skip(18), 7) =~= seq![
            (vstd::utf8::encode_utf8("duration"@), 0int),
        ] + video + audio);
    } else {
        lemma_read_property("duration"@, 0, c1, 3);
        assert(p.skip(18) =~= d + c1);
        assert(read_properties(p.skip(18), 3) =~= seq![
            (vstd::utf8::encode_utf8("duration"@), 0int),
        ] + Seq::<(Seq<u8>, int)>::empty() + audio);
    }
}

proof fn lemma_read_property(name: Seq<char>, bits: int, rest: Seq<u8>, n: int)
    requires
        vstd::utf8::encode_utf8(name).len() < 0x1_0000,
        0 <= bits <= u64::MAX,
        n > 0,
    ensures
        read_properties(property(name, bits) + rest, n) == seq![
            (vstd::utf8::encode_utf8(name), bits),
        ] + read_properties(rest, n - 1),
{
    let text = vstd::utf8::encode_utf8(name);
    let len = text.len() as int;
    let s = property(name, bits) + rest;
    lemma_be16_reads_back(len);
    lemma_be64_reads_back(bits);
    assert(s.subrange(1, 3) =~= be16(len));
    assert(s.subrange(3, 3 + len) =~= text);
    assert(s.subrange(4 + len, 12 + len) =~= be64(bits));
    assert(s.skip(12 + len) =~= rest);
}

proof fn lemma_be64_reads_back(x: int)
    requires
        0 <= x <= u64::MAX,
    ensures
        from_be(be64(x)) == x,
{
    let hi = x / 0x1_0000_0000;
    let a = x / 0x100_0000;
    let b = x / 0x1_0000;
    let c = x / 0x100;
    let s4 = be64(x).take(4);
    lemma_be32_reads_back(hi);
    assert(hi / 0x100_0000 == x / 0x100_0000_0000_0000);
    assert(hi / 0x1_0000 == x / 0x1_0000_0000_0000);
    assert(hi / 0x100 == x / 0x100_0000_0000);
    assert(s4 =~= be32(hi));
    let s5 = s4.push((a % 0x100) as u8);
    let s6 = s5.push((b % 0x100) as u8);
    let s7 = s6.push((c % 0x100) as u8);
    let s8 = s7.push((x % 0x100) as u8);
    assert(s8 =~= be64(x));
    assert(a / 0x100 == hi && b / 0x100 == a && c / 0x100 == b);
    lemma_from_be_push(s4, a);
    lemma_from_be_push(s5, b);
    lemma_from_be_push(s6, c);
    lemma_from_be_push(s7, x);
}

proof fn lemma_from_be_push(s: Seq<u8>, y: int)
    requires
        0 <= y,
        from_be(s) == y / 0x100,
    ensures
        from_be(s.push((y % 0x100) as u8)) == y,
{
    assert(s.push((y % 0x100) as u8).drop_last() =~= s);
}

} // verus!
