use crabsoup::flv::{
    audio_tag, avcc_nalus, avcdcr, header, metadata_tag, parameter_sets, split_annexb, tag,
    video_sequence_header, video_tag, AAC_HEADER, TAG_AUDIO, TAG_SCRIPT, VIDEO_INTER,
    VIDEO_KEYFRAME,
};
use crabsoup::ieee::{ceil_of_bits, f64_bits_of_ratio, text_of_bits, Double};
use crabsoup::mpegts::{
    packetize, pid_hi, split_adts, MpegTsMuxer, AUDIO_PID, PAT_PID, PMT_PID, SYNC, TS_PACKET_SIZE,
};
use crabsoup::ogg_mux::{
    crc32, opus_head_packet, opus_tags_packet, sanitize_comment, segment_table, OggMuxer,
};

fn split_pages(bytes: &[u8]) -> Vec<Vec<u8>> {
    let mut pages = Vec::new();
    let mut i = 0;
    while i < bytes.len() {
        assert_eq!(&bytes[i..i + 4], b"OggS");
        let nsegs = bytes[i + 26] as usize;
        let segs = &bytes[i + 27..i + 27 + nsegs];
        let body_len: usize = segs.iter().map(|&s| s as usize).sum();
        let page = &bytes[i..i + 27 + nsegs + body_len];
        pages.push(page.to_vec());
        i += page.len();
    }
    assert_eq!(i, bytes.len());
    pages
}

#[test]
fn builds_valid_ogg_pages() {
    let mut mux = OggMuxer::new(0x1234_5678);
    mux.write_packet(&opus_head_packet(2), 0);
    mux.flush();
    mux.write_packet(&opus_tags_packet("Crabsoup"), 0);
    mux.flush();

    // Two 20 ms audio packets: 960 samples each at 48 kHz.
    mux.write_packet(&[0u8; 60], 960);
    mux.write_packet(&[0u8; 60], 1920);
    mux.finish();

    let out = mux.take_output();
    let pages = split_pages(&out);
    // Head page, tags page, then one audio page with both packets.
    assert_eq!(pages.len(), 3);
    assert_eq!(pages[0][5], 0x02);
    assert_eq!(pages[2][5] & 0x04, 0x04);
    let granule = u64::from_le_bytes(pages[2][6..14].try_into().unwrap());
    assert_eq!(granule, 1920);
    for p in &pages {
        let crc = u32::from_le_bytes(p[22..26].try_into().unwrap());
        assert_ne!(crc, 0);
    }
}

#[test]
fn segment_table_handles_255_boundary() {
    assert_eq!(segment_table(254), vec![254]);
    assert_eq!(segment_table(255), vec![255, 0]);
    assert_eq!(segment_table(256), vec![255, 1]);
    assert_eq!(segment_table(300), vec![255, 45]);
}

fn hex(s: &str) -> Vec<u8> {
    (0..s.len())
        .step_by(2)
        .map(|i| u8::from_str_radix(&s[i..i + 2], 16).unwrap())
        .collect()
}

#[test]
fn crc_matches_external_reference() {
    // The first page of a real stream: header (checksum zeroed) and a 19-byte
    // OpusHead.
    let hdr = hex("4f676753000200000000000000004342414300000000000000000113");
    let body = hex("4f707573486561640102000080bb0000000000");
    let crc = crc32(&hdr, &body);
    assert_eq!(crc, 0xae3e_7e5f, "CRC does not match external reference");
}

#[test]
fn page_checksums_verify() {
    let mut mux = OggMuxer::new(7);
    mux.write_packet(&[1, 2, 3], 960);
    mux.flush();
    mux.write_packet(&[9; 700], 1920);
    mux.finish();
    for page in split_pages(&mux.take_output()) {
        let stored = u32::from_le_bytes(page[22..26].try_into().unwrap());
        let mut zeroed = page.clone();
        zeroed[22..26].fill(0);
        assert_eq!(crc32(&zeroed, &[]), stored);
    }
    assert!(mux.take_output().is_empty(), "pages are taken once");
}

#[test]
fn full_segment_tables_start_a_new_page() {
    let mut mux = OggMuxer::new(7);
    for i in 0..300i64 {
        mux.write_packet(&[i as u8], i + 1);
    }
    mux.finish();
    let pages = split_pages(&mux.take_output());
    assert_eq!(pages.len(), 2);
    assert_eq!(pages[0][26], 255);
    assert_eq!(pages[1][26], 45);
    assert_eq!(u64::from_le_bytes(pages[0][6..14].try_into().unwrap()), 255);
    assert_eq!(u32::from_le_bytes(pages[1][18..22].try_into().unwrap()), 1);
}

#[test]
fn comments_lose_control_characters() {
    assert_eq!(sanitize_comment("a\nb\u{7f}c\u{85}é"), "abcé");
    let tags = opus_tags_packet("x\ny");
    assert_eq!(&tags[..8], b"OpusTags");
    assert_eq!(&tags[8..20], b"\x08\0\0\0Crabsoup");
    assert_eq!(&tags[20..], b"\x01\0\0\0\x08\0\0\0title=xy");
    assert_eq!(opus_head_packet(2), hex("4f707573486561640102000080bb0000000000"));
}

#[test]
fn packets_are_188_bytes_with_sync_and_continuity() {
    let mut mux = MpegTsMuxer::new();
    let mut out = Vec::new();
    mux.write_program(&mut out);
    assert_eq!(out.len(), 2 * TS_PACKET_SIZE);
    for (i, packet) in out.chunks_exact(TS_PACKET_SIZE).enumerate() {
        assert_eq!(packet[0], SYNC);
        let pid = (((packet[1] & 0x1f) as u16) << 8) | packet[2] as u16;
        assert_eq!(pid, if i == 0 { PAT_PID } else { PMT_PID });
        assert_ne!(packet[1] & 0x40, 0, "PUSI set on first packet");
    }
}

fn adts_frame(len: usize) -> Vec<u8> {
    let mut adts = vec![0u8; len];
    adts[0] = 0xff;
    adts[1] = 0xf1;
    adts[2] = 0x50;
    adts[3] = ((len >> 11) & 0x03) as u8;
    adts[4] = (len >> 3) as u8;
    adts[5] = ((len << 5) as u8 & 0xe0) | 0x1f;
    adts[6] = 0xfc;
    adts
}

#[test]
#[allow(clippy::erasing_op)]
fn adts_wraps_in_pes_with_pts() {
    let mut mux = MpegTsMuxer::new();
    let mut out = Vec::new();
    // As large as an AAC-LC 128 kbps stereo frame, so that the first packet
    // carries the whole PES header without stuffing.
    let mut adts = vec![0u8; 200];
    adts[0] = 0xff;
    adts[1] = 0xf1;
    adts[2] = 0x50;
    adts[3] = ((200 >> 11) & 0x03) as u8;
    adts[4] = (200 >> 3) as u8;
    adts[5] = ((200 << 5) as u8 & 0xe0) | 0xfc;
    mux.push_audio(&adts, 90_000, &mut out);
    assert_eq!(out.len() % TS_PACKET_SIZE, 0);
    let first = &out[..TS_PACKET_SIZE];
    assert_eq!(first[0], SYNC);
    let pid = (((first[1] & 0x1f) as u16) << 8) | first[2] as u16;
    assert_eq!(pid, AUDIO_PID);
    assert_ne!(first[1] & 0x40, 0);
    assert_eq!(first[3] & 0x30, 0x30, "adaptation + payload");
    assert_eq!(&first[12..15], &[0x00, 0x00, 0x01]);
    assert_eq!(first[15], 0xc0, "first audio stream id");
    assert_eq!(first[21], 0x21 | (((90_000u64 >> 29) & 0x0e) as u8));
}

#[test]
fn split_adts_splits_all_frames() {
    let mut data = Vec::new();
    for _ in 0..3 {
        data.extend_from_slice(&[0xff, 0xf1, 0x50, 0x00, 0x00, 0xe0, 0xfc]);
    }
    let frames = split_adts(&data);
    assert_eq!(frames.len(), 3);
    assert_eq!(frames.iter().map(|f| f.len()).sum::<usize>(), data.len());
}

#[test]
fn split_adts_finds_the_next_sync_word() {
    let frame = adts_frame(50);
    let mut data = vec![1, 2, 3];
    data.extend_from_slice(&frame);
    data.extend_from_slice(&frame[..20]);
    let frames = split_adts(&data);
    assert_eq!(frames.len(), 1);
    assert_eq!(frames[0], &frame[..]);
    assert!(split_adts(&[0xff, 0xf1]).is_empty());
}

/// The payload that a demuxer reads from packets of one PID.
fn demux(out: &[u8], pid: u16) -> Vec<u8> {
    let mut payload = Vec::new();
    let mut cc = None;
    for p in out.chunks_exact(TS_PACKET_SIZE) {
        assert_eq!(p[0], SYNC);
        if (((p[1] & 0x1f) as u16) << 8) | p[2] as u16 != pid {
            continue;
        }
        if let Some(last) = cc {
            assert_eq!(p[3] & 0x0f, (last + 1) % 16, "continuity");
        }
        cc = Some(p[3] & 0x0f);
        let at = if p[3] & 0x20 != 0 { 5 + p[4] as usize } else { 4 };
        payload.extend_from_slice(&p[at..]);
    }
    payload
}

#[test]
fn packetized_payload_reads_back() {
    for len in [1usize, 2, 175, 176, 177, 183, 184, 359, 360, 361, 4000] {
        let payload: Vec<u8> = (0..len).map(|i| (i * 7) as u8).collect();
        let mut out = Vec::new();
        let next = packetize(&payload, AUDIO_PID, Some(1 << 32), 14, &mut out);
        assert_eq!(out.len() % TS_PACKET_SIZE, 0);
        assert_eq!(demux(&out, AUDIO_PID), payload, "length {len}");
        assert_eq!(next as usize, (14 + out.len() / TS_PACKET_SIZE) % 16);
    }
    assert_eq!(pid_hi(PMT_PID), [0xf0, 0x00]);
}

#[test]
fn audio_frames_read_back_from_the_stream() {
    let mut mux = MpegTsMuxer::default();
    let mut out = Vec::new();
    mux.write_program(&mut out);
    let mut expected = Vec::new();
    for i in 0..20u64 {
        let frame = adts_frame(100 + i as usize * 13);
        mux.push_audio(&frame, i * 2089, &mut out);
        expected.extend_from_slice(&frame);
    }
    let payload = demux(&out, AUDIO_PID);
    let mut frames = Vec::new();
    for f in split_adts(&payload) {
        frames.extend_from_slice(f);
    }
    assert_eq!(frames, expected);
}

#[test]
fn header_matches_flv_spec() {
    let h = header(true);
    assert_eq!(&h[..9], &[b'F', b'L', b'V', 0x01, 0x05, 0, 0, 0, 9]);
    assert_eq!(&h[9..13], &[0, 0, 0, 0], "leading PreviousTagSize0");
    assert_eq!(header(false)[4], 0x04, "audio-only flags");
}

#[test]
fn tag_layout_is_byte_exact() {
    let t = tag(TAG_AUDIO, 1234, &[1, 2, 3]);
    assert_eq!(t.len(), 11 + 3 + 4);
    assert_eq!(t[0], TAG_AUDIO);
    assert_eq!(&t[1..4], &[0, 0, 3], "24-bit data size");
    assert_eq!(&t[4..8], &[0, 4, 0xD2, 0], "24-bit ms timestamp 1234");
    assert_eq!(&t[8..11], &[0, 0, 0], "stream id 0");
    assert_eq!(&t[11..14], &[1, 2, 3]);
    assert_eq!(&t[14..18], &[0, 0, 0, 14], "previous tag size = 11 + 3");
    assert_eq!(t[7], 0);
}

#[test]
fn audio_tag_headers() {
    let seq = audio_tag(0, true, &[0x12, 0x10]);
    assert_eq!(seq[11], AAC_HEADER);
    assert_eq!(seq[12], 0, "sequence header packet type");
    assert_eq!(&seq[13..15], &[0x12, 0x10]);
    let raw = audio_tag(23, false, &[0xAA]);
    assert_eq!(raw[12], 1, "raw access unit packet type");
    assert_eq!(raw[13], 0xAA);
}

#[test]
fn video_tags_and_sequence_header() {
    let key = video_tag(40, true, &[0, 0, 0, 1, 0x65, 0x88]);
    assert_eq!(key[11], VIDEO_KEYFRAME);
    assert_eq!(key[12], 1, "NALU packet type");
    assert_eq!(&key[13..16], &[0, 0, 0], "composition time");
    let inter = video_tag(40, false, &[]);
    assert_eq!(inter[11], VIDEO_INTER);
    let seq = video_sequence_header(&[1, 2]);
    assert_eq!(seq[11], VIDEO_KEYFRAME);
    assert_eq!(seq[12], 0, "sequence header packet type");
    assert_eq!(seq[13], 0, "sequence header timestamp is 0");
}

#[test]
fn metadata_tag_contains_known_properties() {
    let m = metadata_tag(320, 240, 25.0f64.to_bits(), true, 128_000);
    assert_eq!(m[0], TAG_SCRIPT);
    let data = &m[11..m.len() - 4];
    let text = String::from_utf8_lossy(data);
    assert!(text.contains("onMetaData"));
    assert!(text.contains("width"));
    assert!(text.contains("height"));
    assert!(text.contains("videocodecid"));
    assert!(text.contains("audiocodecid"));
    let count = u32::from_be_bytes(data[14..18].try_into().unwrap());
    assert_eq!(
        count, 7,
        "duration, width, height, framerate, videocodecid, audiocodecid, audiodatarate"
    );
}

/// The number behind a property name in a metadata tag.
fn property(m: &[u8], name: &str) -> f64 {
    let at = m
        .windows(name.len())
        .position(|w| w == name.as_bytes())
        .unwrap();
    let from = at + name.len() + 1;
    f64::from_be_bytes(m[from..from + 8].try_into().unwrap())
}

#[test]
fn metadata_numbers_are_doubles() {
    let m = metadata_tag(320, 240, 29.97f64.to_bits(), true, 127_999);
    assert_eq!(property(&m, "width"), 320.0);
    assert_eq!(property(&m, "height"), 240.0);
    assert_eq!(property(&m, "framerate"), 29.97);
    assert_eq!(property(&m, "videocodecid"), 7.0);
    assert_eq!(property(&m, "audiocodecid"), 10.0);
    assert_eq!(property(&m, "audiodatarate"), 127_999.0 / 1000.0);
    let audio = metadata_tag(0, 0, 0, false, 128_000);
    assert_eq!(property(&audio, "audiodatarate"), 128.0);
    assert!(!String::from_utf8_lossy(&audio).contains("width"));
}

#[test]
fn quotients_are_rounded_like_doubles() {
    for (a, b) in [(1u32, 3u32), (0, 7), (7, 1), (u32::MAX, 3), (1, u32::MAX), (127_999, 1000)] {
        assert_eq!(f64_bits_of_ratio(a, b), (a as f64 / b as f64).to_bits());
    }
    let mut x = 12345u64;
    for _ in 0..2000 {
        x = x.wrapping_mul(6364136223846793005).wrapping_add(1442695040888963407);
        let ticks = x >> 34;
        let d = Double::nearest(ticks, 90_000);
        let f = ticks as f64 / 90_000.0;
        assert_eq!(d.bits(), f.to_bits());
        assert_eq!(ceil_of_bits(d.bits()), f.ceil() as u64);
        assert_eq!(text_of_bits(d.bits()), format!("{f:.3}"));
    }
}

#[test]
fn annexb_split_and_avcc_repack_round_trip() {
    let sps = [0x67, 0x42, 0x40, 0x1f];
    let pps = [0x68, 0xCE];
    let idr = [0x65, 0x11, 0x22];
    let au = [0, 0, 0, 1]
        .iter()
        .chain(&sps)
        .chain(&[0, 0, 0, 1])
        .chain(&pps)
        .chain(&[0, 0, 0, 1])
        .chain(&idr)
        .copied()
        .collect::<Vec<_>>();
    assert_eq!(split_annexb(&au).len(), 3);

    let (got_sps, got_pps) = parameter_sets(&au).expect("parameter sets found");
    assert_eq!(got_sps, sps);
    assert_eq!(got_pps, pps);
    assert!(parameter_sets(&[0, 0, 0, 1, 0x65]).is_none());

    let avcc = avcc_nalus(&au);
    let mut i = 0;
    for expect in [&sps[..], &pps[..], &idr[..]] {
        let n = u32::from_be_bytes(avcc[i..i + 4].try_into().unwrap()) as usize;
        assert_eq!(n, expect.len());
        assert_eq!(&avcc[i + 4..i + 4 + n], expect);
        i += 4 + n;
    }

    let dcr = avcdcr(&sps, &pps);
    assert_eq!(dcr[0], 1);
    assert_eq!(dcr[1], 0x42, "profile from SPS");
    assert_eq!(dcr[3], 0x1f, "level from SPS");
    assert_eq!(dcr[5], 0xE1, "4-byte NALU lengths");
    assert_eq!(&dcr[6..8], &[0, 4], "SPS length (4 bytes)");
    assert_eq!(&dcr[8..12], &sps);
    assert_eq!(dcr[12], 1, "numPPS");
    assert_eq!(&dcr[13..15], &[0, 2], "PPS length");
    assert_eq!(&dcr[15..], &pps);
}

#[test]
fn three_byte_start_codes_are_split_too() {
    let au = [0, 0, 1, 0x65, 0x01, 0, 0, 1, 0x41, 0x02];
    let nals = split_annexb(&au);
    assert_eq!(nals.len(), 2);
    assert_eq!(nals[0], &[0x65, 0x01]);
    assert_eq!(nals[1], &[0x41, 0x02]);
}

#[test]
fn program_map_has_no_descriptors() {
    let mut out = Vec::new();
    MpegTsMuxer::new().write_program(&mut out);
    assert_eq!((out[203] & 0x0f, out[204]), (0, 0));
    assert_eq!((out[208] & 0x0f, out[209]), (0, 0));
}

#[test]
fn clock_references_are_spaced() {
    let mut mux = MpegTsMuxer::new();
    let mut with = Vec::new();
    for pts in [100u64, 5_000, 9_099, 9_100, 18_099, 18_100] {
        let mut out = Vec::new();
        mux.push_audio(&[0u8; 400], pts, &mut out);
        for (k, p) in out.chunks(TS_PACKET_SIZE).enumerate() {
            let pcr = p[3] & 0x20 != 0 && p[4] > 0 && p[5] & 0x10 != 0;
            assert!(!pcr || k == 0, "only the first packet");
            if pcr {
                let base = (p[6] as u64) << 25
                    | (p[7] as u64) << 17
                    | (p[8] as u64) << 9
                    | (p[9] as u64) << 1
                    | (p[10] as u64) >> 7;
                assert_eq!(base, pts);
                with.push(pts);
            }
        }
    }
    assert_eq!(with, vec![100, 9_100, 18_100]);
}

#[test]
fn a_stream_of_pages_reads_back() {
    let packets: Vec<Vec<u8>> = (0..40u8).map(|i| vec![i; 2_000 * (i as usize % 5)]).collect();
    let mut mux = OggMuxer::new(9);
    let mut out = Vec::new();
    for (i, p) in packets.iter().enumerate() {
        mux.write_packet(p, i as i64);
        if i % 7 == 0 {
            mux.flush();
            out.extend(mux.take_output());
        }
    }
    mux.finish();
    out.extend(mux.take_output());
    let mut read: Vec<Vec<u8>> = Vec::new();
    let (mut at, mut number) = (0, 0u32);
    while at < out.len() {
        let page = &out[at..];
        assert_eq!(&page[..5], b"OggS\0");
        assert_eq!(page[5] & 0x02 != 0, number == 0);
        assert_eq!(&page[14..18], &9u32.to_le_bytes());
        assert_eq!(&page[18..22], &number.to_le_bytes());
        let segs = &page[27..27 + page[26] as usize];
        let mut body = 27 + segs.len();
        let mut packet = Vec::new();
        for s in segs {
            packet.extend_from_slice(&page[body..body + *s as usize]);
            body += *s as usize;
            if *s < 255 {
                read.push(std::mem::take(&mut packet));
            }
        }
        assert!(packet.is_empty());
        assert_eq!(&page[6..14], &(read.len() as i64 - 1).to_le_bytes());
        let mut blank = page[..body].to_vec();
        blank[22..26].fill(0);
        assert_eq!(&page[22..26], &crc32(&blank, &[]).to_le_bytes());
        at += body;
        number += 1;
    }
    assert!(read == packets);
}

#[test]
fn both_start_codes_are_recognised() {
    let data = [0, 0, 0, 1, 9, 0, 0, 0, 2, 0, 0, 0, 0, 1, 8, 7, 0, 0, 1, 6];
    let units = split_annexb(&data);
    assert_eq!(units, vec![&[9u8, 0, 0, 0, 2, 0][..], &[8, 7][..], &[6][..]]);
}
