use crabsoup::config::{
    ControlConfig, FileOutputConfig, HlsOutputConfig, LiveConfig, OutputConfig, OutputFormat,
    SoundcardOutputConfig, StreamConfig,
};
use crabsoup::dsp::{
    device_layout, ir_channels, ir_is_empty, packet_counts, partitions, pick_partition, push_twice,
    line_slots, response_index, tap_slots, wav16_mono, DelayLine, DeviceLayout, SampleQueue, StretchState, StretchStep,
};
use crabsoup::encoder::{
    aac_channel_mode, drain_goes_on, mp3_buffer_size, mp3_kbps, title_fits, AacFeed, OpusFramer,
    OPUS_FRAME_SAMPLES,
};
use crabsoup::flv::{AAC_HEADER, TAG_AUDIO, TAG_VIDEO};
use crabsoup::link::{LinkEvent, LinkStage};
use crabsoup::mp4::{picture_is_usable, Mp4Action, Mp4Muxer};
use crabsoup::picture::{take_ready, AccessUnit};
use crabsoup::report::{first_error, print_result, Ending, NowPlaying, Summary};
use crabsoup::rtmp::{
    audio_fits, opening, picture_fits, tail_goes_on, FlvStream, RtmpEvent, RtmpPhase, RtmpPump,
};

/// The tags of an FLV stream: kind, timestamp and payload.
fn tags(flv: &[u8]) -> Vec<(u8, u32, Vec<u8>)> {
    let mut out = Vec::new();
    let mut i = 9 + 4; // past header + PreviousTagSize0
    while i + 11 < flv.len() {
        let size = u32::from_be_bytes([0, flv[i + 1], flv[i + 2], flv[i + 3]]) as usize;
        assert!(i + 11 + size + 4 <= flv.len(), "tag out of bounds");
        let ts = u32::from_be_bytes([flv[i + 7], flv[i + 4], flv[i + 5], flv[i + 6]]);
        out.push((flv[i], ts, flv[i + 11..i + 11 + size].to_vec()));
        i += 11 + size + 4;
    }
    assert_eq!(i, flv.len());
    out
}

#[test]
fn publishes_valid_flv_with_audio_only() {
    let mut flv = opening(0, 0, 0, false, 128_000);
    let mut stream = FlvStream::new();
    for _ in 0..9 {
        let unit = vec![0x21u8; 300];
        assert!(audio_fits(&unit));
        flv.extend(stream.audio(&vec![unit], 1024, 44_100, &[0x12, 0x10]));
        flv.extend(stream.video(stream.audio_ms()));
    }
    assert_eq!(&flv[..9], &[b'F', b'L', b'V', 0x01, 0x04, 0, 0, 0, 9]);
    // onMetaData script tag first, then an AAC sequence header, then
    // raw AAC access units.
    assert!(String::from_utf8_lossy(&flv).contains("onMetaData"));
    let mut saw_seq = false;
    let mut count = 0;
    let mut last_ms = 0;
    for (kind, ts, payload) in tags(&flv) {
        // Timestamps must be monotonically non-decreasing.
        assert!(ts >= last_ms, "timestamps must not go backwards");
        last_ms = ts;
        if kind == TAG_AUDIO {
            count += 1;
            assert_eq!(payload[0], AAC_HEADER);
            if payload[1] == 0 {
                assert!(!saw_seq, "only one sequence header");
                saw_seq = true;
                assert_eq!(payload[2..], [0x12, 0x10], "AAC-LC AudioSpecificConfig");
            } else {
                assert_eq!(payload[1], 1, "raw access unit");
                assert!(saw_seq, "AAC sequence header must precede raw audio");
            }
        }
    }
    assert!(saw_seq, "AAC sequence header must precede raw audio");
    assert!(count >= 5, "one 0.2 s burst yields ~9 tags, got {count}");
    // Each unit lasts 1024 / 44.1 ms, in whole ones.
    assert_eq!(stream.audio_ms(), 9 * 23);
}

/// A picture with parameter sets, or without.
fn picture(pts_90k: u64, idr: bool) -> AccessUnit {
    let mut data = Vec::new();
    if idr {
        data.extend([0, 0, 0, 1, 0x67, 0x42, 0x00, 0x1f, 0x96, 0x54]);
        data.extend([0, 0, 0, 1, 0x68, 0xce, 0x38, 0x80]);
        data.extend([0, 0, 0, 1, 0x65, 1, 2, 3]);
    } else {
        data.extend([0, 0, 1, 0x41, 4, 5]);
    }
    AccessUnit { pts_90k, idr, data }
}

#[test]
fn publishes_flv_with_interleaved_h264() {
    let mut flv = opening(320, 240, 25f64.to_bits(), true, 128_000);
    let mut stream = FlvStream::new();
    for i in 0..20 {
        let u = picture(i * 3600, i % 5 == 0);
        assert!(picture_fits(&u));
        stream.queue(u);
    }
    for _ in 0..35 {
        flv.extend(stream.audio(&vec![vec![0x21; 100]], 1024, 44_100, &[0x12, 0x08]));
        flv.extend(stream.video(stream.audio_ms()));
    }
    assert_eq!(flv[4], 0x05, "audio+video flags");
    let mut saw_video_seq = false;
    let mut video_tags = 0;
    let mut audio_tags = 0;
    for (kind, _, payload) in tags(&flv) {
        if kind == TAG_VIDEO {
            video_tags += 1;
            assert_eq!(payload[0] & 0x0F, 7, "AVC codec id");
            if payload[1] == 0 {
                assert!(!saw_video_seq, "only one video sequence header");
                saw_video_seq = true;
                let dcr = &payload[5..];
                assert_eq!(dcr[0], 1, "AVCDecoderConfigurationRecord");
                assert!(dcr.len() > 20, "record carries SPS/PPS");
            } else {
                assert_eq!(payload[1], 1, "NALU packet type");
                assert_eq!(payload[2], 0, "composition time (no B-frames)");
                // 4-byte length prefix per NAL, sizes add up.
                let mut p = 5;
                while p + 4 <= payload.len() {
                    let n = u32::from_be_bytes(payload[p..p + 4].try_into().unwrap()) as usize;
                    assert!(p + 4 + n <= payload.len(), "NAL length in bounds");
                    p += 4 + n;
                }
                assert_eq!(p, payload.len(), "NAL data consumes the whole tag");
            }
        } else if kind == TAG_AUDIO {
            audio_tags += 1;
        }
    }
    assert!(saw_video_seq, "video sequence header required");
    assert_eq!(video_tags, 21);
    assert_eq!(audio_tags, 36);
}

#[test]
fn pictures_wait_for_their_time() {
    let mut pending = vec![picture(0, true), picture(3600, false), picture(7200, false)];
    let out = take_ready(&mut pending, 3600);
    assert_eq!(out.iter().map(|u| u.pts_90k).collect::<Vec<_>>(), vec![0, 3600]);
    assert_eq!(pending.len(), 1);
}

#[test]
fn short_parameter_sets_are_refused() {
    let u = AccessUnit {
        pts_90k: 0,
        idr: true,
        data: vec![0, 0, 0, 1, 0x67, 1, 0, 0, 0, 1, 0x68, 2],
    };
    assert!(!picture_fits(&u));
    assert!(!picture_is_usable(&u));
}

#[test]
fn rtmp_drains_at_the_end() {
    let mut p = RtmpPump::new(true, true);
    assert_eq!(p.phase(), RtmpPhase::Open);
    p.on_event(RtmpEvent::Bytes { empty: false });
    p.on_event(RtmpEvent::Link(LinkEvent::Sent));
    assert_eq!(p.phase(), RtmpPhase::Receive);
    p.on_event(RtmpEvent::Frame { shutdown: false });
    assert_eq!(p.phase(), RtmpPhase::Encode);
    p.on_event(RtmpEvent::Bytes { empty: false });
    assert_eq!(p.stage(), LinkStage::Sending);
    p.on_event(RtmpEvent::Link(LinkEvent::Sent));
    assert_eq!(p.stage(), LinkStage::Idle);
    p.on_event(RtmpEvent::Ended);
    assert_eq!(p.phase(), RtmpPhase::Drain);
    p.on_event(RtmpEvent::Bytes { empty: true });
    assert_eq!(p.phase(), RtmpPhase::Drain);
    p.on_event(RtmpEvent::Ended);
    assert_eq!(p.phase(), RtmpPhase::Close);
    assert!(tail_goes_on(false, false, 199));
    assert!(!tail_goes_on(false, false, 200));
    assert!(!tail_goes_on(true, false, 0));
    assert!(!tail_goes_on(false, true, 0));
}

#[test]
fn rtmp_opens_the_stream_anew_after_a_reconnect() {
    let mut p = RtmpPump::new(true, true);
    p.on_event(RtmpEvent::Bytes { empty: false });
    p.on_event(RtmpEvent::Link(LinkEvent::SendFailed));
    p.on_event(RtmpEvent::Link(LinkEvent::Shutdown(false)));
    p.on_event(RtmpEvent::Link(LinkEvent::Connected));
    assert_eq!(p.phase(), RtmpPhase::Open);
    p.on_event(RtmpEvent::Frame { shutdown: false });
    assert_eq!(p.phase(), RtmpPhase::Open);
    p.on_event(RtmpEvent::Bytes { empty: false });
    p.on_event(RtmpEvent::Link(LinkEvent::Sent));
    p.on_event(RtmpEvent::Ended);
    p.on_event(RtmpEvent::Bytes { empty: false });
    p.on_event(RtmpEvent::Link(LinkEvent::SendFailed));
    p.on_event(RtmpEvent::Link(LinkEvent::Shutdown(false)));
    p.on_event(RtmpEvent::Link(LinkEvent::Connected));
    assert_eq!(p.phase(), RtmpPhase::Reopen);

    // The configuration goes out again, and the clock runs on.
    let mut s = FlvStream::new();
    let first = s.audio(&vec![vec![1]], 1024, 44_100, &[0x12, 0x10]);
    let second = s.audio(&vec![vec![1]], 1024, 44_100, &[0x12, 0x10]);
    assert!(first.len() > second.len());
    s.queue(picture(0, true));
    s.restart();
    let third = s.audio(&vec![vec![1]], 1024, 44_100, &[0x12, 0x10]);
    assert_eq!(third.len(), first.len());
    assert_eq!(s.audio_ms(), 69);
    assert!(s.video(1000).is_empty());
}

#[test]
fn recordings_begin_with_the_header() {
    let (mut m, first) = Mp4Muxer::open(false, 1024, 44_100, 50);
    assert!(matches!(first.as_slice(), [Mp4Action::Header]));
    assert!(m.has_room(2));
    let out = m.push_audio(&vec![vec![1], vec![2]]);
    match out.as_slice() {
        [Mp4Action::Audio { pts: 0, data: a }, Mp4Action::Audio { pts: 1024, data: b }] => {
            assert_eq!((a.as_slice(), b.as_slice()), (&[1u8][..], &[2u8][..]));
        }
        _ => panic!("two units"),
    }
    let end = m.finish(&vec![vec![3]]);
    assert!(matches!(
        end.as_slice(),
        [Mp4Action::Audio { pts: 2048, .. }, Mp4Action::Trailer]
    ));
}

#[test]
fn recordings_wait_for_the_first_picture() {
    let (mut m, first) = Mp4Muxer::open(true, 1024, 44_100, 50);
    assert!(first.is_empty());
    assert!(m.push_audio(&vec![vec![1]]).is_empty());
    // The encoder begins with a keyframe by itself.
    let forced: Vec<bool> = (0..101).map(|_| m.next_picture_is_key()).collect();
    assert_eq!(forced.iter().filter(|f| **f).count(), 2);
    assert!(forced[50] && forced[100]);
    let u = picture(0, true);
    assert!(picture_is_usable(&u));
    m.queue(u);
    let out = m.push_audio(&vec![vec![2]]);
    assert!(matches!(out[0], Mp4Action::Extradata(_)));
    assert!(matches!(out[1], Mp4Action::Header));
    let pts: Vec<i64> = out
        .iter()
        .filter_map(|a| match a {
            Mp4Action::Audio { pts, .. } => Some(*pts),
            _ => None,
        })
        .collect();
    assert_eq!(pts, vec![0, 1024]);
    assert!(out.iter().any(|a| matches!(a, Mp4Action::Video { pts_90k: 0, key: true, .. })));
    assert_eq!(m.audio_frames(), 2);
}

fn split_pages(bytes: &[u8]) -> Vec<Vec<u8>> {
    let mut pages = Vec::new();
    let mut i = 0;
    while i < bytes.len() {
        assert_eq!(&bytes[i..i + 4], b"OggS");
        let nsegs = bytes[i + 26] as usize;
        let segs = &bytes[i + 27..i + 27 + nsegs];
        let body_len: usize = segs.iter().map(|&s| s as usize).sum();
        let page = &bytes[i..i + 27 + nsegs + body_len];
        pages.push(page.to_vec());
        i += page.len();
    }
    assert_eq!(i, bytes.len());
    pages
}

/// Frames a tenth of a second of silence with packets of this many bytes.
fn opus_bytes(f: &mut OpusFramer, packet: usize) -> Vec<u8> {
    f.push(&vec![0i16; 4800 * 2]);
    while let Some(frame) = f.take_frame() {
        assert_eq!(frame.len(), OPUS_FRAME_SAMPLES * 2);
        assert!(f.has_room());
        f.on_packet(&vec![0xfc; packet]);
    }
    f.take_output()
}

#[test]
fn opus_encoder_produces_ogg_stream() {
    let mut f = OpusFramer::new(2, "test");
    let bytes = opus_bytes(&mut f, 100);
    assert!(!bytes.is_empty());
    // Stream starts with "OggS" (OpusHead) and contains "OpusTags".
    assert_eq!(&bytes[0..4], b"OggS");
    let s = String::from_utf8_lossy(&bytes);
    assert!(s.contains("OpusHead"));
    assert!(s.contains("OpusTags"));
    assert_eq!(split_pages(&bytes).len(), 2 + 5);
}

#[test]
fn opus_streams_end_in_a_marked_page() {
    let mut f = OpusFramer::new(2, "t");
    f.push(&vec![5i16; 2000]);
    assert_eq!(f.take_frame().unwrap().len(), 1920);
    f.on_packet(&[1, 2, 3]);
    assert!(f.take_frame().is_none());
    let last = f.take_last_frame();
    assert_eq!(last.len(), 1920);
    assert_eq!((last[79], last[80]), (5, 0));
    f.on_last_packet(&[4, 5]);
    let bytes = f.take_output();
    let pages = split_pages(&bytes);
    assert_eq!(pages.len(), 4);
    assert!(pages[..3].iter().all(|p| p[5] & 0x04 == 0));
    let end = &pages[3];
    assert_eq!(end[5] & 0x04, 4);
    assert_eq!(&end[6..14], &1920u64.to_le_bytes());
    assert_eq!(&end[end.len() - 2..], &[4, 5]);
    // Without samples the last frame is silence.
    assert_eq!(f.take_last_frame(), vec![0i16; 1920]);
}

#[test]
fn opus_set_title_replaces_initial_tags_only() {
    // Before the headers are flushed, set_title changes the initial title.
    let mut f = OpusFramer::new(2, "initial");
    assert!(title_fits("the real first track"));
    f.set_title("the real first track");
    let all = [opus_bytes(&mut f, 3), opus_bytes(&mut f, 3)].concat();
    assert!(String::from_utf8_lossy(&all).contains("title=the real first track"));
    // Exactly one OpusTags packet: the header. set_title never injects
    // mid-stream pages.
    assert_eq!(String::from_utf8_lossy(&all).matches("OpusTags").count(), 1);
    // Page sequence numbers are contiguous.
    let pages = split_pages(&all);
    for (i, p) in pages.iter().enumerate() {
        let seq = u32::from_le_bytes(p[18..22].try_into().unwrap());
        assert_eq!(seq, i as u32, "seq at page {i}");
    }
    // After the first encode, set_title is a no-op.
    f.set_title("later");
    let all = opus_bytes(&mut f, 3);
    assert!(!String::from_utf8_lossy(&all).contains("title=later"));
}

#[test]
fn encoders_are_fed_until_they_stop() {
    let mut feed = AacFeed::new(10);
    assert_eq!(feed.next(), Some(0));
    feed.on_call(4, true);
    assert_eq!(feed.next(), Some(4));
    feed.on_call(6, true);
    assert_eq!(feed.next(), None);
    let mut feed = AacFeed::new(10);
    feed.on_call(0, true);
    assert_eq!(feed.next(), None);
    let mut feed = AacFeed::new(10);
    feed.on_call(4, false);
    assert_eq!(feed.next(), None);
    assert_eq!(AacFeed::new(0).next(), None);
    assert!(drain_goes_on(false, 1));
    assert!(!drain_goes_on(true, 1));
    assert_eq!(aac_channel_mode(1), 1);
    assert_eq!(aac_channel_mode(2), 2);
    assert_eq!(mp3_kbps(192_000), 192);
    assert_eq!(mp3_buffer_size(1152, 2), 7200 + 1152 + 1152 * 2 / 4);
}

/// Samples of the bus as samples of a device.
fn convert_to_device(samples: &[f32], bus: usize, device: usize, out: &mut Vec<f32>) {
    out.clear();
    match device_layout(bus, device).expect("supported") {
        DeviceLayout::Same => out.extend_from_slice(samples),
        DeviceLayout::Duplicate => push_twice(samples, out),
        DeviceLayout::Average => {
            out.extend(samples.chunks_exact(2).map(|f| (f[0] + f[1]) * 0.5))
        }
    }
}

#[test]
fn convert_to_device_covers_the_supported_combinations() {
    let mut out = Vec::new();
    convert_to_device(&[0.25, -0.5], 2, 2, &mut out);
    assert_eq!(out, vec![0.25, -0.5]);

    convert_to_device(&[0.25, -0.5], 1, 2, &mut out);
    assert_eq!(out, vec![0.25, 0.25, -0.5, -0.5]);

    convert_to_device(&[0.25, -0.5, 1.0, 0.0], 2, 1, &mut out);
    assert_eq!(out, vec![-0.125, 0.5]);
    assert!(device_layout(2, 6).is_err());
}

/// An echo of one channel over delay lines.
fn echo(taps: &[(usize, f32)], feedback: f32, samples: &mut [f32]) {
    let len = taps.iter().map(|t| t.0).max().unwrap();
    let mut line = DelayLine::new(len, 0.0f32);
    for s in samples {
        let wet: f32 = taps.iter().map(|&(d, ping)| line.read(d) * ping).sum();
        let dry = *s;
        line.write(dry + wet * feedback);
        *s = dry + wet;
    }
}

#[test]
fn echo_stereo_delay_counts_frames_not_samples() {
    // 0.2 s at a 10 Hz clock = 2 frames = 4 interleaved samples; the mono
    // impulse at frame 0 (L=1, R=0) echoes into frame 2's L slot.
    let frames = |secs: f64| (secs * 10.0).round() as usize;
    let len = line_slots(frames(1.0), 2);
    assert_eq!(len, 20);
    let delay = tap_slots(frames(0.2), 2, len);
    assert_eq!(delay, 4);
    let mut buf = vec![0.0f32; 16];
    buf[0] = 1.0;
    echo(&[(delay, 0.5)], 0.0, &mut buf);
    assert_eq!(buf[4], 0.5, "delayed L copy");
    assert_eq!(buf[5], 0.0, "delayed R stays silent");
    // A delay beyond the line is clamped to it; none is shorter than a frame.
    assert_eq!(tap_slots(100, 2, len), 20);
    assert_eq!(tap_slots(0, 2, len), 2);
    assert_eq!(tap_slots(3, 0, len), 3);
}

#[test]
fn echo_rings_down_an_impulse() {
    let mut buf = vec![1.0f32, 0.0, 0.0, 0.0, 0.0, 0.0, 0.0, 0.0];
    echo(&[(2, 0.5)], 1.0, &mut buf);
    assert_eq!(buf, vec![1.0, 0.0, 0.5, 0.0, 0.25, 0.0, 0.125, 0.0]);
}

#[test]
fn echo_feedback_zero_emits_a_single_copy() {
    let mut buf = vec![1.0f32, 0.0, 0.0, 0.0, 0.0, 0.0, 0.0, 0.0];
    echo(&[(2, 0.5)], 0.0, &mut buf);
    assert_eq!(buf, vec![1.0, 0.0, 0.5, 0.0, 0.0, 0.0, 0.0, 0.0]);
}

#[test]
fn echo_multi_tap_emits_each_tap() {
    let mut buf = vec![1.0f32, 0.0, 0.0, 0.0, 0.0, 0.0, 0.0, 0.0];
    echo(&[(1, 0.5), (2, 0.25)], 0.0, &mut buf);
    assert_eq!(buf[0], 1.0);
    assert_eq!(buf[1], 0.5);
    assert_eq!(buf[2], 0.25);
    assert_eq!(buf[3], 0.0);
}

#[test]
fn queues_keep_order() {
    let mut q = SampleQueue::new();
    q.push(&[1, 2, 3, 4, 5]);
    assert_eq!(q.take_block(6), None);
    assert_eq!(q.take_block(2), Some(vec![1, 2]));
    assert_eq!(q.take_frames(10, 2), vec![3, 4]);
    assert_eq!(q.len(), 1);
    assert_eq!(q.take(1), vec![5]);
}

#[test]
fn impulse_responses_have_two_channels_at_most() {
    assert_eq!(ir_channels(&[1, 2, 3, 4, 5, 6], 3), vec![vec![1, 4], vec![2, 5]]);
    assert_eq!(ir_channels(&[1, 2, 3], 1), vec![vec![1, 2, 3]]);
    assert!(ir_is_empty(&ir_channels::<u8>(&[], 2)));
    assert!(!ir_is_empty(&vec![vec![], vec![1]]));
    assert!(packet_counts(1, 1, Some(3)));
    assert!(!packet_counts(1, 2, Some(3)));
    assert!(!packet_counts(1, 1, Some(0)));
    assert!(!packet_counts(1, 1, None));
}

#[test]
fn responses_are_partitioned() {
    assert_eq!(partitions(&[1, 2, 3, 4, 5], 2, 0), vec![vec![1, 2], vec![3, 4], vec![5, 0]]);
    assert_eq!(partitions(&[1, 2], 2, 0), vec![vec![1, 2]]);
    assert_eq!(partitions::<u8>(&[], 2, 9), vec![vec![9, 9]]);
    assert_eq!(response_index(0, 0), None);
    assert_eq!(response_index(1, 1), Some(0));
    assert_eq!(response_index(2, 1), Some(1));
}

#[test]
fn partitions_divide_the_buffer() {
    assert_eq!(pick_partition(4096), 4096);
    assert_eq!(pick_partition(3 * 1024), 1024);
    assert_eq!(pick_partition(1000), 2048);
    assert_eq!(pick_partition(1 << 20), 32_768);
}

#[test]
fn stretching_ends_after_both_flushes() {
    let mut s = StretchState::new();
    assert_eq!(s.on_pull(100, false, true), StretchStep::Feed);
    assert_eq!(s.on_pull(0, true, true), StretchStep::FlushStretcher);
    assert_eq!(s.on_pull(0, true, true), StretchStep::FlushResampler);
    assert_eq!(s.on_pull(0, true, true), StretchStep::End);
    let mut s = StretchState::new();
    assert_eq!(s.on_pull(0, true, false), StretchStep::FlushStretcher);
    assert_eq!(s.on_pull(0, true, false), StretchStep::End);
}

#[test]
fn wav_files_have_a_header() {
    let w = wav16_mono(&[1, -2], 16_000);
    assert_eq!(&w[0..4], b"RIFF");
    assert_eq!(u32::from_le_bytes(w[4..8].try_into().unwrap()), 36 + 4);
    assert_eq!(&w[8..16], b"WAVEfmt ");
    assert_eq!(u32::from_le_bytes(w[24..28].try_into().unwrap()), 16_000);
    assert_eq!(u32::from_le_bytes(w[28..32].try_into().unwrap()), 32_000);
    assert_eq!(&w[36..40], b"data");
    assert_eq!(&w[44..], &[1, 0, 0xfe, 0xff]);
}

#[test]
fn reports_name_every_output() {
    let s = Summary {
        stream: StreamConfig::default(),
        crossfade: "3".into(),
        curve: "1".into(),
        duck: "1.5".into(),
        jingles: 2,
        harbor: Some(LiveConfig::default()),
        control: Some(ControlConfig::default()),
        custom_commands: vec!["ping".into()],
        outputs: vec![OutputConfig::default()],
        file_outputs: vec![FileOutputConfig {
            path: "out.mp3".into(),
            format: OutputFormat::Mp3,
            bitrate: 128_000,
        }],
        hls_outputs: vec![(HlsOutputConfig::default(), "6".into())],
        soundcard_outputs: vec![SoundcardOutputConfig::default()],
    };
    let text = print_result(&s, false);
    assert!(text.contains("out.mp3"), "{text}");
    assert!(text.contains("ping"), "{text}");
    assert_ne!(print_result(&s, true), text);
}

#[test]
fn the_first_failure_is_reported() {
    let e = first_error(&vec![
        Ending::Clean,
        Ending::Failed("a".into()),
        Ending::Panicked,
    ]);
    assert_eq!(e.as_deref(), Some("a"));
    assert!(first_error(&vec![Ending::Clean]).is_none());
    assert!(first_error(&vec![Ending::Panicked]).is_none());
    let mut n = NowPlaying::new();
    assert!(n.on_frame(Some("a")));
    assert!(!n.on_frame(Some("a")));
    assert!(n.on_frame(Some("b")));
}
