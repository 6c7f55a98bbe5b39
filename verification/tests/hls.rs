use crabsoup::config::{HlsOutputConfig, HlsRendition};
use crabsoup::hls::{
    is_orphan, is_stale, load_entries, load_state, master_playlist, name_matches_template,
    picture_ticks, playlist, render_segment_name, resume, saved_is_sound, state_text,
    video_master_playlist, ClosedSegment, HlsOutput, HlsStream, Length, SavedRendition,
    StreamWork,
};
use std::collections::BTreeMap;

const EPOCH: u64 = 1_700_000_000;

/// An ADTS frame of this length.
fn frame(len: usize) -> Vec<u8> {
    let mut adts = vec![0u8; len];
    adts[0] = 0xff;
    adts[1] = 0xf1;
    adts[2] = 0x50;
    adts[3] = ((len >> 11) & 0x03) as u8;
    adts[4] = (len >> 3) as u8;
    adts[5] = ((len << 5) as u8 & 0xe0) | 0x1f;
    adts[6] = 0xfc;
    adts
}

fn config(segment_ticks: u64, retention: usize) -> HlsOutputConfig {
    HlsOutputConfig {
        directory: "hls".into(),
        segment_ticks,
        retention,
        video: false,
        renditions: Vec::new(),
        segment_name: "seg-{n}.ts".into(),
        persist_at: None,
    }
}

/// Files by their paths.
type Files = BTreeMap<String, Vec<u8>>;

fn path(subdir: &str, name: &str) -> String {
    if subdir.is_empty() {
        name.to_string()
    } else {
        format!("{subdir}/{name}")
    }
}

fn perform(out: &HlsOutput, work: &[StreamWork], files: &mut Files) {
    for (stream, w) in out.streams().iter().zip(work) {
        for s in &w.segments {
            let name = path(stream.subdir(), &s.name);
            assert!(!files.contains_key(&name), "{name} is written twice");
            files.insert(name, s.bytes.clone());
            files.insert(path(stream.subdir(), "playlist.m3u8"), s.playlist.clone().into_bytes());
            for gone in &s.removed {
                files.remove(&path(stream.subdir(), gone));
            }
        }
        if let Some(p) = &w.last_playlist {
            files.insert(path(stream.subdir(), "playlist.m3u8"), p.clone().into_bytes());
        }
    }
}

/// Streams some seconds at 44.1 kHz into the output and ends it.
fn stream(out: &mut HlsOutput, seconds: f64, files: &mut Files) {
    let n = out.streams().len();
    let total = (seconds * 44_100.0 / 1024.0) as usize;
    for _ in 0..total {
        let (work, _) = out.feed(&vec![frame(200); n], &vec![false; n]);
        perform(out, &work, files);
    }
    let work = out.finish(&vec![Vec::new(); n]);
    perform(out, &work, files);
}

fn text(files: &Files, name: &str) -> String {
    String::from_utf8(files[name].clone()).unwrap()
}

fn segments<'a>(files: &'a Files, prefix: &str) -> Vec<(&'a String, &'a Vec<u8>)> {
    files.iter().filter(|(k, _)| k.starts_with(prefix) && k.ends_with(".ts")).collect()
}

fn media_sequence(p: &str) -> u64 {
    p.lines()
        .find_map(|l| l.strip_prefix("#EXT-X-MEDIA-SEQUENCE:"))
        .unwrap()
        .parse()
        .unwrap()
}

fn playlist_seqs(p: &str) -> Vec<u64> {
    p.lines()
        .filter_map(|l| l.strip_prefix("seg-")?.strip_suffix(".ts")?.parse().ok())
        .collect()
}

#[test]
fn writes_windowed_segments_and_playlist() {
    let mut out = HlsOutput::new(config(90_000, 4), &None, 44_100, EPOCH);
    let mut files = Files::new();
    stream(&mut out, 3.5, &mut files);

    let p = text(&files, "playlist.m3u8");
    assert!(p.starts_with("#EXTM3U\n"));
    assert!(p.contains("#EXT-X-VERSION:3"));
    assert!(p.contains("#EXT-X-TARGETDURATION:"));
    assert!(p.contains("#EXT-X-MEDIA-SEQUENCE:0"));
    assert!(p.contains("#EXTINF:"));
    assert!(p.trim_end().ends_with("#EXT-X-ENDLIST"));

    let segs = segments(&files, "");
    assert!(segs.len() >= 3, "expected several segments, got {}", segs.len());
    for (_, data) in segs {
        assert_eq!(data.len() % 188, 0, "segment not TS-packet aligned");
        assert_eq!(data[0], 0x47, "segment missing TS sync");
    }
}

#[test]
fn retention_trims_old_segments() {
    let mut out = HlsOutput::new(config(45_000, 2), &None, 44_100, EPOCH);
    let mut files = Files::new();
    stream(&mut out, 4.0, &mut files);
    let p = text(&files, "playlist.m3u8");
    let media_seq = media_sequence(&p);
    assert!(media_seq > 0, "window must have slid: {media_seq}");
    let n = segments(&files, "").len();
    assert!(n <= 4, "retention=2 should cap window, got {n}");
    assert_eq!(out.streams()[0].window().len(), 2);
}

#[test]
fn writes_multi_rendition_playlists_and_master() {
    let mut cfg = config(90_000, 4);
    for (name, bitrate) in [("64k", 64_000), ("128k", 128_000)] {
        cfg.renditions.push(HlsRendition {
            name: name.into(),
            bitrate,
            video_bitrate: 0,
            width: None,
            height: None,
        });
    }
    // Variant master playlist: one STREAM-INF per rendition, pointing at
    // each subdirectory's media playlist. BANDWIDTH = bitrate + 10 %.
    let master = master_playlist(&cfg, None);
    assert!(
        master.contains("#EXT-X-STREAM-INF:BANDWIDTH=70400,CODECS=\"mp4a.40.2\",NAME=\"64k\"")
    );
    assert!(
        master.contains("#EXT-X-STREAM-INF:BANDWIDTH=140800,CODECS=\"mp4a.40.2\",NAME=\"128k\"")
    );
    assert!(master.contains("64k/playlist.m3u8"));
    assert!(master.contains("128k/playlist.m3u8"));
    assert!(master.trim_end().ends_with("128k/playlist.m3u8"));

    let mut out = HlsOutput::new(cfg, &None, 44_100, EPOCH);
    assert_eq!(out.streams()[1].bitrate(), 128_000);
    let mut files = Files::new();
    stream(&mut out, 3.5, &mut files);
    // Every rendition has its own segments and a finalized playlist.
    for name in ["64k", "128k"] {
        let p = text(&files, &format!("{name}/playlist.m3u8"));
        assert!(p.contains("#EXT-X-MEDIA-SEQUENCE:0"));
        assert!(p.trim_end().ends_with("#EXT-X-ENDLIST"), "{name} playlist must finalize");
        let segs = segments(&files, &format!("{name}/"));
        assert!(segs.len() >= 3, "{name}: expected segments, got {}", segs.len());
        for (_, data) in segs {
            assert_eq!(data.len() % 188, 0, "{name}: not TS-aligned");
            assert_eq!(data[0], 0x47, "{name}: missing TS sync");
        }
    }
}

#[test]
fn custom_segment_name_is_used() {
    let mut cfg = config(90_000, 4);
    cfg.segment_name = "chunk-{t}.ts".into();
    let mut out = HlsOutput::new(cfg, &None, 44_100, EPOCH);
    let mut files = Files::new();
    stream(&mut out, 2.5, &mut files);
    let p = text(&files, "playlist.m3u8");
    let segs = segments(&files, "");
    assert!(!segs.is_empty(), "expected timestamped segments");
    for (name, _) in segs {
        let stem = name
            .strip_prefix("chunk-")
            .and_then(|s| s.strip_suffix(".ts"))
            .unwrap_or_default();
        assert!(
            !stem.is_empty() && stem.chars().all(|c| c.is_ascii_digit()),
            "expected chunk-<unix>.ts, got {name}"
        );
        assert!(p.contains(name.as_str()), "playlist missing {name}");
    }
    assert!(files.contains_key(&format!("chunk-{EPOCH}.ts")));
}

/// What a state file gives back of what was saved.
fn read_back(saved: &Vec<SavedRendition>) -> Option<Vec<SavedRendition>> {
    load_state(&state_text(saved)).unwrap()
}

#[test]
fn persist_state_resumes_segment_numbering() {
    let mut cfg = config(45_000, 4);
    cfg.persist_at = Some("state.json".into());
    let mut files = Files::new();
    // Run 1 (a "live" run, then a kill): segments 0..N.
    let mut out = HlsOutput::new(cfg.clone(), &None, 44_100, EPOCH);
    stream(&mut out, 1.5, &mut files);
    let saved = read_back(&out.saved());
    assert!(saved_is_sound(&saved));
    // Regression: rotations must never renumber — a duplicate name would
    // have overwritten an existing segment file.
    let run1 = playlist_seqs(&text(&files, "playlist.m3u8"));
    let mut unique = run1.clone();
    unique.sort_unstable();
    unique.dedup();
    assert_eq!(unique.len(), run1.len(), "playlist must not repeat segments: {run1:?}");
    let last1 = *run1.last().expect("run 1 segments");
    assert!(last1 > 0, "run 1 must have closed several segments");

    // Run 2 (the restart): the directory is NOT cleared, the retained
    // window is preserved, and numbering continues at last1 + 1.
    let mut out = HlsOutput::new(cfg.clone(), &saved, 44_100, EPOCH);
    let kept = format!("seg-{last1:06}.ts");
    assert!(!is_stale(&kept, &cfg) || !is_orphan(&kept, &cfg, &out.streams()[0]));
    stream(&mut out, 0.8, &mut files);
    let p = text(&files, "playlist.m3u8");
    let run2 = playlist_seqs(&p);
    assert!(
        run2.contains(&last1),
        "run 1's last segment must survive the restart: {run1:?} -> {run2:?}"
    );
    assert!(
        run2.contains(&(last1 + 1)),
        "numbering must continue at last+1: {run1:?} -> {run2:?}"
    );
    assert!(files.contains_key(&kept), "run 1 segment file must survive");
    assert_eq!(media_sequence(&p), run2[0], "media sequence = window start");
}

#[test]
fn master_lists_resolutions() {
    let mut cfg = config(45_000, 4);
    cfg.video = true;
    cfg.renditions = vec![
        HlsRendition {
            name: "360p".into(),
            bitrate: 64_000,
            video_bitrate: 500_000,
            width: Some(320),
            height: Some(180),
        },
        HlsRendition {
            name: "src".into(),
            bitrate: 128_000,
            video_bitrate: 1_000_000,
            width: None,
            height: None,
        },
    ];
    let master = master_playlist(&cfg, Some((320, 240)));
    assert!(master.contains(
        "#EXT-X-STREAM-INF:BANDWIDTH=620400,RESOLUTION=320x180,\
         CODECS=\"avc1.42401f,mp4a.40.2\",NAME=\"360p\""
    ));
    assert!(master.contains(
        "#EXT-X-STREAM-INF:BANDWIDTH=1240800,RESOLUTION=320x240,\
         CODECS=\"avc1.42401f,mp4a.40.2\",NAME=\"src\""
    ));
    assert!(master.contains("360p/playlist.m3u8"));
    assert!(master.contains("src/playlist.m3u8"));
    let single = video_master_playlist(320, 240);
    assert!(single.contains("#EXT-X-STREAM-INF:BANDWIDTH=1628000,RESOLUTION=320x240"));
    assert!(single.trim_end().ends_with("playlist.m3u8"));
}

#[test]
fn lengths_are_doubles() {
    for ticks in [0u64, 1, 45, 2089, 44_999, 45_000, 89_827, 90_000, 90_001, 123_456_789, 1 << 52] {
        let l = Length::of_ticks(ticks);
        let d = ticks as f64 / 90_000.0;
        assert_eq!(l.bits, d.to_bits(), "{ticks}");
        assert_eq!(l.ceil, d.ceil() as u64, "{ticks}");
        assert_eq!(l.text, format!("{d:.3}"), "{ticks}");
    }
    let five = Length::of_ticks(450_000);
    assert_eq!((five.ceil, five.text.as_str()), (5, "5.000"));
    // Half a thousandth, and its neighbours.
    for ticks in 1..2000u64 {
        let d = ticks as f64 / 90_000.0;
        assert_eq!(Length::of_ticks(ticks).text, format!("{d:.3}"), "{ticks}");
    }
}

#[test]
fn lengths_are_read_from_bit_patterns() {
    let numbers = [
        0.0,
        -0.0,
        5.0,
        0.0005,
        0.0004999,
        0.0625,
        0.1875,
        2.5,
        9.9995,
        0.9996,
        1e-9,
        5e-324,
        2.2e-308,
        -0.0001,
        -2.25,
        -7e20,
        4503599627370497.5,
        9007199254740993.0,
        9.223372036854775e18,
        1.8446744073709550e19,
        1.8446744073709552e19,
        1e23,
        1e300,
        f64::MAX,
        f64::INFINITY,
        f64::NEG_INFINITY,
        f64::NAN,
        -f64::NAN,
    ];
    for d in numbers {
        let l = Length::of_bits(d.to_bits());
        assert_eq!(l.bits, d.to_bits(), "{d}");
        assert_eq!(l.ceil, d.ceil() as u64, "{d}");
        assert_eq!(l.text, format!("{d:.3}"), "{d}");
    }
    assert_eq!(Length::of_bits(5.0f64.to_bits()).ceil, 5);
    assert_eq!(Length::of_bits(0.0625f64.to_bits()).text, "0.062");
    assert_eq!(Length::of_bits(0.1875f64.to_bits()).text, "0.188");
    // All exponents, with a few fractions each.
    for exponent in 0..2048u64 {
        for fraction in [0u64, 1, 0x8_0000_0000_0000, 0xf_ffff_ffff_ffff] {
            let bits = (exponent << 52) | fraction;
            let d = f64::from_bits(bits);
            let l = Length::of_bits(bits);
            assert_eq!(l.ceil, d.ceil() as u64, "{bits:x}");
            assert_eq!(l.text, format!("{d:.3}"), "{bits:x}");
        }
    }
}

#[test]
fn a_length_is_the_same_from_ticks_and_from_bits() {
    for ticks in [0u64, 1, 45, 44_999, 90_000, 90_001, 123_456_789, (1 << 53) - 1] {
        let a = Length::of_ticks(ticks);
        let b = Length::of_bits(a.bits);
        assert_eq!((a.bits, a.ceil, a.text), (b.bits, b.ceil, b.text), "{ticks}");
    }
}

#[test]
fn names_of_a_template() {
    assert_eq!(render_segment_name("seg-{n}.ts", 7, EPOCH), "seg-000007.ts");
    assert_eq!(render_segment_name("a-{t}-{n}.ts", 1_234_567, 5), "a-5-1234567.ts");
    assert!(name_matches_template("seg-000007.ts", "seg-{n}.ts"));
    assert!(!name_matches_template("seg-.ts", "seg-{n}.ts"));
    assert!(!name_matches_template("other.ts", "seg-{n}.ts"));
    assert!(!name_matches_template("seg-1.ts.tmp", "seg-{n}.ts"));
}

#[test]
fn stale_files_are_recognised() {
    let cfg = config(90_000, 4);
    assert!(is_stale("seg-000001.ts", &cfg));
    assert!(!is_stale("cover.jpg", &cfg));
    let s = HlsStream::new("", 128_000, 44_100, EPOCH, 0, Vec::new());
    assert!(is_orphan("seg-000001.ts", &cfg, &s));
    assert!(!is_orphan("cover.jpg", &cfg, &s));
}

#[test]
fn damaged_state_is_read_as_far_as_it_goes() {
    let text = r#"{"renditions":{
        "a":{"next_seq":9,"closed":[[7,1.5,"x.ts"],[null,1.5,"y.ts"],"z",[1,2],[8,2,"w.ts"]]},
        "b":{"next_seq":-1},
        "c":7}}"#;
    let saved = load_state(text).unwrap().unwrap();
    let names: Vec<&str> = saved.iter().map(|r| r.subdir.as_str()).collect();
    assert_eq!(names, vec!["a", "b", "c"]);
    assert_eq!(saved[0].next_seq, 9);
    let window: Vec<(u64, &str)> =
        saved[0].window.iter().map(|c| (c.seq, c.name.as_str())).collect();
    assert_eq!(window, vec![(7, "x.ts"), (8, "w.ts")]);
    assert_eq!(saved[0].window[0].length.bits, 1.5f64.to_bits());
    assert_eq!(saved[0].window[0].length.ceil, 2);
    assert_eq!(saved[0].window[0].length.text, "1.500");
    assert_eq!(saved[0].window[1].length.text, "2.000");
    assert_eq!((saved[1].next_seq, saved[1].window.len()), (0, 0));
    assert_eq!((saved[2].next_seq, saved[2].window.len()), (0, 0));
    let (next, window) = resume(&saved, "d");
    assert_eq!((next, window.len()), (0, 0));
    let bad = load_state(r#"{"renditions":{"a":{"next_seq":18446744073709551615}}}"#).unwrap();
    assert!(!saved_is_sound(&bad));
}

#[test]
fn a_state_file_without_renditions_means_a_fresh_start() {
    assert!(load_state("{}").unwrap().is_none());
    assert!(load_state(r#"{"renditions":[]}"#).unwrap().is_none());
    assert!(load_state("[1]").unwrap().is_none());
    assert!(load_state("not json").is_err());
    assert!(load_entries(&Vec::new()).is_empty());
}

#[test]
fn saved_renditions_read_back() {
    let r = SavedRendition {
        subdir: "hi".into(),
        next_seq: 4,
        window: vec![ClosedSegment {
            seq: 3,
            length: Length::of_ticks(225_000),
            name: "seg-000003.ts".into(),
        }],
    };
    let saved = vec![r];
    assert_eq!(
        state_text(&saved),
        r#"{
  "renditions": {
    "hi": {
      "closed": [
        [
          3,
          2.5,
          "seg-000003.ts"
        ]
      ],
      "next_seq": 4
    }
  },
  "version": 1
}"#
    );
    let back = read_back(&saved).unwrap();
    assert_eq!(back.len(), 1);
    assert_eq!((back[0].subdir.as_str(), back[0].next_seq), ("hi", 4));
    assert_eq!(back[0].window[0].seq, 3);
    assert_eq!(back[0].window[0].length.bits, 2.5f64.to_bits());
    assert_eq!(back[0].window[0].length.text, "2.500");
    assert_eq!(back[0].window[0].name, "seg-000003.ts");
    let (next, window) = resume(&back, "hi");
    assert_eq!((next, window.len()), (4, 1));
}

#[test]
fn pictures_cut_at_keyframes() {
    let mut cfg = config(45_000, 4);
    cfg.video = true;
    let mut s = HlsStream::new("", 128_000, 44_100, EPOCH, 0, Vec::new());
    let mut closed = 0;
    // The segment waits for a keyframe once it is long enough.
    while !s.wants_picture() {
        closed += s.feed(&cfg, &frame(100), true).len();
    }
    assert_eq!(closed, 0);
    assert!(s.on_picture(&cfg, 46_000, false, 3600).is_none());
    assert_eq!(s.next_seq(), 1);
    let files = s.on_picture(&cfg, 46_000, true, 3600).expect("cut at the keyframe");
    assert_eq!(files.name, "seg-000000.ts");
    assert_eq!(picture_ticks(1_000_000), 90_000);
}

#[test]
fn an_output_cuts_at_pictures() {
    let mut cfg = config(45_000, 4);
    cfg.video = true;
    cfg.renditions = ["a", "b"]
        .iter()
        .map(|name| HlsRendition {
            name: name.to_string(),
            bitrate: 64_000,
            video_bitrate: 500_000,
            width: None,
            height: None,
        })
        .collect();
    let mut out = HlsOutput::new(cfg, &None, 44_100, EPOCH);
    let both = vec![frame(100); 2];
    let mut saves = 0;
    // The first stream waits for a picture, the second one cuts by itself.
    while !out.streams()[0].wants_picture() {
        let (work, save) = out.feed(&both, &vec![true, false]);
        assert!(work[0].segments.is_empty());
        assert_eq!(save, !work[1].segments.is_empty());
        saves += save as u32;
    }
    assert_eq!(saves, 1);
    assert!(!out.streams()[0].picture_fits(90_000, true, 3600), "ahead of the audio");
    assert!(out.streams()[0].picture_fits(45_000, true, 3600));
    assert!(out.on_picture(0, 45_000, false, 3600).is_none());
    let cut = out.on_picture(0, 45_000, true, 3600).expect("cut at the keyframe");
    assert_eq!(cut.name, "seg-000000.ts");
    assert_eq!(out.streams()[0].next_seq(), 2);
    assert_eq!(out.streams()[1].next_seq(), 2);
    // The cut is saved with the next frame, and only once.
    assert!(out.feed(&both, &vec![true, false]).1);
    assert!(!out.feed(&both, &vec![true, false]).1);
    // Without a picture the segment ends once it is twice as long.
    let mut waited = 0;
    while out.feed(&both, &vec![true, false]).0[0].segments.is_empty() {
        waited += 1;
    }
    assert!((40..=44).contains(&waited), "{waited}");
}

#[test]
fn an_empty_window_has_a_playlist() {
    assert_eq!(
        playlist(&Vec::new(), true),
        "#EXTM3U\n#EXT-X-VERSION:3\n#EXT-X-TARGETDURATION:1\n#EXT-X-MEDIA-SEQUENCE:0\n#EXT-X-ENDLIST\n"
    );
}
