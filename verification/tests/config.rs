use crabsoup::config::{
    is_audio, is_image, is_video, HlsOutputConfig, JingleConfig, LiveConfig, ControlConfig,
    MixerConfig, OutputConfig, OutputFormat, OutputProtocol, StreamConfig,
};

#[test]
fn signal_spec_is_stereo() {
    let spec = StreamConfig::default().signal_spec();
    assert_eq!(spec.rate, 44100);
    assert_eq!(spec.channels.count(), 2);
}

#[test]
fn unsupported_channel_counts_mean_stereo() {
    for (channels, count) in [(0u16, 2usize), (1, 1), (2, 2), (6, 2)] {
        let cfg = StreamConfig {
            channels,
            ..StreamConfig::default()
        };
        assert_eq!(cfg.signal_spec().channels.count(), count);
    }
}

#[test]
fn default_config_matches_reference_values() {
    let stream = StreamConfig::default();
    let mixer = MixerConfig::default();
    let out = OutputConfig::default();
    assert_eq!(stream.sample_rate, 44100);
    assert_eq!(stream.channels, 2);
    assert_eq!(stream.frames_per_buffer, 4096);
    assert_eq!(f64::from_bits(mixer.crossfade_seconds), 3.0);
    assert_eq!(f64::from_bits(mixer.duck_seconds), 1.5);
    assert_eq!(out.format, OutputFormat::Mp3);
    assert_eq!(out.port, 8000);
    assert_eq!(out.source_password, "hackme");
}

#[test]
fn other_defaults() {
    assert_eq!(f64::from_bits(MixerConfig::default().fade_curve), 1.0);
    let hls = HlsOutputConfig::default();
    assert_eq!(hls.segment_ticks, 450_000);
    assert_eq!(hls.retention, 12);
    assert_eq!(hls.segment_name, "seg-{n}.ts");
    let live = LiveConfig::default();
    assert_eq!((live.host.as_str(), live.port), ("0.0.0.0", 8005));
    assert_eq!((live.mount.as_str(), live.password.as_str()), ("/live", "dj"));
    let ctl = ControlConfig::default();
    assert_eq!((ctl.host.as_str(), ctl.port), ("127.0.0.1", 1234));
    assert!(ctl.banner && ctl.http_port.is_none());
    assert_eq!(OutputProtocol::ShoutcastV2.name(), "SHOUTcast v2");
}

#[test]
fn jingle_files_resolves_directory_and_files() {
    let cfg = JingleConfig {
        directory: Some("./jingles".into()),
        files: vec!["./custom.wav".into()],
    };
    let files = cfg.files(&[]);
    assert_eq!(files, files);
    assert!(files.iter().any(|f| f.ends_with("custom.wav")));
}

#[test]
fn jingle_files_are_sorted_and_unique() {
    let cfg = JingleConfig {
        directory: Some("j".into()),
        files: vec!["j/b.mp3".into(), "a.mp3".into()],
    };
    let found = vec!["j/c.mp3".to_string(), "j/b.mp3".to_string()];
    assert_eq!(cfg.files(&found), vec!["a.mp3", "j/b.mp3", "j/c.mp3"]);
}

#[test]
fn extensions_decide_the_kind_of_a_file() {
    assert!(is_audio("x/Song.MP3") && is_audio("clip.webm") && !is_audio("notes.txt"));
    assert!(!is_audio("mp3") && !is_audio(".mp3") && !is_audio("a.mp3/b"));
    assert!(is_video("a.TS") && !is_video("a.mp3"));
    assert!(is_image("a.jpeg") && !is_image("a.ts"));
}
