//! Configuration values and the file lists that they resolve to.

use std::cmp::Ordering;
use vstd::prelude::*;
use crate::order::{components, law_paths_are_ordered, order_paths, path_order};
use crate::request::{extension, extension_of, file_name_of};
use crate::text::{lowered, owned, same, texts, to_lower};

verus! {

/// The channels of the bus.
#[derive(Clone, Copy, Debug, PartialEq, Eq, Structural)]
pub enum Channels {
    Mono,
    Stereo,
}

impl Channels {
    /// The number of channels.
    pub fn count(self) -> (n: usize)
        ensures
            n == (match self {
                Channels::Mono => 1usize,
                Channels::Stereo => 2usize,
            }),
    {
        match self {
            Channels::Mono => 1,
            Channels::Stereo => 2,
        }
    }
}

/// The format that every source is converted to.
#[derive(Clone, Copy, Debug, PartialEq, Eq, Structural)]
pub struct BusSpec {
    pub rate: u32,
    pub channels: Channels,
}

/// The PCM bus.
#[derive(Clone, Debug)]
pub struct StreamConfig {
    pub sample_rate: u32,
    pub channels: u16,
    /// Frames pulled at a time (about 93 ms at 44100 Hz).
    pub frames_per_buffer: usize,
}

impl Default for StreamConfig {
    fn default() -> (c: StreamConfig)
        ensures
            c.sample_rate == 44100,
            c.channels == 2,
            c.frames_per_buffer == 4096,
    {
        StreamConfig { sample_rate: 44100, channels: 2, frames_per_buffer: 4096 }
    }
}

impl StreamConfig {
    /// The format of the bus; an unsupported channel count means stereo.
    pub fn signal_spec(&self) -> (s: BusSpec)
        ensures
            s.rate == self.sample_rate,
            s.channels == (if self.channels == 1 {
                Channels::Mono
            } else {
                Channels::Stereo
            }),
    {
        BusSpec {
            rate: self.sample_rate,
            channels: if self.channels == 1 { Channels::Mono } else { Channels::Stereo },
        }
    }
}

/// The mixer. Every number is the bit pattern of a double.
#[derive(Clone, Copy, Debug, PartialEq, Eq, Structural)]
pub struct MixerConfig {
    /// Overlap of a crossfade, in seconds.
    pub crossfade_seconds: u64,
    /// Exponent of the gain curve: linear at 1.
    pub fade_curve: u64,
    /// Duration of the fade into and out of a live DJ, in seconds.
    pub duck_seconds: u64,
}

impl Default for MixerConfig {
    /// Three seconds of crossfade, a linear curve, and a fade of one and a
    /// half seconds.
    fn default() -> (c: MixerConfig)
        ensures
            c.crossfade_seconds == 0x4008_0000_0000_0000,
            c.fade_curve == 0x3ff0_0000_0000_0000,
            c.duck_seconds == 0x3ff8_0000_0000_0000,
    {
        MixerConfig {
            crossfade_seconds: 0x4008_0000_0000_0000,
            fade_curve: 0x3ff0_0000_0000_0000,
            duck_seconds: 0x3ff8_0000_0000_0000,
        }
    }
}

/// Encoded stream formats.
#[derive(Clone, Copy, Debug, PartialEq, Eq, Structural)]
pub enum OutputFormat {
    Mp3,
    Opus,
    /// ADTS AAC.
    Aac,
}

impl Default for OutputFormat {
    fn default() -> (f: OutputFormat)
        ensures
            f == OutputFormat::Mp3,
    {
        OutputFormat::Mp3
    }
}

/// Source protocols of the streaming output.
#[derive(Clone, Copy, Debug, PartialEq, Eq, Structural)]
pub enum OutputProtocol {
    Icecast,
    /// The legacy ICY source protocol.
    ShoutcastV1,
    /// The DNAS source protocol.
    ShoutcastV2,
}

impl Default for OutputProtocol {
    fn default() -> (p: OutputProtocol)
        ensures
            p == OutputProtocol::Icecast,
    {
        OutputProtocol::Icecast
    }
}

/// The name of a protocol in messages.
pub open spec fn protocol_name(p: OutputProtocol) -> Seq<char> {
    match p {
        OutputProtocol::Icecast => "Icecast"@,
        OutputProtocol::ShoutcastV1 => "SHOUTcast v1"@,
        OutputProtocol::ShoutcastV2 => "SHOUTcast v2"@,
    }
}

impl OutputProtocol {
    /// The name of the protocol in messages.
    pub fn name(&self) -> (s: &'static str)
        ensures
            s@ == protocol_name(*self),
    {
        match self {
            OutputProtocol::Icecast => "Icecast",
            OutputProtocol::ShoutcastV1 => "SHOUTcast v1",
            OutputProtocol::ShoutcastV2 => "SHOUTcast v2",
        }
    }
}

/// A streaming output.
#[derive(Clone, Debug)]
pub struct OutputConfig {
    pub host: String,
    pub port: u16,
    /// Icecast path, or the SHOUTcast v2 stream path (`/` or `/stream/N`).
    pub mount: String,
    pub source_user: String,
    pub source_password: String,
    pub protocol: OutputProtocol,
    pub format: OutputFormat,
    /// Encoder bitrate in bits per second.
    pub bitrate: u32,
    pub name: String,
    pub description: String,
    pub genre: String,
    /// Seconds between failed connection attempts.
    pub reconnect_seconds: u64,
}

impl Default for OutputConfig {
    fn default() -> (c: OutputConfig)
        ensures
            c.host@ == "localhost"@,
            c.port == 8000,
            c.mount@ == "/crabsoup.mp3"@,
            c.source_user@ == "source"@,
            c.source_password@ == "hackme"@,
            c.protocol == OutputProtocol::Icecast,
            c.format == OutputFormat::Mp3,
            c.bitrate == 192_000,
            c.name@ == "Crabsoup"@,
            c.description@ == "Crabsoup stream"@,
            c.genre@ == "Various"@,
            c.reconnect_seconds == 5,
    {
        OutputConfig {
            host: owned("localhost"),
            port: 8000,
            mount: owned("/crabsoup.mp3"),
            source_user: owned("source"),
            source_password: owned("hackme"),
            protocol: OutputProtocol::Icecast,
            format: OutputFormat::Mp3,
            bitrate: 192_000,
            name: owned("Crabsoup"),
            description: owned("Crabsoup stream"),
            genre: owned("Various"),
            reconnect_seconds: 5,
        }
    }
}

/// A recording to a local file.
#[derive(Clone, Debug)]
pub struct FileOutputConfig {
    pub path: String,
    pub format: OutputFormat,
    pub bitrate: u32,
}

/// Playback on a physical device.
#[derive(Clone, Debug)]
pub struct SoundcardOutputConfig {
    /// Named device; the default one where there is none.
    pub device: Option<String>,
}

impl Default for SoundcardOutputConfig {
    fn default() -> (c: SoundcardOutputConfig)
        ensures
            c.device is None,
    {
        SoundcardOutputConfig { device: None }
    }
}

/// One encode of an adaptive HLS output.
#[derive(Clone, Debug)]
pub struct HlsRendition {
    /// Name, also that of its subdirectory.
    pub name: String,
    /// Audio bitrate in bits per second.
    pub bitrate: u32,
    /// Video bitrate in bits per second.
    pub video_bitrate: u32,
    /// Picture size; that of the source where it is not given.
    pub width: Option<u32>,
    pub height: Option<u32>,
}

/// A sliding window of HLS segments with a media playlist.
#[derive(Clone, Debug)]
pub struct HlsOutputConfig {
    /// Where segments and playlists are written.
    pub directory: String,
    /// Nominal segment length on the 90 kHz clock.
    pub segment_ticks: u64,
    /// Completed segments that the window keeps.
    pub retention: usize,
    /// Mux the shared video tap into the segments.
    pub video: bool,
    /// Encodes side by side; none means one encode without a master playlist.
    pub renditions: Vec<HlsRendition>,
    /// Template of segment names, with `{n}` and `{t}`.
    pub segment_name: String,
    /// Where the window is saved across restarts.
    pub persist_at: Option<String>,
}

impl Default for HlsOutputConfig {
    fn default() -> (c: HlsOutputConfig)
        ensures
            c.directory@ == "hls"@,
            c.segment_ticks == 450_000,
            c.retention == 12,
            !c.video,
            c.renditions@.len() == 0,
            c.segment_name@ == "seg-{n}.ts"@,
            c.persist_at is None,
    {
        HlsOutputConfig {
            directory: owned("hls"),
            segment_ticks: 450_000,
            retention: 12,
            video: false,
            renditions: Vec::new(),
            segment_name: owned("seg-{n}.ts"),
            persist_at: None,
        }
    }
}

/// Publishing to an RTMP server.
#[derive(Clone, Debug)]
pub struct RtmpOutputConfig {
    pub url: String,
    /// Audio bitrate in bits per second.
    pub bitrate: u32,
    /// Seconds between failed connection attempts.
    pub reconnect_seconds: u64,
    /// Publish the shared video tap.
    pub video: bool,
}

/// A recording to an MP4 file.
#[derive(Clone, Debug)]
pub struct Mp4OutputConfig {
    pub path: String,
    /// Audio bitrate in bits per second.
    pub bitrate: u32,
    /// Record the shared video tap.
    pub video: bool,
}

/// The live input.
#[derive(Clone, Debug)]
pub struct LiveConfig {
    /// Address that the listener binds.
    pub host: String,
    pub port: u16,
    /// Path that a DJ uploads to.
    pub mount: String,
    /// Password of the source account.
    pub password: String,
    /// Further valid passwords, one for each streamer account.
    pub extra_passwords: Vec<String>,
}

impl Default for LiveConfig {
    fn default() -> (c: LiveConfig)
        ensures
            c.host@ == "0.0.0.0"@,
            c.port == 8005,
            c.mount@ == "/live"@,
            c.password@ == "dj"@,
            c.extra_passwords@.len() == 0,
    {
        LiveConfig {
            host: owned("0.0.0.0"),
            port: 8005,
            mount: owned("/live"),
            password: owned("dj"),
            extra_passwords: Vec::new(),
        }
    }
}

/// The control port.
#[derive(Clone, Debug)]
pub struct ControlConfig {
    pub host: String,
    pub port: u16,
    /// Greet connections with a line of prose.
    pub banner: bool,
    /// Port of the HTTP endpoint, if there is one.
    pub http_port: Option<u16>,
}

impl Default for ControlConfig {
    fn default() -> (c: ControlConfig)
        ensures
            c.host@ == "127.0.0.1"@,
            c.port == 1234,
            c.banner,
            c.http_port is None,
    {
        ControlConfig { host: owned("127.0.0.1"), port: 1234, banner: true, http_port: None }
    }
}

// ---------------------------------------------------------------------------
// Media files
// ---------------------------------------------------------------------------

/// The extension in lower case is an audio one, or that of a container whose
/// default track can be audio.
pub open spec fn is_audio_extension(e: Seq<char>) -> bool {
    ||| e == "mp3"@
    ||| e == "wav"@
    ||| e == "flac"@
    ||| e == "ogg"@
    ||| e == "opus"@
    ||| e == "oga"@
    ||| e == "m4a"@
    ||| e == "aac"@
    ||| e == "wma"@
    ||| e == "mp4"@
    ||| e == "m4v"@
    ||| e == "mov"@
    ||| e == "mkv"@
    ||| e == "webm"@
}

/// The extension in lower case is a video one.
pub open spec fn is_video_extension(e: Seq<char>) -> bool {
    ||| e == "mp4"@
    ||| e == "mov"@
    ||| e == "mkv"@
    ||| e == "webm"@
    ||| e == "m4v"@
    ||| e == "ts"@
    ||| e == "m2ts"@
    ||| e == "avi"@
    ||| e == "flv"@
    ||| e == "mpg"@
    ||| e == "mpeg"@
    ||| e == "wmv"@
}

/// The extension in lower case is an image one.
pub open spec fn is_image_extension(e: Seq<char>) -> bool {
    ||| e == "jpg"@
    ||| e == "jpeg"@
    ||| e == "png"@
    ||| e == "webp"@
    ||| e == "bmp"@
    ||| e == "gif"@
    ||| e == "tif"@
    ||| e == "tiff"@
}

/// The extension of a path, in lower case.
pub open spec fn lower_extension_of(path: Seq<char>) -> Option<Seq<char>> {
    match file_name_of(path) {
        None => None,
        Some(name) => match extension_of(name) {
            None => None,
            Some(e) => Some(lowered(e)),
        },
    }
}

fn lower_extension(path: &str) -> (r: Option<String>)
    ensures
        crate::http::opt_text(r) == lower_extension_of(path@),
{
    match extension(path) {
        None => None,
        Some(e) => Some(to_lower(e.as_str())),
    }
}

/// Whether a file is taken for audio.
pub fn is_audio(path: &str) -> (b: bool)
    ensures
        b == (lower_extension_of(path@) matches Some(e) && is_audio_extension(e)),
{
    match lower_extension(path) {
        None => false,
        Some(e) => {
            let e = e.as_str();
            same(e, "mp3") || same(e, "wav") || same(e, "flac") || same(e, "ogg") || same(
                e,
                "opus",
            ) || same(e, "oga") || same(e, "m4a") || same(e, "aac") || same(e, "wma") || same(
                e,
                "mp4",
            ) || same(e, "m4v") || same(e, "mov") || same(e, "mkv") || same(e, "webm")
        },
    }
}

/// Whether a file is taken for video.
pub fn is_video(path: &str) -> (b: bool)
    ensures
        b == (lower_extension_of(path@) matches Some(e) && is_video_extension(e)),
{
    match lower_extension(path) {
        None => false,
        Some(e) => {
            let e = e.as_str();
            same(e, "mp4") || same(e, "mov") || same(e, "mkv") || same(e, "webm") || same(e, "m4v")
                || same(e, "ts") || same(e, "m2ts") || same(e, "avi") || same(e, "flv") || same(
                e,
                "mpg",
            ) || same(e, "mpeg") || same(e, "wmv")
        },
    }
}

/// Whether a file is taken for an image.
pub fn is_image(path: &str) -> (b: bool)
    ensures
        b == (lower_extension_of(path@) matches Some(e) && is_image_extension(e)),
{
    match lower_extension(path) {
        None => false,
        Some(e) => {
            let e = e.as_str();
            same(e, "jpg") || same(e, "jpeg") || same(e, "png") || same(e, "webp") || same(e, "bmp")
                || same(e, "gif") || same(e, "tif") || same(e, "tiff")
        },
    }
}

// ---------------------------------------------------------------------------
// Jingles
// ---------------------------------------------------------------------------

/// A sorted list with one more path; a path that it holds already is dropped.
pub open spec fn with_path(list: Seq<Seq<char>>, p: Seq<char>) -> Seq<Seq<char>>
    decreases list.len(),
{
    if list.len() == 0 {
        seq![p]
    } else {
        match path_order(list.last(), p) {
            Ordering::Less => list.push(p),
            Ordering::Equal => list,
            Ordering::Greater => with_path(list.drop_last(), p).push(list.last()),
        }
    }
}

/// The paths in order, each once; of equal paths the first one stays.
pub open spec fn sorted_paths(paths: Seq<Seq<char>>) -> Seq<Seq<char>>
    decreases paths.len(),
{
    if paths.len() == 0 {
        Seq::empty()
    } else {
        with_path(sorted_paths(paths.drop_last()), paths.last())
    }
}

/// One-shot jingles played over the music.
#[derive(Clone, Debug)]
pub struct JingleConfig {
    /// Directory of audio files.
    pub directory: Option<String>,
    /// Files named one by one.
    pub files: Vec<String>,
}

impl Default for JingleConfig {
    fn default() -> (c: JingleConfig)
        ensures
            c.directory is None,
            c.files@.len() == 0,
    {
        JingleConfig { directory: None, files: Vec::new() }
    }
}

impl JingleConfig {
    /// The jingle files, in order and each once: `found` is what the directory
    /// holds, and the files named one by one follow.
    pub fn files(&self, found: &[String]) -> (out: Vec<String>)
        ensures
            texts(out@) == sorted_paths(texts(found@) + texts(self.files@)),
    {
        let mut out: Vec<String> = Vec::new();
        let ghost all = texts(found@) + texts(self.files@);
        proof {
            assert(all.take(0) =~= Seq::<Seq<char>>::empty());
            assert(texts(out@) =~= sorted_paths(all.take(0)));
        }
        let mut i: usize = 0;
        while i < found.len()
            invariant
                i <= found@.len(),
                all == texts(found@) + texts(self.files@),
                texts(out@) == sorted_paths(all.take(i as int)),
            decreases found@.len() - i,
        {
            proof {
                assert(all.take(i as int + 1).drop_last() =~= all.take(i as int));
                assert(all.take(i as int + 1).last() == found@[i as int]@);
            }
            insert_path(&mut out, found[i].as_str());
            i = i + 1;
        }
        let mut j: usize = 0;
        while j < self.files.len()
            invariant
                j <= self.files@.len(),
                all == texts(found@) + texts(self.files@),
                texts(out@) == sorted_paths(all.take(found@.len() + j)),
            decreases self.files@.len() - j,
        {
            proof {
                let k = found@.len() + j;
                assert(all.take(k + 1).drop_last() =~= all.take(k));
                assert(all.take(k + 1).last() == self.files@[j as int]@);
            }
            insert_path(&mut out, self.files[j].as_str());
            j = j + 1;
        }
        proof {
            assert(all.take(found@.len() + self.files@.len() as int) =~= all);
        }
        out
    }
}

fn insert_path(list: &mut Vec<String>, p: &str)
    ensures
        texts(final(list)@) == with_path(texts(old(list)@), p@),
    decreases old(list)@.len(),
{
    let n: usize = list.len();
    if n == 0 {
        list.push(owned(p));
        assert(texts(list@) =~= seq![p@]);
        return;
    }
    let ghost before = texts(list@);
    assert(before.last() == list@[n - 1]@);
    match order_paths(list[n - 1].as_str(), p) {
        Ordering::Less => {
            list.push(owned(p));
            assert(texts(list@) =~= before.push(p@));
        },
        Ordering::Equal => {},
        Ordering::Greater => {
            match list.pop() {
                Some(last) => {
                    proof {
                        assert(texts(list@) =~= before.drop_last());
                    }
                    insert_path(list, p);
                    let ghost mid = texts(list@);
                    list.push(last);
                    assert(texts(list@) =~= mid.push(before.last()));
                },
                None => {},
            }
        },
    }
}

// ---------------------------------------------------------------------------
// Laws
// ---------------------------------------------------------------------------

/// Each path comes before those behind it.
pub open spec fn ascending(list: Seq<Seq<char>>) -> bool {
    forall|i: int, j: int|
        0 <= i < j < list.len() ==> path_order(#[trigger] list[i], #[trigger] list[j])
            == Ordering::Less
}

/// A path of the list has the components of `p`.
pub open spec fn lists(list: Seq<Seq<char>>, p: Seq<char>) -> bool {
    exists|k: int| 0 <= k < list.len() && components(#[trigger] list[k]) == components(p)
}

proof fn lemma_with_path(list: Seq<Seq<char>>, p: Seq<char>)
    requires
        ascending(list),
    ensures
        ascending(with_path(list, p)),
        with_path(list, p).len() > 0,
        forall|q: Seq<char>|
            #[trigger] with_path(list, p).contains(q) ==> q == p || list.contains(q),
        forall|q: Seq<char>| #[trigger] lists(list, q) ==> lists(with_path(list, p), q),
        lists(with_path(list, p), p),
    decreases list.len(),
{
    let out = with_path(list, p);
    if list.len() == 0 {
        assert(components(out[0]) == components(p));
        return;
    }
    let last = list.last();
    let front = list.drop_last();
    law_paths_are_ordered(last, p, p);
    assert(ascending(front)) by {
        assert forall|i: int, j: int| 0 <= i < j < front.len() implies path_order(
            #[trigger] front[i],
            #[trigger] front[j],
        ) == Ordering::Less by {
            assert(path_order(list[i], list[j]) == Ordering::Less);
        }
    }
    match path_order(last, p) {
        Ordering::Less => {
            assert forall|i: int, j: int| 0 <= i < j < out.len() implies path_order(
                #[trigger] out[i],
                #[trigger] out[j],
            ) == Ordering::Less by {
                if j == list.len() {
                    law_paths_are_ordered(out[i], last, p);
                    if i < list.len() - 1 {
                        assert(path_order(list[i], list[list.len() - 1]) == Ordering::Less);
                    }
                } else {
                    assert(path_order(list[i], list[j]) == Ordering::Less);
                }
            }
            assert(components(out[out.len() - 1]) == components(p));
            assert forall|q: Seq<char>| #[trigger] lists(list, q) implies lists(out, q) by {
                let k = choose|k: int|
                    0 <= k < list.len() && components(#[trigger] list[k]) == components(q);
                assert(out[k] == list[k]);
            }
            assert forall|q: Seq<char>| #[trigger] out.contains(q) implies q == p || list.contains(
                q,
            ) by {
                let k = choose|k: int| 0 <= k < out.len() && out[k] == q;
                if k < list.len() {
                    assert(list[k] == q);
                }
            }
        },
        Ordering::Equal => {
            assert(components(list[list.len() - 1]) == components(p));
        },
        Ordering::Greater => {
            lemma_with_path(front, p);
            let rest = with_path(front, p);
            assert(out == rest.push(last));
            assert forall|i: int, j: int| 0 <= i < j < out.len() implies path_order(
                #[trigger] out[i],
                #[trigger] out[j],
            ) == Ordering::Less by {
                if j < rest.len() {
                    assert(path_order(rest[i], rest[j]) == Ordering::Less);
                } else {
                    assert(rest.contains(rest[i]));
                    if rest[i] != p {
                        let k = choose|k: int| 0 <= k < front.len() && front[k] == rest[i];
                        assert(path_order(list[k], list[list.len() - 1]) == Ordering::Less);
                    }
                }
            }
            assert forall|q: Seq<char>| #[trigger] lists(list, q) implies lists(out, q) by {
                let k = choose|k: int|
                    0 <= k < list.len() && components(#[trigger] list[k]) == components(q);
                if k < front.len() {
                    assert(components(front[k]) == components(q));
                    assert(lists(front, q));
                    let m = choose|m: int|
                        0 <= m < rest.len() && components(#[trigger] rest[m]) == components(q);
                    assert(out[m] == rest[m]);
                } else {
                    assert(out[out.len() - 1] == last);
                }
            }
            assert forall|q: Seq<char>| #[trigger] out.contains(q) implies q == p || list.contains(
                q,
            ) by {
                let k = choose|k: int| 0 <= k < out.len() && out[k] == q;
                if k < rest.len() {
                    assert(rest.contains(q));
                    if q != p {
                        let m = choose|m: int| 0 <= m < front.len() && front[m] == q;
                        assert(list[m] == q);
                    }
                } else {
                    assert(list[list.len() - 1] == q);
                }
            }
            let m = choose|m: int|
                0 <= m < rest.len() && components(#[trigger] rest[m]) == components(p);
            assert(out[m] == rest[m]);
        },
    }
}

/// The jingle list is ordered and holds no path twice; it holds nothing but
/// the given paths, and each of those in some spelling.
pub proof fn law_jingles_are_ordered(paths: Seq<Seq<char>>)
    ensures
        ascending(sorted_paths(paths)),
        forall|q: Seq<char>| #[trigger] sorted_paths(paths).contains(q) ==> paths.contains(q),
        forall|i: int| 0 <= i < paths.len() ==> lists(sorted_paths(paths), #[trigger] paths[i]),
    decreases paths.len(),
{
    if paths.len() > 0 {
        let front = paths.drop_last();
        law_jingles_are_ordered(front);
        let before = sorted_paths(front);
        lemma_with_path(before, paths.last());
        assert forall|q: Seq<char>| #[trigger] sorted_paths(paths).contains(
            q,
        ) implies paths.contains(q) by {
            if q == paths.last() {
                assert(paths[paths.len() - 1] == q);
            } else {
                assert(before.contains(q));
                let m = choose|m: int| 0 <= m < front.len() && front[m] == q;
                assert(paths[m] == q);
            }
        }
        assert forall|i: int| 0 <= i < paths.len() implies lists(
            sorted_paths(paths),
            #[trigger] paths[i],
        ) by {
            if i < front.len() {
                assert(lists(before, front[i]));
            }
        }
    }
}

/// What the library plays: the audio formats, and the containers whose default
/// track can be audio; what it shows: video and images.
pub proof fn law_known_media()
    ensures
        is_audio_extension("mp3"@),
        is_audio_extension("wav"@),
        is_audio_extension("flac"@),
        is_audio_extension("ogg"@),
        is_audio_extension("opus"@),
        is_audio_extension("oga"@),
        is_audio_extension("m4a"@),
        is_audio_extension("aac"@),
        is_audio_extension("wma"@),
        is_audio_extension("mp4"@),
        is_audio_extension("m4v"@),
        is_audio_extension("mov"@),
        is_audio_extension("mkv"@),
        is_audio_extension("webm"@),
        is_video_extension("mp4"@),
        is_video_extension("mov"@),
        is_video_extension("mkv"@),
        is_video_extension("webm"@),
        is_video_extension("m4v"@),
        is_video_extension("ts"@),
        is_video_extension("m2ts"@),
        is_video_extension("avi"@),
        is_video_extension("flv"@),
        is_video_extension("mpg"@),
        is_video_extension("mpeg"@),
        is_video_extension("wmv"@),
        is_image_extension("jpg"@),
        is_image_extension("jpeg"@),
        is_image_extension("png"@),
        is_image_extension("webp"@),
        is_image_extension("bmp"@),
        is_image_extension("gif"@),
        is_image_extension("tif"@),
        is_image_extension("tiff"@),
{
}

} // verus!
