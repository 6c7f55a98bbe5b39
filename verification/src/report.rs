//! What the program tells its operator: the summary of a configuration, and
//! how the outputs ended.

use vstd::prelude::*;
use crate::config::{protocol_name, ControlConfig, FileOutputConfig, HlsOutputConfig, LiveConfig};
use crate::config::{OutputConfig, OutputFormat, SoundcardOutputConfig, StreamConfig};
use crate::icecast_client::format_debug;
use crate::text::{dec, owned, push_dec, same, texts};

verus! {

/// What a script configures. Numbers of the mixer are given as text.
pub struct Summary {
    pub stream: StreamConfig,
    pub crossfade: String,
    pub curve: String,
    pub duck: String,
    pub jingles: usize,
    pub harbor: Option<LiveConfig>,
    pub control: Option<ControlConfig>,
    pub custom_commands: Vec<String>,
    pub outputs: Vec<OutputConfig>,
    pub file_outputs: Vec<FileOutputConfig>,
    /// Each with the seconds of its segments as text.
    pub hls_outputs: Vec<(HlsOutputConfig, String)>,
    pub soundcard_outputs: Vec<SoundcardOutputConfig>,
}

/// The line of the bus.
pub open spec fn stream_line(s: Summary) -> Seq<char> {
    "stream: "@ + dec(s.stream.sample_rate as nat) + " Hz, "@ + dec(s.stream.channels as nat)
        + " ch, "@ + dec(s.stream.frames_per_buffer as nat) + " frames/buffer"@
}

/// The line of the mixer.
pub open spec fn mixer_line(s: Summary) -> Seq<char> {
    "mixer: crossfade "@ + s.crossfade@ + "s, curve "@ + s.curve@ + ", duck "@ + s.duck@ + "s"@
}

/// The line of the jingles.
pub open spec fn jingles_line(s: Summary) -> Seq<char> {
    "jingles: "@ + dec(s.jingles as nat) + " file(s)"@
}

/// The line of the live input.
pub open spec fn harbor_lines(s: Summary) -> Seq<Seq<char>> {
    match s.harbor {
        Some(h) => seq!["harbor: "@ + h.host@ + ":"@ + dec(h.port as nat)],
        None => Seq::empty(),
    }
}

/// The line of the control port.
pub open spec fn control_lines(s: Summary) -> Seq<Seq<char>> {
    match s.control {
        Some(c) => seq!["telnet: "@ + c.host@ + ":"@ + dec(c.port as nat)],
        None => Seq::empty(),
    }
}

/// The line of a command of the script.
pub open spec fn custom_line(name: String) -> Seq<char> {
    "custom command: "@ + name@
}

/// The line of a streaming output.
pub open spec fn output_line(o: OutputConfig) -> Seq<char> {
    "output: "@ + protocol_name(o.protocol) + " "@ + format_debug(o.format) + " to "@ + o.host@
        + ":"@ + dec(o.port as nat) + o.mount@
}

/// The line of a recording.
pub open spec fn record_line(f: FileOutputConfig) -> Seq<char> {
    "record: "@ + format_debug(f.format) + " to "@ + f.path@
}

/// The line of an HLS output.
pub open spec fn hls_line(h: (HlsOutputConfig, String)) -> Seq<char> {
    (if h.0.renditions@.len() == 0 {
        "hls: AAC segments to "@
    } else {
        "hls: "@ + dec(h.0.renditions@.len()) + " ABR renditions to "@
    }) + h.0.directory@ + " ("@ + h.1@ + "s x "@ + dec(h.0.retention as nat) + ")"@
}

/// The line of a soundcard.
pub open spec fn soundcard_line(c: SoundcardOutputConfig) -> Seq<char> {
    "soundcard: output to "@ + (match c.device {
        Some(d) => d@,
        None => "(default)"@,
    })
}

/// The lines of the outputs: with a forced preview they are not told.
pub open spec fn outputs_lines(s: Summary, preview: bool) -> Seq<Seq<char>> {
    if preview {
        seq!["output: preview only (forced by --preview)"@]
    } else {
        s.outputs@.map_values(|o: OutputConfig| output_line(o)) + s.file_outputs@.map_values(
            |f: FileOutputConfig| record_line(f),
        ) + s.hls_outputs@.map_values(|h: (HlsOutputConfig, String)| hls_line(h))
            + s.soundcard_outputs@.map_values(|c: SoundcardOutputConfig| soundcard_line(c)) + (
        if s.outputs@.len() == 0 && s.file_outputs@.len() == 0 && s.hls_outputs@.len() == 0
            && s.soundcard_outputs@.len() == 0 {
            seq!["output: preview only"@]
        } else {
            Seq::empty()
        })
    }
}

/// The lines of a summary.
pub open spec fn summary_lines(s: Summary, preview: bool) -> Seq<Seq<char>> {
    seq![stream_line(s), mixer_line(s), jingles_line(s)] + harbor_lines(s) + control_lines(s)
        + s.custom_commands@.map_values(|n: String| custom_line(n)) + outputs_lines(s, preview)
}

/// The lines, each but the last one ended.
pub open spec fn joined_lines(lines: Seq<Seq<char>>) -> Seq<char>
    decreases lines.len(),
{
    if lines.len() == 0 {
        Seq::empty()
    } else if lines.len() == 1 {
        lines[0]
    } else {
        joined_lines(lines.drop_last()) + "\n"@ + lines.last()
    }
}

fn format_name(format: OutputFormat) -> (s: &'static str)
    ensures
        s@ == format_debug(format),
{
    match format {
        OutputFormat::Mp3 => "Mp3",
        OutputFormat::Opus => "Opus",
        OutputFormat::Aac => "Aac",
    }
}

fn push_line(lines: &mut Vec<String>, line: String)
    ensures
        texts(final(lines)@) == texts(old(lines)@).push(line@),
{
    let ghost before = texts(lines@);
    lines.push(line);
    assert(texts(lines@) =~= before.push(line@));
}

fn push_head(s: &Summary, lines: &mut Vec<String>)
    ensures
        texts(final(lines)@) == texts(old(lines)@) + (seq![
            stream_line(*s),
            mixer_line(*s),
            jingles_line(*s),
        ] + harbor_lines(*s) + control_lines(*s)),
{
    let ghost before = texts(lines@);
    let mut line = owned("stream: ");
    push_dec(&mut line, s.stream.sample_rate as u64);
    line.append(" Hz, ");
    push_dec(&mut line, s.stream.channels as u64);
    line.append(" ch, ");
    push_dec(&mut line, s.stream.frames_per_buffer as u64);
    line.append(" frames/buffer");
    push_line(lines, line);
    let mut line = owned("mixer: crossfade ");
    line.append(s.crossfade.as_str());
    line.append("s, curve ");
    line.append(s.curve.as_str());
    line.append(", duck ");
    line.append(s.duck.as_str());
    line.append("s");
    push_line(lines, line);
    let mut line = owned("jingles: ");
    push_dec(&mut line, s.jingles as u64);
    line.append(" file(s)");
    push_line(lines, line);
    match &s.harbor {
        Some(h) => {
            let mut line = owned("harbor: ");
            line.append(h.host.as_str());
            line.append(":");
            push_dec(&mut line, h.port as u64);
            push_line(lines, line);
        },
        None => {},
    }
    match &s.control {
        Some(c) => {
            let mut line = owned("telnet: ");
            line.append(c.host.as_str());
            line.append(":");
            push_dec(&mut line, c.port as u64);
            push_line(lines, line);
        },
        None => {},
    }
    assert(texts(lines@) =~= before + (seq![stream_line(*s), mixer_line(*s), jingles_line(*s)]
        + harbor_lines(*s) + control_lines(*s)));
}

fn push_custom(names: &Vec<String>, lines: &mut Vec<String>)
    ensures
        texts(final(lines)@) == texts(old(lines)@) + names@.map_values(|n: String| custom_line(n)),
{
    let ghost before = texts(lines@);
    let ghost all = names@.map_values(|n: String| custom_line(n));
    let mut i: usize = 0;
    assert(before + all.take(0) =~= before);
    while i < names.len()
        invariant
            i <= names@.len(),
            all == names@.map_values(|n: String| custom_line(n)),
            texts(lines@) == before + all.take(i as int),
        decreases names@.len() - i,
    {
        let mut line = owned("custom command: ");
        line.append(names[i].as_str());
        push_line(lines, line);
        i = i + 1;
        assert(texts(lines@) =~= before + all.take(i as int));
    }
    assert(all.take(i as int) =~= all);
}

fn push_outputs(outputs: &Vec<OutputConfig>, lines: &mut Vec<String>)
    ensures
        texts(final(lines)@) == texts(old(lines)@) + outputs@.map_values(
            |o: OutputConfig| output_line(o),
        ),
{
    let ghost before = texts(lines@);
    let ghost all = outputs@.map_values(|o: OutputConfig| output_line(o));
    let mut i: usize = 0;
    assert(before + all.take(0) =~= before);
    while i < outputs.len()
        invariant
            i <= outputs@.len(),
            all == outputs@.map_values(|o: OutputConfig| output_line(o)),
            texts(lines@) == before + all.take(i as int),
        decreases outputs@.len() - i,
    {
        let o = &outputs[i];
        let mut line = owned("output: ");
        line.append(o.protocol.name());
        line.append(" ");
        line.append(format_name(o.format));
        line.append(" to ");
        line.append(o.host.as_str());
        line.append(":");
        push_dec(&mut line, o.port as u64);
        line.append(o.mount.as_str());
        push_line(lines, line);
        i = i + 1;
        assert(texts(lines@) =~= before + all.take(i as int));
    }
    assert(all.take(i as int) =~= all);
}

fn push_records(files: &Vec<FileOutputConfig>, lines: &mut Vec<String>)
    ensures
        texts(final(lines)@) == texts(old(lines)@) + files@.map_values(
            |f: FileOutputConfig| record_line(f),
        ),
{
    let ghost before = texts(lines@);
    let ghost all = files@.map_values(|f: FileOutputConfig| record_line(f));
    let mut i: usize = 0;
    assert(before + all.take(0) =~= before);
    while i < files.len()
        invariant
            i <= files@.len(),
            all == files@.map_values(|f: FileOutputConfig| record_line(f)),
            texts(lines@) == before + all.take(i as int),
        decreases files@.len() - i,
    {
        let mut line = owned("record: ");
        line.append(format_name(files[i].format));
        line.append(" to ");
        line.append(files[i].path.as_str());
        push_line(lines, line);
        i = i + 1;
        assert(texts(lines@) =~= before + all.take(i as int));
    }
    assert(all.take(i as int) =~= all);
}

fn push_hls(hls: &Vec<(HlsOutputConfig, String)>, lines: &mut Vec<String>)
    ensures
        texts(final(lines)@) == texts(old(lines)@) + hls@.map_values(
            |h: (HlsOutputConfig, String)| hls_line(h),
        ),
{
    let ghost before = texts(lines@);
    let ghost all = hls@.map_values(|h: (HlsOutputConfig, String)| hls_line(h));
    let mut i: usize = 0;
    assert(before + all.take(0) =~= before);
    while i < hls.len()
        invariant
            i <= hls@.len(),
            all == hls@.map_values(|h: (HlsOutputConfig, String)| hls_line(h)),
            texts(lines@) == before + all.take(i as int),
        decreases hls@.len() - i,
    {
        let h = &hls[i].0;
        let mut line = if h.renditions.len() == 0 {
            owned("hls: AAC segments to ")
        } else {
            let mut l = owned("hls: ");
            push_dec(&mut l, h.renditions.len() as u64);
            l.append(" ABR renditions to ");
            l
        };
        line.append(h.directory.as_str());
        line.append(" (");
        line.append(hls[i].1.as_str());
        line.append("s x ");
        push_dec(&mut line, h.retention as u64);
        line.append(")");
        push_line(lines, line);
        i = i + 1;
        assert(texts(lines@) =~= before + all.take(i as int));
    }
    assert(all.take(i as int) =~= all);
}

fn push_soundcards(cards: &Vec<SoundcardOutputConfig>, lines: &mut Vec<String>)
    ensures
        texts(final(lines)@) == texts(old(lines)@) + cards@.map_values(
            |c: SoundcardOutputConfig| soundcard_line(c),
        ),
{
    let ghost before = texts(lines@);
    let ghost all = cards@.map_values(|c: SoundcardOutputConfig| soundcard_line(c));
    let mut i: usize = 0;
    assert(before + all.take(0) =~= before);
    while i < cards.len()
        invariant
            i <= cards@.len(),
            all == cards@.map_values(|c: SoundcardOutputConfig| soundcard_line(c)),
            texts(lines@) == before + all.take(i as int),
        decreases cards@.len() - i,
    {
        let mut line = owned("soundcard: output to ");
        match &cards[i].device {
            Some(d) => line.append(d.as_str()),
            None => line.append("(default)"),
        }
        push_line(lines, line);
        i = i + 1;
        assert(texts(lines@) =~= before + all.take(i as int));
    }
    assert(all.take(i as int) =~= all);
}

fn join(lines: &Vec<String>) -> (s: String)
    ensures
        s@ == joined_lines(texts(lines@)),
{
    let ghost all = texts(lines@);
    let mut s = String::new();
    let mut i: usize = 0;
    assert(all.take(0) =~= Seq::<Seq<char>>::empty());
    while i < lines.len()
        invariant
            i <= lines@.len(),
            all == texts(lines@),
            s@ == joined_lines(all.take(i as int)),
        decreases lines@.len() - i,
    {
        proof {
            assert(all.take(i as int + 1).drop_last() =~= all.take(i as int));
            assert(all.take(i as int + 1).last() == lines@[i as int]@);
        }
        if i > 0 {
            s.append("\n");
        }
        s.append(lines[i].as_str());
        proof {
            if i == 0 {
                assert(s@ =~= all.take(1)[0]);
            }
        }
        i = i + 1;
    }
    assert(all.take(i as int) =~= all);
    s
}

/// The summary of a configuration, line by line.
pub fn print_result(s: &Summary, preview: bool) -> (text: String)
    ensures
        text@ == joined_lines(summary_lines(*s, preview)),
{
    let mut lines: Vec<String> = Vec::new();
    assert(texts(lines@) =~= Seq::<Seq<char>>::empty());
    push_head(s, &mut lines);
    push_custom(&s.custom_commands, &mut lines);
    if preview {
        push_line(&mut lines, owned("output: preview only (forced by --preview)"));
    } else {
        push_outputs(&s.outputs, &mut lines);
        push_records(&s.file_outputs, &mut lines);
        push_hls(&s.hls_outputs, &mut lines);
        push_soundcards(&s.soundcard_outputs, &mut lines);
        if s.outputs.len() == 0 && s.file_outputs.len() == 0 && s.hls_outputs.len() == 0
            && s.soundcard_outputs.len() == 0 {
            push_line(&mut lines, owned("output: preview only"));
        }
    }
    assert(texts(lines@) =~= summary_lines(*s, preview));
    join(&lines)
}

/// How the thread of an output ended.
#[derive(Clone, Debug)]
pub enum Ending {
    Clean,
    Failed(String),
    Panicked,
}

/// The first failure among the endings.
pub open spec fn first_failure(endings: Seq<Ending>) -> Option<Seq<char>>
    decreases endings.len(),
{
    if endings.len() == 0 {
        None
    } else {
        match first_failure(endings.drop_last()) {
            Some(e) => Some(e),
            None => match endings.last() {
                Ending::Failed(e) => Some(e@),
                _ => None,
            },
        }
    }
}

/// What the program fails with: the first failure of an output. One that
/// panicked is only logged.
pub fn first_error(endings: &Vec<Ending>) -> (r: Option<String>)
    ensures
        crate::http::opt_text(r) == first_failure(endings@),
{
    let mut r: Option<String> = None;
    let mut i: usize = 0;
    assert(endings@.take(0) =~= Seq::<Ending>::empty());
    while i < endings.len()
        invariant
            i <= endings@.len(),
            crate::http::opt_text(r) == first_failure(endings@.take(i as int)),
        decreases endings@.len() - i,
    {
        proof {
            assert(endings@.take(i as int + 1).drop_last() =~= endings@.take(i as int));
            assert(endings@.take(i as int + 1).last() == endings@[i as int]);
        }
        if r.is_none() {
            match &endings[i] {
                Ending::Failed(e) => {
                    r = Some(owned(e.as_str()));
                },
                _ => {},
            }
        }
        i = i + 1;
    }
    assert(endings@.take(i as int) =~= endings@);
    r
}

/// The label of what is playing, as far as it was told.
pub struct NowPlaying {
    last: Option<String>,
}

impl NowPlaying {
    /// The label that was told last.
    pub closed spec fn told(&self) -> Option<Seq<char>> {
        crate::http::opt_text(self.last)
    }

    /// Nothing was told yet.
    pub fn new() -> (n: NowPlaying)
        ensures
            n.told() is None,
    {
        NowPlaying { last: None }
    }

    /// Whether the label of a frame is news; a frame without one has an empty
    /// label.
    pub fn on_frame(&mut self, label: Option<&str>) -> (news: bool)
        ensures
            final(self).told() == Some(crate::icecast::frame_title(label)),
            news == (old(self).told() != Some(crate::icecast::frame_title(label))),
    {
        let text = match label {
            Some(l) => owned(l),
            None => String::new(),
        };
        match &self.last {
            Some(last) => {
                if same(last.as_str(), text.as_str()) {
                    return false;
                }
            },
            None => {},
        }
        self.last = Some(text);
        true
    }
}

/// The summary tells everything that is configured, once and in order: the
/// stream, the mixer, the jingles, the live input and the control port where
/// there are any, each command of the script, and each output with where it
/// goes. With a forced preview it tells that in place of the outputs; without
/// any output it tells that there is the preview only.
#[verifier::rlimit(60)]
pub proof fn law_summary_is_complete(s: Summary, i: int)
    ensures
        ({
            let h: int = if s.harbor is Some {
                1
            } else {
                0
            };
            let c: int = if s.control is Some {
                1
            } else {
                0
            };
            let a = 3 + h + c + s.custom_commands@.len();
            let b = a + s.outputs@.len();
            let d = b + s.file_outputs@.len();
            let e = d + s.hls_outputs@.len();
            let f = e + s.soundcard_outputs@.len();
            let lines = summary_lines(s, false);
            let forced = summary_lines(s, true);
            &&& forced.len() == a + 1
            &&& forced.take(a) == lines.take(a)
            &&& forced[a] == "output: preview only (forced by --preview)"@
            &&& lines.len() == if f == a {
                f + 1
            } else {
                f
            }
            &&& f == a ==> lines[f] == "output: preview only"@
            &&& lines[0] == "stream: "@ + dec(s.stream.sample_rate as nat) + " Hz, "@ + dec(
                s.stream.channels as nat,
            ) + " ch, "@ + dec(s.stream.frames_per_buffer as nat) + " frames/buffer"@
            &&& lines[1] == "mixer: crossfade "@ + s.crossfade@ + "s, curve "@ + s.curve@
                + ", duck "@ + s.duck@ + "s"@
            &&& lines[2] == "jingles: "@ + dec(s.jingles as nat) + " file(s)"@
            &&& s.harbor matches Some(l) ==> lines[3] == "harbor: "@ + l.host@ + ":"@ + dec(
                l.port as nat,
            )
            &&& s.control matches Some(l) ==> lines[3 + h] == "telnet: "@ + l.host@ + ":"@ + dec(
                l.port as nat,
            )
            &&& 0 <= i < s.custom_commands@.len() ==> lines[3 + h + c + i] == "custom command: "@
                + s.custom_commands@[i]@
            &&& 0 <= i < s.outputs@.len() ==> lines[a + i] == "output: "@ + (match s.outputs@[i].protocol {
                crate::config::OutputProtocol::Icecast => "Icecast"@,
                crate::config::OutputProtocol::ShoutcastV1 => "SHOUTcast v1"@,
                crate::config::OutputProtocol::ShoutcastV2 => "SHOUTcast v2"@,
            }) + " "@ + (match s.outputs@[i].format {
                OutputFormat::Mp3 => "Mp3"@,
                OutputFormat::Opus => "Opus"@,
                OutputFormat::Aac => "Aac"@,
            }) + " to "@ + s.outputs@[i].host@ + ":"@ + dec(s.outputs@[i].port as nat)
                + s.outputs@[i].mount@
            &&& 0 <= i < s.file_outputs@.len() ==> lines[b + i] == "record: "@ + format_debug(
                s.file_outputs@[i].format,
            ) + " to "@ + s.file_outputs@[i].path@
            &&& 0 <= i < s.hls_outputs@.len() ==> {
                let (o, seconds) = s.hls_outputs@[i];
                let tail = o.directory@ + " ("@ + seconds@ + "s x "@ + dec(o.retention as nat)
                    + ")"@;
                &&& o.renditions@.len() == 0 ==> lines[d + i] == "hls: AAC segments to "@ + tail
                &&& o.renditions@.len() > 0 ==> lines[d + i] == "hls: "@ + dec(
                    o.renditions@.len(),
                ) + " ABR renditions to "@ + tail
            }
            &&& 0 <= i < s.soundcard_outputs@.len() ==> {
                &&& s.soundcard_outputs@[i].device matches Some(n) ==> lines[e + i]
                    == "soundcard: output to "@ + n@
                &&& s.soundcard_outputs@[i].device is None ==> lines[e + i]
                    == "soundcard: output to "@ + "(default)"@
            }
        }),
{
    let lines = summary_lines(s, false);
    let forced = summary_lines(s, true);
    let a = 3 + harbor_lines(s).len() + control_lines(s).len() + s.custom_commands@.len();
    assert(forced.take(a as int) =~= lines.take(a as int));
    if 0 <= i < s.hls_outputs@.len() {
        let (o, seconds) = s.hls_outputs@[i];
        let tail = o.directory@ + " ("@ + seconds@ + "s x "@ + dec(o.retention as nat) + ")"@;
        let front = if o.renditions@.len() == 0 {
            "hls: AAC segments to "@
        } else {
            "hls: "@ + dec(o.renditions@.len()) + " ABR renditions to "@
        };
        lemma_tail(
            front,
            o.directory@,
            " ("@,
            seconds@,
            "s x "@,
            dec(o.retention as nat),
            ")"@,
        );
        assert(hls_line(s.hls_outputs@[i]) == front + tail);
    }
}

proof fn lemma_tail(
    p: Seq<char>,
    a: Seq<char>,
    b: Seq<char>,
    c: Seq<char>,
    d: Seq<char>,
    e: Seq<char>,
    f: Seq<char>,
)
    ensures
        p + a + b + c + d + e + f == p + (a + b + c + d + e + f),
{
    assert(p + a + b + c + d + e + f =~= p + (a + b + c + d + e + f));
}

/// The lines of the summary can be told apart again.
pub proof fn law_lines_are_joined(lines: Seq<Seq<char>>)
    requires
        lines.len() > 0,
        forall|i: int, k: int|
            0 <= i < lines.len() && 0 <= k < lines[i].len() ==> #[trigger] lines[i][k] != '\n',
    ensures
        crate::text::split_all(joined_lines(lines), '\n') == lines,
{
    lemma_joined(lines);
    crate::text::law_split_reads_back(lines, '\n');
}

proof fn lemma_joined(lines: Seq<Seq<char>>)
    ensures
        joined_lines(lines) == crate::text::joined_by(lines, '\n'),
    decreases lines.len(),
{
    reveal_strlit("\n");
    assert("\n"@ =~= seq!['\n']);
    if lines.len() > 1 {
        lemma_joined(lines.drop_last());
    }
}

/// The program fails with the failure of the first output that failed, and
/// ends well where none did.
pub proof fn law_first_failure(endings: Seq<Ending>)
    ensures
        match first_failure(endings) {
            Some(e) => exists|k: int|
                0 <= k < endings.len() && (#[trigger] endings[k] matches Ending::Failed(m) && m@
                    == e) && forall|j: int| 0 <= j < k ==> !(#[trigger] endings[j] is Failed),
            None => forall|j: int| 0 <= j < endings.len() ==> !(#[trigger] endings[j] is Failed),
        },
    decreases endings.len(),
{
    if endings.len() > 0 {
        let front = endings.drop_last();
        law_first_failure(front);
        match first_failure(front) {
            Some(e) => {
                let k = choose|k: int|
                    0 <= k < front.len() && (#[trigger] front[k] matches Ending::Failed(m) && m@
                        == e) && forall|j: int| 0 <= j < k ==> !(#[trigger] front[j] is Failed);
                assert(endings[k] == front[k]);
                assert forall|j: int| 0 <= j < k implies !(#[trigger] endings[j] is Failed) by {
                    assert(endings[j] == front[j]);
                }
            },
            None => {
                assert forall|j: int| 0 <= j < front.len() implies !(#[trigger] endings[j]
                    is Failed) by {
                    assert(endings[j] == front[j]);
                }
                assert(endings[endings.len() - 1] == endings.last());
            },
        }
    }
}

} // verus!
