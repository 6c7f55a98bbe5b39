//! The streaming output: titles, and the course of encoding and sending.

use vstd::prelude::*;
use crate::config::{OutputFormat, OutputProtocol};
use crate::link::{link_after, link_send, Link, LinkEvent, LinkStage, LinkState};
use crate::text::{owned, same};

verus! {

/// The name of the encoding in messages.
pub open spec fn format_text(protocol: OutputProtocol, format: OutputFormat) -> Seq<char> {
    match format {
        OutputFormat::Mp3 => "MP3"@,
        OutputFormat::Opus => "Ogg/Opus"@,
        OutputFormat::Aac => if protocol == OutputProtocol::Icecast {
            "AAC"@
        } else {
            "AAC+ (HE-AAC)"@
        },
    }
}

/// The name of the encoding in messages.
pub fn format_name(protocol: OutputProtocol, format: OutputFormat) -> (s: &'static str)
    ensures
        s@ == format_text(protocol, format),
{
    match format {
        OutputFormat::Mp3 => "MP3",
        OutputFormat::Opus => "Ogg/Opus",
        OutputFormat::Aac => if protocol == OutputProtocol::Icecast {
            "AAC"
        } else {
            "AAC+ (HE-AAC)"
        },
    }
}

/// The encoder is the HE-AAC one.
pub open spec fn is_he_aac(protocol: OutputProtocol, format: OutputFormat) -> bool {
    protocol == OutputProtocol::ShoutcastV2 && format == OutputFormat::Aac
}

/// Whether the encoder is the HE-AAC one: SHOUTcast v2 carries AAC in that
/// form only.
pub fn wants_he_aac(protocol: OutputProtocol, format: OutputFormat) -> (b: bool)
    ensures
        b == is_he_aac(protocol, format),
{
    protocol == OutputProtocol::ShoutcastV2 && format == OutputFormat::Aac
}

/// How a title reaches the listeners.
#[derive(Clone, Copy, Debug, PartialEq, Eq, Structural)]
pub enum TitleRoute {
    /// In the tags of the stream itself.
    InStream,
    /// By a request to Icecast's `/admin/metadata`.
    Admin,
    /// By a request to SHOUTcast's `/admin.cgi`.
    AdminCgi,
    /// Not at all: ADTS has no titles.
    Nowhere,
}

/// How a title reaches the listeners of a stream.
pub open spec fn title_route(protocol: OutputProtocol, format: OutputFormat) -> TitleRoute {
    match protocol {
        OutputProtocol::Icecast => match format {
            OutputFormat::Opus => TitleRoute::InStream,
            OutputFormat::Mp3 => TitleRoute::Admin,
            OutputFormat::Aac => TitleRoute::Nowhere,
        },
        _ => TitleRoute::AdminCgi,
    }
}

fn route_of(protocol: OutputProtocol, format: OutputFormat) -> (r: TitleRoute)
    ensures
        r == title_route(protocol, format),
{
    match protocol {
        OutputProtocol::Icecast => match format {
            OutputFormat::Opus => TitleRoute::InStream,
            OutputFormat::Mp3 => TitleRoute::Admin,
            OutputFormat::Aac => TitleRoute::Nowhere,
        },
        _ => TitleRoute::AdminCgi,
    }
}

/// What the output does while its link is idle.
#[derive(Clone, Copy, Debug, PartialEq, Eq, Structural)]
pub enum PumpPhase {
    /// Wait for the next frame.
    Receive,
    /// Give the encoder the new title, and hand over the tags it returns.
    SetTitle,
    /// Encode the frame, and hand over the bytes.
    Encode,
    /// Flush the encoder, and hand over its tail.
    Flush,
    /// Close the connection: the stream is over.
    Close,
}

/// What came of it.
pub enum PumpEvent<'a> {
    /// A frame with its label.
    Frame(Option<&'a str>),
    /// There are no more frames.
    Ended,
    /// The encoder returned bytes, or none.
    Bytes { empty: bool },
    /// Something of the link.
    Link(LinkEvent),
}

/// The state of the output.
pub struct PumpState {
    pub phase: PumpPhase,
    pub link: LinkState,
    pub title: Seq<char>,
    pub route: TitleRoute,
}

/// The title of a frame.
pub open spec fn frame_title(label: Option<&str>) -> Seq<char> {
    match label {
        Some(l) => l@,
        None => Seq::empty(),
    }
}

/// The title is new, and this is how it goes out.
pub open spec fn news(s: PumpState, title: Seq<char>) -> TitleRoute {
    if title == s.title {
        TitleRoute::Nowhere
    } else {
        s.route
    }
}

/// How the title that an event brings goes out.
pub open spec fn announced(s: PumpState, e: PumpEvent) -> TitleRoute {
    match e {
        PumpEvent::Frame(label) => if s.link.stage == LinkStage::Idle && s.phase
            == PumpPhase::Receive {
            news(s, frame_title(label))
        } else {
            TitleRoute::Nowhere
        },
        _ => TitleRoute::Nowhere,
    }
}

/// The state once a payload is handed over, with `phase` to come.
pub open spec fn handed_over(s: PumpState, empty: bool, phase: PumpPhase) -> PumpState {
    PumpState { phase, link: link_send(s.link, empty), ..s }
}

/// The state after an event. While the link is busy only its events count. A
/// frame that finds no encoder, because shutdown came during a reconnect, is
/// dropped.
pub open spec fn pump_after(s: PumpState, e: PumpEvent) -> PumpState {
    if s.link.stage != LinkStage::Idle {
        match e {
            PumpEvent::Link(l) => {
                let link = link_after(s.link, l);
                PumpState {
                    link,
                    phase: if s.phase == PumpPhase::Encode && link.stage == LinkStage::Idle
                        && !link.encoder {
                        PumpPhase::Receive
                    } else {
                        s.phase
                    },
                    ..s
                }
            },
            _ => s,
        }
    } else {
        match (s.phase, e) {
            (PumpPhase::Receive, PumpEvent::Frame(label)) => PumpState {
                phase: if !s.link.encoder {
                    PumpPhase::Receive
                } else if news(s, frame_title(label)) == TitleRoute::InStream {
                    PumpPhase::SetTitle
                } else {
                    PumpPhase::Encode
                },
                title: frame_title(label),
                ..s
            },
            (PumpPhase::Receive, PumpEvent::Ended) => PumpState {
                phase: if s.link.encoder {
                    PumpPhase::Flush
                } else {
                    PumpPhase::Close
                },
                ..s
            },
            (PumpPhase::SetTitle, PumpEvent::Bytes { empty }) => handed_over(
                s,
                empty,
                PumpPhase::Encode,
            ),
            (PumpPhase::Encode, PumpEvent::Bytes { empty }) => handed_over(
                s,
                empty,
                PumpPhase::Receive,
            ),
            (PumpPhase::Flush, PumpEvent::Bytes { empty }) => handed_over(
                s,
                empty,
                PumpPhase::Close,
            ),
            _ => s,
        }
    }
}

/// Decides, step by step, what the streaming output does. The caller performs
/// the stage of the link, or the phase where the link is idle, and reports
/// what came of it.
pub struct IcecastPump {
    phase: PumpPhase,
    link: Link,
    title: String,
    route: TitleRoute,
}

impl View for IcecastPump {
    type V = PumpState;

    closed spec fn view(&self) -> PumpState {
        PumpState {
            phase: self.phase,
            link: self.link@,
            title: self.title@,
            route: self.route,
        }
    }
}

impl IcecastPump {
    /// The output once its initial attempt to connect is over.
    pub fn new(
        protocol: OutputProtocol,
        format: OutputFormat,
        connected: bool,
        encoder: bool,
    ) -> (p: IcecastPump)
        ensures
            p@.phase == PumpPhase::Receive,
            p@.link == (LinkState { stage: LinkStage::Idle, connected, encoder }),
            p@.title == Seq::<char>::empty(),
            p@.route == title_route(protocol, format),
    {
        IcecastPump {
            phase: PumpPhase::Receive,
            link: Link::new(connected, encoder),
            title: String::new(),
            route: route_of(protocol, format),
        }
    }

    /// What the link does; where it is idle, the phase says what to do.
    pub fn stage(&self) -> (s: LinkStage)
        ensures
            s == self@.link.stage,
    {
        self.link.stage()
    }

    /// What to do while the link is idle.
    pub fn phase(&self) -> (p: PumpPhase)
        ensures
            p == self@.phase,
    {
        self.phase
    }

    /// The title of the last frame.
    pub fn title(&self) -> (s: &str)
        ensures
            s@ == self@.title,
    {
        self.title.as_str()
    }

    /// Takes what came of the last step; says how a new title goes out.
    pub fn on_event(&mut self, e: PumpEvent) -> (r: TitleRoute)
        ensures
            final(self)@ == pump_after(old(self)@, e),
            r == announced(old(self)@, e),
    {
        if self.link.stage() != LinkStage::Idle {
            match e {
                PumpEvent::Link(l) => {
                    self.link.on_event(l);
                    if self.phase == PumpPhase::Encode && self.link.stage() == LinkStage::Idle
                        && !self.link.has_encoder() {
                        self.phase = PumpPhase::Receive;
                    }
                },
                _ => {},
            }
            return TitleRoute::Nowhere;
        }
        match self.phase {
            PumpPhase::Receive => match e {
                PumpEvent::Frame(label) => {
                    let title = match label {
                        Some(l) => owned(l),
                        None => String::new(),
                    };
                    let route = if same(title.as_str(), self.title.as_str()) {
                        TitleRoute::Nowhere
                    } else {
                        self.route
                    };
                    self.title = title;
                    if self.link.has_encoder() {
                        self.phase = if route == TitleRoute::InStream {
                            PumpPhase::SetTitle
                        } else {
                            PumpPhase::Encode
                        };
                    }
                    return route;
                },
                PumpEvent::Ended => {
                    self.phase = if self.link.has_encoder() {
                        PumpPhase::Flush
                    } else {
                        PumpPhase::Close
                    };
                },
                _ => {},
            },
            PumpPhase::SetTitle => match e {
                PumpEvent::Bytes { empty } => {
                    self.phase = PumpPhase::Encode;
                    self.link.send(empty);
                },
                _ => {},
            },
            PumpPhase::Encode => match e {
                PumpEvent::Bytes { empty } => {
                    self.phase = PumpPhase::Receive;
                    self.link.send(empty);
                },
                _ => {},
            },
            PumpPhase::Flush => match e {
                PumpEvent::Bytes { empty } => {
                    self.phase = PumpPhase::Close;
                    self.link.send(empty);
                },
                _ => {},
            },
            PumpPhase::Close => {},
        }
        TitleRoute::Nowhere
    }
}

/// What a recording does next.
#[derive(Clone, Copy, Debug, PartialEq, Eq, Structural)]
pub enum FilePhase {
    /// Wait for the next frame.
    Receive,
    /// Encode the frame, and write the bytes.
    Write,
    /// Flush the encoder, and write its tail.
    WriteTail,
    /// Close the file: the recording is complete.
    Close,
    /// Give up: a write failed.
    Fail,
}

/// What came of it.
#[derive(Clone, Copy, Debug, PartialEq, Eq, Structural)]
pub enum FileEvent {
    /// A frame, and whether shutdown was requested before it.
    Frame { shutdown: bool },
    /// There are no more frames.
    Ended,
    /// The bytes were written, or not.
    Written(bool),
}

/// What a recording does after an event: a frame behind a requested shutdown
/// is not written, and the tail of the encoder always is.
pub open spec fn file_after(p: FilePhase, e: FileEvent) -> FilePhase {
    match (p, e) {
        (FilePhase::Receive, FileEvent::Frame { shutdown }) => if shutdown {
            FilePhase::WriteTail
        } else {
            FilePhase::Write
        },
        (FilePhase::Receive, FileEvent::Ended) => FilePhase::WriteTail,
        (FilePhase::Write, FileEvent::Written(ok)) => if ok {
            FilePhase::Receive
        } else {
            FilePhase::Fail
        },
        (FilePhase::WriteTail, FileEvent::Written(ok)) => if ok {
            FilePhase::Close
        } else {
            FilePhase::Fail
        },
        _ => p,
    }
}

/// What a recording does after an event.
pub fn file_step(p: FilePhase, e: FileEvent) -> (next: FilePhase)
    ensures
        next == file_after(p, e),
{
    match p {
        FilePhase::Receive => match e {
            FileEvent::Frame { shutdown } => if shutdown {
                FilePhase::WriteTail
            } else {
                FilePhase::Write
            },
            FileEvent::Ended => FilePhase::WriteTail,
            FileEvent::Written(_) => p,
        },
        FilePhase::Write => match e {
            FileEvent::Written(ok) => if ok {
                FilePhase::Receive
            } else {
                FilePhase::Fail
            },
            _ => p,
        },
        FilePhase::WriteTail => match e {
            FileEvent::Written(ok) => if ok {
                FilePhase::Close
            } else {
                FilePhase::Fail
            },
            _ => p,
        },
        FilePhase::Close => p,
        FilePhase::Fail => p,
    }
}

// ---------------------------------------------------------------------------
// Laws
// ---------------------------------------------------------------------------

/// What holds of the output at every step: its link is sound, and it sets a
/// title, encodes or flushes only with an encoder.
pub open spec fn sound_pump(s: PumpState) -> bool {
    &&& crate::link::sound_link(s.link)
    &&& s.link.stage == LinkStage::Idle && (s.phase == PumpPhase::SetTitle || s.phase
        == PumpPhase::Encode || s.phase == PumpPhase::Flush) ==> s.link.encoder
    &&& s.link.stage != LinkStage::Idle ==> s.phase != PumpPhase::SetTitle && s.phase
        != PumpPhase::Flush
}

/// Every step keeps the output sound.
pub proof fn law_pump_stays_sound(s: PumpState, e: PumpEvent)
    requires
        sound_pump(s),
    ensures
        sound_pump(pump_after(s, e)),
{
}

/// A title that has not changed is not announced again.
pub proof fn law_titles_go_out_once(s: PumpState, label: Option<&str>)
    requires
        s.link.stage == LinkStage::Idle,
        s.phase == PumpPhase::Receive,
    ensures
        news(pump_after(s, PumpEvent::Frame(label)), frame_title(label)) == TitleRoute::Nowhere,
{
}

/// Titles go where the listeners of a stream look for them: into the tags of
/// Ogg/Opus, to the admin page of Icecast for MP3, to that of SHOUTcast
/// whatever the format, and nowhere for ADTS over Icecast. A new title goes
/// out with the first frame that carries it.
pub proof fn law_titles_reach_listeners(
    protocol: OutputProtocol,
    format: OutputFormat,
    s: PumpState,
    label: Option<&str>,
)
    ensures
        title_route(protocol, format) == TitleRoute::InStream <==> protocol
            == OutputProtocol::Icecast && format == OutputFormat::Opus,
        title_route(protocol, format) == TitleRoute::Admin <==> protocol == OutputProtocol::Icecast
            && format == OutputFormat::Mp3,
        title_route(protocol, format) == TitleRoute::AdminCgi <==> protocol
            != OutputProtocol::Icecast,
        is_he_aac(protocol, format) ==> format == OutputFormat::Aac && protocol
            == OutputProtocol::ShoutcastV2,
        protocol == OutputProtocol::ShoutcastV2 && format == OutputFormat::Aac ==> is_he_aac(
            protocol,
            format,
        ),
        s.link.stage == LinkStage::Idle && s.phase == PumpPhase::Receive ==> {
            let t = pump_after(s, PumpEvent::Frame(label));
            &&& label matches Some(l) ==> t.title == l@
            &&& label is None ==> t.title == Seq::<char>::empty()
            &&& t.title != s.title ==> announced(s, PumpEvent::Frame(label)) == s.route
            &&& t.title == s.title ==> announced(s, PumpEvent::Frame(label))
                == TitleRoute::Nowhere
        },
{
}

/// Every frame that finds an encoder is encoded, behind the tags of a new
/// title where those stand in the stream; what comes out is handed to the
/// link; at the end of the frames the tail of the encoder is sent, and then
/// the stream is closed.
pub proof fn law_frames_are_sent(s: PumpState, label: Option<&str>, empty: bool)
    requires
        s.link.stage == LinkStage::Idle,
    ensures
        s.phase == PumpPhase::Receive && s.link.encoder ==> {
            let t = pump_after(s, PumpEvent::Frame(label));
            &&& t.phase == PumpPhase::SetTitle || t.phase == PumpPhase::Encode
            &&& t.phase == PumpPhase::SetTitle <==> t.title != s.title && s.route
                == TitleRoute::InStream
            &&& t.link == s.link
            &&& pump_after(s, PumpEvent::Ended).phase == PumpPhase::Flush
        },
        s.phase == PumpPhase::Receive && !s.link.encoder ==> {
            &&& pump_after(s, PumpEvent::Frame(label)).phase == PumpPhase::Receive
            &&& pump_after(s, PumpEvent::Ended).phase == PumpPhase::Close
        },
        ({
            let t = pump_after(s, PumpEvent::Bytes { empty });
            &&& s.phase == PumpPhase::SetTitle ==> t.phase == PumpPhase::Encode
            &&& s.phase == PumpPhase::Encode ==> t.phase == PumpPhase::Receive
            &&& s.phase == PumpPhase::Flush ==> t.phase == PumpPhase::Close
            &&& s.phase == PumpPhase::SetTitle || s.phase == PumpPhase::Encode || s.phase
                == PumpPhase::Flush ==> {
                &&& !empty && s.link.connected ==> t.link.stage == LinkStage::Sending
                    && t.link.connected && t.link.encoder == s.link.encoder
                &&& !empty && !s.link.connected ==> t.link.stage == LinkStage::Polling
                &&& empty ==> t.link.stage == LinkStage::Idle && t.link.connected
                    == s.link.connected
            }
        }),
        s.phase == PumpPhase::Close ==> pump_after(s, PumpEvent::Bytes { empty }) == s
            && pump_after(s, PumpEvent::Ended) == s && pump_after(s, PumpEvent::Frame(label)) == s,
{
}

/// While the link is busy nothing but its own events moves the output; a frame
/// that waited for it is encoded with the encoder of the new connection, and
/// dropped where there is none.
pub proof fn law_output_waits_for_its_link(
    s: PumpState,
    label: Option<&str>,
    empty: bool,
    l: LinkEvent,
)
    requires
        s.link.stage != LinkStage::Idle,
    ensures
        pump_after(s, PumpEvent::Frame(label)) == s,
        pump_after(s, PumpEvent::Ended) == s,
        pump_after(s, PumpEvent::Bytes { empty }) == s,
        pump_after(s, PumpEvent::Link(l)).link == link_after(s.link, l),
        pump_after(s, PumpEvent::Link(l)).title == s.title && pump_after(
            s,
            PumpEvent::Link(l),
        ).route == s.route,
        pump_after(s, PumpEvent::Link(l)).phase != s.phase <==> s.phase == PumpPhase::Encode
            && link_after(s.link, l).stage == LinkStage::Idle && !link_after(s.link, l).encoder,
        pump_after(s, PumpEvent::Link(l)).phase != s.phase ==> pump_after(
            s,
            PumpEvent::Link(l),
        ).phase == PumpPhase::Receive,
{
}

/// A recording holds every frame up to the end or to a requested shutdown, and
/// then the tail of its encoder, without which it is never closed; a failed
/// write, and nothing else, fails it.
pub proof fn law_recordings_are_complete(p: FilePhase, e: FileEvent, shutdown: bool)
    ensures
        file_after(FilePhase::Receive, FileEvent::Frame { shutdown: false }) == FilePhase::Write,
        file_after(FilePhase::Receive, FileEvent::Frame { shutdown: true })
            == FilePhase::WriteTail,
        file_after(FilePhase::Receive, FileEvent::Ended) == FilePhase::WriteTail,
        file_after(FilePhase::Write, FileEvent::Written(true)) == FilePhase::Receive,
        file_after(FilePhase::WriteTail, FileEvent::Written(true)) == FilePhase::Close,
        p == FilePhase::Write || p == FilePhase::WriteTail ==> file_after(
            p,
            FileEvent::Written(false),
        ) == FilePhase::Fail,
        file_after(p, e) == FilePhase::Close && p != FilePhase::Close ==> p == FilePhase::WriteTail
            && e == FileEvent::Written(true),
        file_after(p, e) == FilePhase::Fail && p != FilePhase::Fail ==> e == FileEvent::Written(
            false,
        ),
{
}

/// The encoding is named after what the listeners get.
pub proof fn law_format_names(protocol: OutputProtocol, format: OutputFormat)
    ensures
        format == OutputFormat::Mp3 ==> format_text(protocol, format) == "MP3"@,
        format == OutputFormat::Opus ==> format_text(protocol, format) == "Ogg/Opus"@,
        format == OutputFormat::Aac && protocol == OutputProtocol::Icecast ==> format_text(
            protocol,
            format,
        ) == "AAC"@,
        format == OutputFormat::Aac && protocol != OutputProtocol::Icecast ==> format_text(
            protocol,
            format,
        ) == "AAC+ (HE-AAC)"@,
{
}

} // verus!
