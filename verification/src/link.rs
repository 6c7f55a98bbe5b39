//! The connection of a streaming output: sending, and reconnecting with a
//! fresh encoder after a failure.

use vstd::prelude::*;

verus! {

/// What a connection is doing.
#[derive(Clone, Copy, Debug, PartialEq, Eq, Structural)]
pub enum LinkStage {
    /// Nothing: the last payload was sent or dropped.
    Idle,
    /// Sending the payload.
    Sending,
    /// Reconnecting: about to look whether shutdown was requested.
    Polling,
    /// Reconnecting: creating an encoder and connecting.
    Connecting,
    /// Reconnecting: waiting before the next attempt.
    Sleeping,
}

/// What came of it.
#[derive(Clone, Copy, Debug, PartialEq, Eq, Structural)]
pub enum LinkEvent {
    /// The payload was sent.
    Sent,
    /// The payload could not be sent.
    SendFailed,
    /// Whether shutdown was requested.
    Shutdown(bool),
    /// The encoder could not be created.
    NoEncoder,
    /// The encoder was created, and the server refused the connection.
    Refused,
    /// The encoder was created and the connection stands.
    Connected,
    /// The wait is over.
    Slept,
}

/// The state of a connection.
pub struct LinkState {
    pub stage: LinkStage,
    pub connected: bool,
    pub encoder: bool,
}

/// The connection is torn down and the encoder with it; a new one is wanted.
pub open spec fn reconnecting(s: LinkState) -> LinkState {
    LinkState { stage: LinkStage::Polling, connected: false, encoder: false }
}

/// The state once a payload is handed over: an empty one is nothing to send;
/// without a connection it is dropped and the link reconnects.
pub open spec fn link_send(s: LinkState, empty: bool) -> LinkState {
    if empty {
        LinkState { stage: LinkStage::Idle, ..s }
    } else if s.connected {
        LinkState { stage: LinkStage::Sending, ..s }
    } else {
        reconnecting(s)
    }
}

/// The state after an event. What does not belong to the stage is ignored.
pub open spec fn link_after(s: LinkState, e: LinkEvent) -> LinkState {
    match (s.stage, e) {
        (LinkStage::Sending, LinkEvent::Sent) => LinkState { stage: LinkStage::Idle, ..s },
        (LinkStage::Sending, LinkEvent::SendFailed) => reconnecting(s),
        (LinkStage::Polling, LinkEvent::Shutdown(b)) => LinkState {
            stage: if b {
                LinkStage::Idle
            } else {
                LinkStage::Connecting
            },
            ..s
        },
        (LinkStage::Connecting, LinkEvent::NoEncoder) => LinkState {
            stage: LinkStage::Sleeping,
            ..s
        },
        (LinkStage::Connecting, LinkEvent::Refused) => LinkState {
            stage: LinkStage::Sleeping,
            encoder: true,
            ..s
        },
        (LinkStage::Connecting, LinkEvent::Connected) => LinkState {
            stage: LinkStage::Idle,
            encoder: true,
            connected: true,
        },
        (LinkStage::Sleeping, LinkEvent::Slept) => LinkState { stage: LinkStage::Polling, ..s },
        _ => s,
    }
}

/// A connection that reconnects by itself. The caller performs what the stage
/// says and reports what came of it.
#[derive(Clone, Copy, Debug)]
pub struct Link {
    stage: LinkStage,
    connected: bool,
    encoder: bool,
}

impl View for Link {
    type V = LinkState;

    closed spec fn view(&self) -> LinkState {
        LinkState { stage: self.stage, connected: self.connected, encoder: self.encoder }
    }
}

impl Link {
    /// The link of an output whose initial attempt to connect ended so.
    pub fn new(connected: bool, encoder: bool) -> (l: Link)
        ensures
            l@ == (LinkState { stage: LinkStage::Idle, connected, encoder }),
    {
        Link { stage: LinkStage::Idle, connected, encoder }
    }

    /// What to do now.
    pub fn stage(&self) -> (s: LinkStage)
        ensures
            s == self@.stage,
    {
        self.stage
    }

    /// Whether there is an encoder.
    pub fn has_encoder(&self) -> (b: bool)
        ensures
            b == self@.encoder,
    {
        self.encoder
    }

    fn reconnect(&mut self)
        ensures
            final(self)@ == reconnecting(old(self)@),
    {
        self.connected = false;
        self.encoder = false;
        self.stage = LinkStage::Polling;
    }

    /// Takes a payload, or drops it where there is no connection.
    pub fn send(&mut self, empty: bool)
        ensures
            final(self)@ == link_send(old(self)@, empty),
    {
        if empty {
            self.stage = LinkStage::Idle;
        } else if self.connected {
            self.stage = LinkStage::Sending;
        } else {
            self.reconnect();
        }
    }

    /// Takes what came of the last stage.
    pub fn on_event(&mut self, e: LinkEvent)
        ensures
            final(self)@ == link_after(old(self)@, e),
    {
        match self.stage {
            LinkStage::Idle => {},
            LinkStage::Sending => match e {
                LinkEvent::Sent => {
                    self.stage = LinkStage::Idle;
                },
                LinkEvent::SendFailed => self.reconnect(),
                _ => {},
            },
            LinkStage::Polling => match e {
                LinkEvent::Shutdown(b) => {
                    self.stage = if b { LinkStage::Idle } else { LinkStage::Connecting };
                },
                _ => {},
            },
            LinkStage::Connecting => match e {
                LinkEvent::NoEncoder => {
                    self.stage = LinkStage::Sleeping;
                },
                LinkEvent::Refused => {
                    self.encoder = true;
                    self.stage = LinkStage::Sleeping;
                },
                LinkEvent::Connected => {
                    self.encoder = true;
                    self.connected = true;
                    self.stage = LinkStage::Idle;
                },
                _ => {},
            },
            LinkStage::Sleeping => match e {
                LinkEvent::Slept => {
                    self.stage = LinkStage::Polling;
                },
                _ => {},
            },
        }
    }
}

// ---------------------------------------------------------------------------
// Laws
// ---------------------------------------------------------------------------

/// A connection has an encoder of its own, a payload is only sent over a
/// connection, and reconnecting goes on without one.
pub open spec fn sound_link(s: LinkState) -> bool {
    &&& s.connected ==> s.encoder
    &&& s.stage == LinkStage::Sending ==> s.connected
    &&& (s.stage == LinkStage::Polling || s.stage == LinkStage::Connecting || s.stage
        == LinkStage::Sleeping) ==> !s.connected
}

/// Every step keeps the link sound: in particular nothing is ever sent over a
/// connection with the encoder of an earlier one, since a failed send discards
/// both.
pub proof fn law_link_stays_sound(s: LinkState, empty: bool, e: LinkEvent)
    requires
        sound_link(s),
    ensures
        s.stage == LinkStage::Idle ==> sound_link(link_send(s, empty)),
        sound_link(link_after(s, e)),
        e == LinkEvent::SendFailed && s.stage == LinkStage::Sending ==> !link_after(s, e).encoder,
{
}

/// Requested shutdown ends reconnecting at the next look, without another
/// attempt.
pub proof fn law_shutdown_ends_reconnecting(s: LinkState)
    requires
        s.stage == LinkStage::Polling,
    ensures
        link_after(s, LinkEvent::Shutdown(true)).stage == LinkStage::Idle,
        link_after(s, LinkEvent::Shutdown(false)).stage == LinkStage::Connecting,
{
}

/// A payload is sent over the connection while there is one, and the
/// connection and its encoder outlive it; a payload that could not be sent
/// takes both down. Without a connection the payload is dropped and a new
/// connection is sought. An empty payload changes nothing.
pub proof fn law_payloads(s: LinkState)
    ensures
        link_send(s, true).connected == s.connected && link_send(s, true).encoder == s.encoder,
        link_send(s, true).stage == LinkStage::Idle,
        s.connected ==> link_send(s, false).stage == LinkStage::Sending && link_send(
            s,
            false,
        ).connected && link_send(s, false).encoder == s.encoder,
        !s.connected ==> link_send(s, false).stage == LinkStage::Polling && !link_send(
            s,
            false,
        ).encoder && !link_send(s, false).connected,
        s.stage == LinkStage::Sending ==> {
            let t = link_after(s, LinkEvent::Sent);
            let f = link_after(s, LinkEvent::SendFailed);
            &&& t.stage == LinkStage::Idle && t.connected == s.connected && t.encoder == s.encoder
            &&& f.stage == LinkStage::Polling && !f.connected && !f.encoder
        },
{
}

/// A lost connection is sought until it stands: every failed attempt is
/// followed by a wait and another look at the shutdown flag, and only a
/// connection that the server accepted counts as one, with a new encoder.
pub proof fn law_reconnects_until_connected(s: LinkState, e: LinkEvent)
    ensures
        s.stage == LinkStage::Connecting ==> {
            let ok = link_after(s, LinkEvent::Connected);
            let refused = link_after(s, LinkEvent::Refused);
            let none = link_after(s, LinkEvent::NoEncoder);
            &&& ok.stage == LinkStage::Idle && ok.connected && ok.encoder
            &&& refused.stage == LinkStage::Sleeping && refused.connected == s.connected
            &&& none.stage == LinkStage::Sleeping && none.connected == s.connected
        },
        s.stage == LinkStage::Sleeping ==> link_after(s, LinkEvent::Slept).stage
            == LinkStage::Polling,
        link_after(s, e).connected && !s.connected ==> s.stage == LinkStage::Connecting && e
            == LinkEvent::Connected,
        link_after(s, e).stage == LinkStage::Idle && s.stage != LinkStage::Idle ==> {
            ||| s.stage == LinkStage::Sending && e == LinkEvent::Sent
            ||| s.stage == LinkStage::Polling && e == LinkEvent::Shutdown(true)
            ||| s.stage == LinkStage::Connecting && e == LinkEvent::Connected
        },
        s.stage == LinkStage::Idle ==> link_after(s, e) == s,
{
}

} // verus!
