//! The messages that the lobby and its clients exchange, and what the
//! transport keeps of one client's connection.

use vstd::prelude::*;
use crate::lobby::Connect;
use crate::lobby::ConnectResponse;
use crate::lobby::Disconnect;
use crate::lobby::RecvClientMessage;

verus! {

/// The text of an optional string.
pub open spec fn opt_text(s: Option<String>) -> Option<Seq<char>> {
    match s {
        Some(t) => Some(t@),
        None => None,
    }
}

/// The text of an optional string slice.
pub open spec fn opt_str(s: Option<&str>) -> Option<Seq<char>> {
    match s {
        Some(t) => Some(t@),
        None => None,
    }
}

/// One client as a roster shows it.
#[derive(Debug, PartialEq, Eq)]
pub struct RosterClient {
    pub name: String,
    pub peer: Option<String>,
    pub user_agent: Option<String>,
}

/// The contents of a [`RosterClient`].
pub struct RosterClientView {
    pub name: Seq<char>,
    pub peer: Option<Seq<char>>,
    pub user_agent: Option<Seq<char>>,
}

impl View for RosterClient {
    type V = RosterClientView;

    open spec fn view(&self) -> RosterClientView {
        RosterClientView {
            name: self.name@,
            peer: opt_text(self.peer),
            user_agent: opt_text(self.user_agent),
        }
    }
}

/// The contents of a sequence of roster entries.
pub open spec fn entries_view(entries: Seq<RosterClient>) -> Seq<RosterClientView> {
    entries.map_values(|c: RosterClient| c@)
}

/// Tells a client its own name and which clients are connected.
#[derive(Debug, PartialEq, Eq)]
pub struct Roster {
    pub name: String,
    pub clients: Vec<RosterClient>,
}

/// The contents of a [`Roster`].
pub struct RosterView {
    pub name: Seq<char>,
    pub clients: Seq<RosterClientView>,
}

impl View for Roster {
    type V = RosterView;

    open spec fn view(&self) -> RosterView {
        RosterView { name: self.name@, clients: entries_view(self.clients@) }
    }
}

/// A payload that one client sends to another through the broker. On the way
/// in, `name` is the client it is meant for; on the way out, the client it
/// came from.
#[derive(Debug, PartialEq, Eq)]
pub struct Relay {
    pub name: String,
    pub json: String,
}

/// The contents of a [`Relay`].
pub struct RelayView {
    pub name: Seq<char>,
    pub json: Seq<char>,
}

impl View for Relay {
    type V = RelayView;

    open spec fn view(&self) -> RelayView {
        RelayView { name: self.name@, json: self.json@ }
    }
}

/// Every message that passes between a client and the broker.
#[derive(Debug, PartialEq, Eq)]
pub enum ClientMessage {
    Relay(Relay),
    Roster(Roster),
}

/// The contents of a [`ClientMessage`].
pub enum ClientMessageView {
    Relay(RelayView),
    Roster(RosterView),
}

impl View for ClientMessage {
    type V = ClientMessageView;

    open spec fn view(&self) -> ClientMessageView {
        match *self {
            ClientMessage::Relay(relay) => ClientMessageView::Relay(relay@),
            ClientMessage::Roster(roster) => ClientMessageView::Roster(roster@),
        }
    }
}

/// A single client connection as its transport tracks it.
#[derive(Debug, PartialEq, Eq)]
pub struct Client {
    /// The name that the lobby gave to the client, once it has one.
    pub name: Option<String>,
    /// The IP address and port number of the client.
    pub peer: Option<String>,
    /// The client's user agent.
    pub user_agent: Option<String>,
}

/// What the transport does once the lobby has answered a connection request.
#[derive(Debug, PartialEq, Eq)]
pub enum Started {
    /// The client was taken in: it is sent this message, its first roster.
    Send(ClientMessage),
    /// The client was turned away: its connection is closed.
    Stop,
}

/// The contents of a [`Started`].
pub enum StartedView {
    Send(ClientMessageView),
    Stop,
}

impl View for Started {
    type V = StartedView;

    open spec fn view(&self) -> StartedView {
        match *self {
            Started::Send(message) => StartedView::Send(message@),
            Started::Stop => StartedView::Stop,
        }
    }
}

impl Client {
    /// A client that has no name yet.
    pub fn new(peer: Option<String>, user_agent: Option<String>) -> (client: Client)
        ensures
            client.name is None,
            client.peer == peer,
            client.user_agent == user_agent,
    {
        Client { name: None, peer, user_agent }
    }

    /// The name under which the client appears in diagnostics.
    pub fn display_name(&self) -> (text: &str)
        ensures
            text@ == match self.name {
                Some(name) => name@,
                None => "none"@,
            },
    {
        match &self.name {
            Some(name) => name.as_str(),
            None => "none",
        }
    }

    /// The request by which the client, reached through `addr`, asks the
    /// lobby to take it in.
    pub fn request<H>(&self, addr: H) -> (msg: Connect<H>)
        ensures
            msg.addr == addr,
            opt_text(msg.peer) == opt_text(self.peer),
            opt_text(msg.user_agent) == opt_text(self.user_agent),
    {
        Connect { addr, peer: self.peer.clone(), user_agent: self.user_agent.clone() }
    }

    /// Takes the lobby's answer to the client's request; `None` stands for
    /// a request that never reached the lobby. With a roster the client
    /// takes the name on it and is sent the roster; without one it stops.
    pub fn started(&mut self, answer: Option<ConnectResponse>) -> (step: Started)
        ensures
            final(self).peer == old(self).peer,
            final(self).user_agent == old(self).user_agent,
            match answer {
                Some(ConnectResponse { roster: Some(roster) }) => {
                    &&& opt_text(final(self).name) == Some(roster.name@)
                    &&& step@ == StartedView::Send(ClientMessageView::Roster(roster@))
                },
                _ => final(self).name == old(self).name && step@ == StartedView::Stop,
            },
    {
        match answer {
            Some(ConnectResponse { roster: Some(roster) }) => {
                self.name = Some(roster.name.clone());
                Started::Send(ClientMessage::Roster(roster))
            },
            _ => Started::Stop,
        }
    }

    /// Ends the connection: the client gives up its name, and where it had
    /// one, the lobby is to be told that the client of that name has left.
    pub fn stopping(&mut self) -> (notice: Option<Disconnect>)
        ensures
            final(self).name is None,
            final(self).peer == old(self).peer,
            final(self).user_agent == old(self).user_agent,
            match notice {
                Some(msg) => opt_text(old(self).name) == Some(msg.name@),
                None => old(self).name is None,
            },
    {
        match self.name.take() {
            Some(name) => Some(Disconnect { name }),
            None => None,
        }
    }

    /// Decides what goes to the lobby when a text frame has come in from
    /// the client; `parsed` is the message that the frame held, or `None`
    /// where it held none. A message from a client that has a name is
    /// passed on under that name; anything else is dropped.
    pub fn handle(&self, parsed: Option<ClientMessage>) -> (envelope: Option<RecvClientMessage>)
        ensures
            match (parsed, self.name) {
                (Some(message), Some(name)) => {
                    &&& envelope matches Some(msg)
                    &&& msg.name@ == name@
                    &&& msg.message == message
                },
                _ => envelope is None,
            },
    {
        match (parsed, &self.name) {
            (Some(message), Some(name)) => Some(
                RecvClientMessage { name: name.clone(), message },
            ),
            _ => None,
        }
    }
}

} // verus!
