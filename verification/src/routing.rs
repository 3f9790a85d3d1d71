//! The messages that the lobby hands out for delivery, and what it makes of
//! the messages that come in.

use vstd::prelude::*;
use crate::client::ClientMessage;
use crate::client::ClientMessageView;
use crate::client::RelayView;
use crate::lobby::RecvClientMessage;
use crate::lobby::Table;
use crate::roster::is_roster;

verus! {

/// A message on its way to the connected client named `to`.
#[derive(Debug, PartialEq, Eq)]
pub struct Delivery {
    pub to: String,
    pub message: ClientMessage,
}

/// The contents of a [`Delivery`].
pub struct DeliveryView {
    pub to: Seq<char>,
    pub message: ClientMessageView,
}

impl View for Delivery {
    type V = DeliveryView;

    open spec fn view(&self) -> DeliveryView {
        DeliveryView { to: self.to@, message: self.message@ }
    }
}

/// The contents of a sequence of deliveries.
pub open spec fn deliveries_view(deliveries: Seq<Delivery>) -> Seq<DeliveryView> {
    deliveries.map_values(|d: Delivery| d@)
}

/// Some delivery goes to the client `name`.
pub open spec fn reaches(deliveries: Seq<DeliveryView>, name: Seq<char>) -> bool {
    exists|i: int| 0 <= i < deliveries.len() && (#[trigger] deliveries[i]).to == name
}

/// `deliveries` is one broadcast of the roster of `table`: every client of
/// the table but `except` gets exactly one delivery, which holds the roster
/// made for that client, and nobody else gets one.
pub open spec fn is_broadcast<H>(
    deliveries: Seq<DeliveryView>,
    table: Table<H>,
    except: Option<Seq<char>>,
) -> bool {
    &&& forall|i: int|
        0 <= i < deliveries.len() ==> {
            &&& table.contains_key((#[trigger] deliveries[i]).to)
            &&& except != Some(deliveries[i].to)
            &&& deliveries[i].message matches ClientMessageView::Roster(roster)
            &&& is_roster(roster, deliveries[i].to, table)
        }
    &&& forall|i: int, j: int|
        0 <= i < j < deliveries.len() ==> (#[trigger] deliveries[i]).to
            != (#[trigger] deliveries[j]).to
    &&& forall|name: Seq<char>|
        table.contains_key(name) && except != Some(name) ==> reaches(deliveries, name)
}

/// What becomes of a message that a client sent to the lobby.
#[derive(Debug, PartialEq, Eq)]
pub enum Routing {
    /// The message goes on to a connected client.
    Forward(Delivery),
    /// The message is a relay to a client that is not connected: it is
    /// dropped.
    UnknownClient(String),
    /// The message is none that a client may send: it is dropped.
    Unexpected(RecvClientMessage),
}

/// The contents of a [`Routing`].
pub enum RoutingView {
    Forward(DeliveryView),
    UnknownClient(Seq<char>),
    Unexpected(Seq<char>, ClientMessageView),
}

impl View for Routing {
    type V = RoutingView;

    open spec fn view(&self) -> RoutingView {
        match *self {
            Routing::Forward(delivery) => RoutingView::Forward(delivery@),
            Routing::UnknownClient(name) => RoutingView::UnknownClient(name@),
            Routing::Unexpected(msg) => RoutingView::Unexpected(msg.name@, msg.message@),
        }
    }
}

/// What becomes of `message`, sent by the client `sender`, in a lobby with
/// the clients of `table`. A relay to a connected client goes on to that
/// client with the sender's name in place of the receiver's and the payload
/// as it came.
pub open spec fn routing_of<H>(
    table: Table<H>,
    sender: Seq<char>,
    message: ClientMessageView,
) -> RoutingView {
    match message {
        ClientMessageView::Relay(relay) => if table.contains_key(relay.name) {
            RoutingView::Forward(
                DeliveryView {
                    to: relay.name,
                    message: ClientMessageView::Relay(
                        RelayView { name: sender, json: relay.json },
                    ),
                },
            )
        } else {
            RoutingView::UnknownClient(relay.name)
        },
        ClientMessageView::Roster(_) => RoutingView::Unexpected(sender, message),
    }
}

/// The number of clients of `table` other than `except`.
pub open spec fn audience<H>(table: Table<H>, except: Option<Seq<char>>) -> int {
    if except matches Some(name) && table.contains_key(name) {
        table.len() - 1
    } else {
        table.len() as int
    }
}

} // verus!
