//! The broker of a signalling relay: it takes connections in, gives each one
//! a unique readable name, keeps the roster of connected clients, and routes
//! opaque payloads between clients by name.
//!
//! The broker performs no I/O. Every operation on the [`lobby::Lobby`] returns
//! the messages that are to be delivered, each addressed to one connected
//! client, and the transport around the library sends them.
//!
//! - [`lobby`]: the table of connected clients and the operations on it.
//! - [`roster`], [`routing`]: what the lobby's rosters and deliveries are.
//! - [`laws`]: what holds of the lobby's operations taken together.
//! - [`names`]: the generator of names.
//! - [`order`]: the order of names, by which rosters are sorted.
//! - [`client`]: the messages, and the state of one client's connection.
//! - [`agent`]: the summary of a client's user agent.

pub mod agent;
pub mod client;
pub mod laws;
pub mod lobby;
pub mod names;
pub mod order;
pub mod roster;
pub mod routing;
