//! The lobby keeps the table of connected clients and relays messages between
//! them.

use vstd::prelude::*;
use crate::client::entries_view;
use crate::client::opt_str;
use crate::client::opt_text;
use crate::client::ClientMessage;
use crate::client::ClientMessageView;
use crate::client::Relay;
use crate::client::Roster;
use crate::client::RosterClient;
use crate::client::RosterClientView;
use crate::client::RosterView;
use crate::names::generate;
use crate::names::is_generated;
use crate::order::name_eq;
use crate::roster::ascending;
use crate::roster::insert_sorted;
use crate::roster::is_roster;
use crate::roster::lists;
use crate::roster::roster_entry;
use crate::routing::audience;
use crate::routing::deliveries_view;
use crate::routing::is_broadcast;
use crate::routing::reaches;
use crate::routing::routing_of;
use crate::routing::Delivery;
use crate::routing::Routing;

verus! {

/// The largest number of clients that the lobby holds at one time.
pub const MAX_CLIENTS: usize = 10;

/// A single connected client as the lobby tracks it. `H` is the handle
/// through which the transport reaches the client's connection; the lobby
/// keeps it and never looks inside.
pub struct ConnectedClient<H> {
    /// The name that the lobby gave to the client.
    pub name: String,
    /// The handle of the client's connection.
    pub addr: H,
    /// The IP address and port number of the client.
    pub peer: Option<String>,
    /// The client's user agent.
    pub user_agent: Option<String>,
}

/// What the table holds under a client's name.
pub struct ClientRecord<H> {
    pub addr: H,
    pub peer: Option<Seq<char>>,
    pub user_agent: Option<Seq<char>>,
}

impl<H> ConnectedClient<H> {
    /// What the table holds under this client's name.
    pub open spec fn record(&self) -> ClientRecord<H> {
        ClientRecord {
            addr: self.addr,
            peer: opt_text(self.peer),
            user_agent: opt_text(self.user_agent),
        }
    }
}

/// The table of connected clients: from each client's name to its record.
pub type Table<H> = Map<Seq<char>, ClientRecord<H>>;

/// Some client at an index below `n` bears the name `name`.
spec fn named_below<H>(clients: Seq<ConnectedClient<H>>, n: int, name: Seq<char>) -> bool {
    exists|i: int| 0 <= i < n && i < clients.len() && (#[trigger] clients[i]).name@ == name
}

/// The index of a client that bears the name `name`.
spec fn index_of<H>(clients: Seq<ConnectedClient<H>>, name: Seq<char>) -> int {
    choose|i: int| 0 <= i < clients.len() && (#[trigger] clients[i]).name@ == name
}

/// No two clients bear the same name.
spec fn distinct_names<H>(clients: Seq<ConnectedClient<H>>) -> bool {
    forall|i: int, j: int|
        0 <= i < j < clients.len() ==> (#[trigger] clients[i]).name@
            != (#[trigger] clients[j]).name@
}

/// The table that a sequence of clients stands for.
spec fn table_of<H>(clients: Seq<ConnectedClient<H>>) -> Table<H> {
    Map::new(
        |name: Seq<char>| named_below(clients, clients.len() as int, name),
        |name: Seq<char>| clients[index_of(clients, name)].record(),
    )
}

/// When a new client connects, this message is sent to the lobby.
pub struct Connect<H> {
    /// The handle of the new connection.
    pub addr: H,
    /// The IP address and port number of the client.
    pub peer: Option<String>,
    /// The client's user agent.
    pub user_agent: Option<String>,
}

impl<H> Connect<H> {
    /// What the table holds of the new client once it is registered.
    pub open spec fn record(&self) -> ClientRecord<H> {
        ClientRecord {
            addr: self.addr,
            peer: opt_text(self.peer),
            user_agent: opt_text(self.user_agent),
        }
    }
}

/// The lobby's answer to a [`Connect`]: the roster made for the new client,
/// which bears its name, or nothing where the lobby turned the client away.
#[derive(Debug, PartialEq, Eq)]
pub struct ConnectResponse {
    pub roster: Option<Roster>,
}

impl View for ConnectResponse {
    type V = Option<RosterView>;

    open spec fn view(&self) -> Option<RosterView> {
        match self.roster {
            Some(roster) => Some(roster@),
            None => None,
        }
    }
}

/// When a client disconnects, this message is sent to the lobby.
#[derive(Debug, PartialEq, Eq)]
pub struct Disconnect {
    pub name: String,
}

/// The envelope of a message that came in from the client `name`.
#[derive(Debug, PartialEq, Eq)]
pub struct RecvClientMessage {
    pub name: String,
    pub message: ClientMessage,
}

/// What the lobby makes of a name proposed for a new client.
#[derive(Debug, Clone, Copy, PartialEq, Eq)]
pub enum Verdict {
    /// No connected client bears the name: the new client gets it.
    Accept,
    /// The name is taken: another one is to be proposed.
    Retry,
    /// The name is taken, and too many were proposed already.
    GiveUp,
}

/// The verdict on the name `candidate`, proposed to `table` after `retries`
/// earlier names were found taken.
pub open spec fn verdict_on<H>(table: Table<H>, candidate: Seq<char>, retries: int) -> Verdict {
    if !table.contains_key(candidate) {
        Verdict::Accept
    } else if retries > MAX_CLIENTS {
        Verdict::GiveUp
    } else {
        Verdict::Retry
    }
}

/// A client may be registered in `table` under `name`: the table has room,
/// and the name is free.
pub open spec fn may_register<H>(table: Table<H>, name: Seq<char>) -> bool {
    table.len() < MAX_CLIENTS && !table.contains_key(name)
}

/// The table after a request to register a client under `name`, which is
/// granted where the client may be registered and changes nothing elsewhere.
pub open spec fn registered<H>(table: Table<H>, name: Seq<char>, record: ClientRecord<H>) -> Table<
    H,
> {
    if may_register(table, name) {
        table.insert(name, record)
    } else {
        table
    }
}

/// The roster entry of a connected client.
spec fn entry_of<H>(client: ConnectedClient<H>) -> RosterClientView {
    roster_entry(client.name@, client.record())
}

/// The lobby: the one owner of the table of connected clients. It holds at
/// most [`MAX_CLIENTS`] clients at a time, and no two of them under the same
/// name.
pub struct Lobby<H> {
    clients: Vec<ConnectedClient<H>>,
}

impl<H> View for Lobby<H> {
    type V = Table<H>;

    closed spec fn view(&self) -> Table<H> {
        table_of(self.clients@)
    }
}

/// In a sequence of distinct names the table has one entry for each client.
proof fn lemma_table_entries<H>(clients: Seq<ConnectedClient<H>>)
    requires
        distinct_names(clients),
    ensures
        forall|i: int|
            0 <= i < clients.len() ==> {
                &&& table_of(clients).contains_key((#[trigger] clients[i]).name@)
                &&& table_of(clients)[clients[i].name@] == clients[i].record()
            },
        forall|name: Seq<char>|
            table_of(clients).contains_key(name) <==> named_below(
                clients,
                clients.len() as int,
                name,
            ),
        table_of(clients).dom().finite(),
        table_of(clients).len() == clients.len(),
{
    let table = table_of(clients);
    assert forall|i: int| 0 <= i < clients.len() implies {
        &&& table.contains_key((#[trigger] clients[i]).name@)
        &&& table[clients[i].name@] == clients[i].record()
    } by {
        let k = index_of(clients, clients[i].name@);
        assert(clients[k].name@ == clients[i].name@);
    }
    let names = clients.map_values(|c: ConnectedClient<H>| c.name@);
    assert(names.no_duplicates()) by {
        assert forall|i: int, j: int|
            0 <= i < names.len() && 0 <= j < names.len() && i != j implies names[i]
            != names[j] by {
            assert(names[i] == clients[i].name@);
            assert(names[j] == clients[j].name@);
        }
    }
    assert(table.dom() =~= names.to_set()) by {
        assert forall|name: Seq<char>|
            table.dom().contains(name) <==> names.to_set().contains(name) by {
            if table.dom().contains(name) {
                let i = index_of(clients, name);
                assert(names[i] == name);
            }
            if names.to_set().contains(name) {
                let i = choose|i: int| 0 <= i < names.len() && names[i] == name;
                assert(clients[i].name@ == name);
            }
        }
    }
    names.unique_seq_to_set();
    vstd::seq_lib::seq_to_set_is_finite(names);
}

/// A table without entries holds no key.
proof fn lemma_empty_table<H>(table: Table<H>)
    requires
        table.dom().finite(),
        table.len() == 0,
    ensures
        forall|name: Seq<char>| !table.contains_key(name),
{
    assert(table.dom() =~= Set::empty());
}

/// One more client with a new name adds one entry to the table.
proof fn lemma_table_after_push<H>(clients: Seq<ConnectedClient<H>>, client: ConnectedClient<H>)
    requires
        distinct_names(clients),
        !table_of(clients).contains_key(client.name@),
    ensures
        distinct_names(clients.push(client)),
        table_of(clients.push(client)) == table_of(clients).insert(client.name@, client.record()),
{
    let longer = clients.push(client);
    lemma_table_entries(clients);
    assert(distinct_names(longer)) by {
        assert forall|i: int, j: int| 0 <= i < j < longer.len() implies (#[trigger] longer[i]).name@
            != (#[trigger] longer[j]).name@ by {
            if j == clients.len() {
                assert(longer[i] == clients[i]);
            } else {
                assert(longer[i] == clients[i] && longer[j] == clients[j]);
            }
        }
    }
    lemma_table_entries(longer);
    let grown = table_of(clients).insert(client.name@, client.record());
    assert forall|name: Seq<char>| table_of(longer).contains_key(name) <==> grown.contains_key(
        name,
    ) by {
        if table_of(longer).contains_key(name) {
            let i = index_of(longer, name);
            if i < clients.len() {
                assert(clients[i] == longer[i]);
            }
        }
        if table_of(clients).contains_key(name) {
            let i = index_of(clients, name);
            assert(longer[i] == clients[i]);
        }
        if name == client.name@ {
            assert(longer[clients.len() as int].name@ == name);
        }
    }
    assert forall|name: Seq<char>| table_of(longer).contains_key(name) implies table_of(
        longer,
    )[name] == grown[name] by {
        let i = index_of(longer, name);
        if i < clients.len() {
            assert(clients[i] == longer[i]);
        }
    }
    assert(table_of(longer) =~= grown);
}

/// Without the client at index `at` the table lacks that client's entry.
proof fn lemma_table_after_remove<H>(clients: Seq<ConnectedClient<H>>, at: int)
    requires
        distinct_names(clients),
        0 <= at < clients.len(),
    ensures
        distinct_names(clients.remove(at)),
        table_of(clients.remove(at)) == table_of(clients).remove(clients[at].name@),
{
    let shorter = clients.remove(at);
    lemma_table_entries(clients);
    assert(distinct_names(shorter)) by {
        assert forall|i: int, j: int| 0 <= i < j < shorter.len() implies (
        #[trigger] shorter[i]).name@ != (#[trigger] shorter[j]).name@ by {
            let i0 = if i < at { i } else { i + 1 };
            let j0 = if j < at { j } else { j + 1 };
            assert(shorter[i] == clients[i0] && shorter[j] == clients[j0]);
        }
    }
    lemma_table_entries(shorter);
    let shrunk = table_of(clients).remove(clients[at].name@);
    assert forall|name: Seq<char>| table_of(shorter).contains_key(name) <==> shrunk.contains_key(
        name,
    ) by {
        if table_of(shorter).contains_key(name) {
            let i = index_of(shorter, name);
            let i0 = if i < at { i } else { i + 1 };
            assert(shorter[i] == clients[i0]);
        }
        if shrunk.contains_key(name) {
            let i = index_of(clients, name);
            if i < at {
                assert(shorter[i] == clients[i]);
            } else {
                assert(shorter[i - 1] == clients[i]);
            }
        }
    }
    assert forall|name: Seq<char>| table_of(shorter).contains_key(name) implies table_of(
        shorter,
    )[name] == shrunk[name] by {
        let i = index_of(shorter, name);
        let i0 = if i < at { i } else { i + 1 };
        assert(shorter[i] == clients[i0]);
    }
    assert(table_of(shorter) =~= shrunk);
}

impl<H> Lobby<H> {
    /// The list of clients is within the limit, and their names differ.
    #[verifier::type_invariant]
    closed spec fn valid(&self) -> bool {
        &&& self.clients@.len() <= MAX_CLIENTS
        &&& distinct_names(self.clients@)
    }

    /// An empty lobby.
    pub fn new() -> (lobby: Lobby<H>)
        ensures
            lobby@ == Map::<Seq<char>, ClientRecord<H>>::empty(),
    {
        let lobby = Lobby { clients: Vec::new() };
        assert(lobby@ =~= Map::<Seq<char>, ClientRecord<H>>::empty());
        lobby
    }

    /// The number of connected clients, which never exceeds [`MAX_CLIENTS`].
    pub fn len(&self) -> (n: usize)
        ensures
            self@.dom().finite(),
            n == self@.len(),
            n <= MAX_CLIENTS,
    {
        proof {
            use_type_invariant(self);
            lemma_table_entries(self.clients@);
        }
        self.clients.len()
    }

    /// Builds the roster of the connected clients for the client `name`.
    pub fn roster(&self, name: &str) -> (roster: Roster)
        ensures
            is_roster(roster@, name@, self@),
            roster.clients@.len() == self@.len(),
    {
        proof {
            use_type_invariant(self);
            lemma_table_entries(self.clients@);
        }
        let mut entries: Vec<RosterClient> = Vec::new();
        let mut i: usize = 0;
        while i < self.clients.len()
            invariant
                i <= self.clients@.len(),
                distinct_names(self.clients@),
                entries@.len() == i,
                ascending(entries_view(entries@)),
                forall|j: int|
                    0 <= j < entries@.len() ==> exists|k: int|
                        0 <= k < i && (#[trigger] entries@[j])@ == entry_of(self.clients@[k]),
                forall|k: int|
                    0 <= k < i ==> lists(
                        entries_view(entries@),
                        (#[trigger] self.clients@[k]).name@,
                    ),
            decreases self.clients@.len() - i,
        {
            let client = &self.clients[i];
            let entry = RosterClient {
                name: client.name.clone(),
                peer: client.peer.clone(),
                user_agent: client.user_agent.clone(),
            };
            assert(entry@ == entry_of(self.clients@[i as int]));
            let ghost before = entries_view(entries@);
            let at = insert_sorted(&mut entries, entry);
            proof {
                let after = entries_view(entries@);
                assert forall|k: int| 0 <= k <= i implies lists(
                    after,
                    (#[trigger] self.clients@[k]).name@,
                ) by {
                    if k == i {
                        assert(after[at@].name == self.clients@[k].name@);
                    } else {
                        let j = choose|j: int|
                            0 <= j < before.len() && (#[trigger] before[j]).name
                                == self.clients@[k].name@;
                        if j < at@ {
                            assert(after[j] == before[j]);
                        } else {
                            assert(after[j + 1] == before[j]);
                        }
                    }
                }
            }
            i += 1;
        }
        Roster { name: name.to_owned(), clients: entries }
    }

    /// Makes the deliveries that send the current roster to every connected
    /// client but `except`.
    pub fn broadcast_roster(&self, except: Option<&str>) -> (deliveries: Vec<Delivery>)
        ensures
            is_broadcast(deliveries_view(deliveries@), self@, opt_str(except)),
            deliveries@.len() == audience(self@, opt_str(except)),
    {
        proof {
            use_type_invariant(self);
            lemma_table_entries(self.clients@);
        }
        let mut deliveries: Vec<Delivery> = Vec::new();
        let mut i: usize = 0;
        while i < self.clients.len()
            invariant
                i <= self.clients@.len(),
                distinct_names(self.clients@),
                forall|k: int|
                    0 <= k < self.clients@.len() ==> self@.contains_key(
                        (#[trigger] self.clients@[k]).name@,
                    ),
                forall|j: int|
                    0 <= j < deliveries@.len() ==> {
                        &&& named_below(self.clients@, i as int, (#[trigger] deliveries@[j]).to@)
                        &&& opt_str(except) != Some(deliveries@[j].to@)
                        &&& deliveries@[j].message@ matches ClientMessageView::Roster(roster)
                        &&& is_roster(roster, deliveries@[j].to@, self@)
                    },
                forall|j: int, k: int|
                    0 <= j < k < deliveries@.len() ==> (#[trigger] deliveries@[j]).to@
                        != (#[trigger] deliveries@[k]).to@,
                forall|k: int|
                    0 <= k < i && opt_str(except) != Some((#[trigger] self.clients@[k]).name@)
                        ==> reaches(deliveries_view(deliveries@), self.clients@[k].name@),
                deliveries@.len() == if opt_str(except) matches Some(name) && named_below(
                    self.clients@,
                    i as int,
                    name,
                ) {
                    i - 1
                } else {
                    i as int
                },
            decreases self.clients@.len() - i,
        {
            let client = &self.clients[i];
            let skip = match except {
                Some(name) => name_eq(name, client.name.as_str()),
                None => false,
            };
            if !skip {
                let roster = self.roster(client.name.as_str());
                let ghost before = deliveries_view(deliveries@);
                deliveries.push(
                    Delivery { to: client.name.clone(), message: ClientMessage::Roster(roster) },
                );
                proof {
                    let after = deliveries_view(deliveries@);
                    let last = after.len() - 1;
                    assert(after[last].to == self.clients@[i as int].name@);
                    assert forall|k: int|
                        0 <= k <= i && opt_str(except) != Some(
                            (#[trigger] self.clients@[k]).name@,
                        ) implies reaches(after, self.clients@[k].name@) by {
                        if k < i {
                            let j = choose|j: int|
                                0 <= j < before.len() && (#[trigger] before[j]).to
                                    == self.clients@[k].name@;
                            assert(after[j] == before[j]);
                        }
                    }
                }
            }
            i += 1;
        }
        proof {
            let sent = deliveries_view(deliveries@);
            assert forall|i: int| 0 <= i < sent.len() implies {
                &&& self@.contains_key((#[trigger] sent[i]).to)
                &&& opt_str(except) != Some(sent[i].to)
                &&& sent[i].message matches ClientMessageView::Roster(roster)
                &&& is_roster(roster, sent[i].to, self@)
            } by {
                assert(sent[i] == deliveries@[i]@);
            }
            assert forall|i: int, j: int| 0 <= i < j < sent.len() implies (#[trigger] sent[i]).to
                != (#[trigger] sent[j]).to by {
                assert(sent[i] == deliveries@[i]@);
                assert(sent[j] == deliveries@[j]@);
            }
        }
        deliveries
    }

    /// Judges a name proposed for a new client, after `retries` earlier
    /// names were found taken.
    pub fn consider(&self, candidate: &str, retries: usize) -> (verdict: Verdict)
        ensures
            verdict == verdict_on(self@, candidate@, retries as int),
    {
        if !self.contains(candidate) {
            Verdict::Accept
        } else if retries > MAX_CLIENTS {
            Verdict::GiveUp
        } else {
            Verdict::Retry
        }
    }

    /// Registers a new client under the name `name`, unless the lobby is
    /// full or the name is taken. On success every other client is sent the
    /// new roster, and the answer holds the roster made for the new client.
    pub fn register(&mut self, name: String, msg: Connect<H>) -> (out: (
        ConnectResponse,
        Vec<Delivery>,
    ))
        ensures
            final(self)@.dom().finite(),
            final(self)@.len() <= MAX_CLIENTS,
            final(self)@ == registered(old(self)@, name@, msg.record()),
            !may_register(old(self)@, name@) ==> out.0.roster is None && out.1@.len() == 0,
            may_register(old(self)@, name@) ==> {
                &&& final(self)@.len() == old(self)@.len() + 1
                &&& out.0@ matches Some(roster)
                &&& is_roster(roster, name@, final(self)@)
                &&& roster.clients.len() == final(self)@.len()
                &&& is_broadcast(deliveries_view(out.1@), final(self)@, Some(name@))
                &&& out.1@.len() == old(self)@.len()
            },
    {
        proof {
            use_type_invariant(&*self);
            lemma_table_entries(self.clients@);
        }
        if self.clients.len() >= MAX_CLIENTS || self.position(name.as_str()).is_some() {
            return (ConnectResponse { roster: None }, Vec::new());
        }
        let ghost before = self.clients@;
        let client = ConnectedClient {
            name: name.clone(),
            addr: msg.addr,
            peer: msg.peer,
            user_agent: msg.user_agent,
        };
        proof {
            lemma_table_after_push(before, client);
        }
        // The list leaves the lobby while it changes.
        let mut clients: Vec<ConnectedClient<H>> = Vec::new();
        std::mem::swap(&mut self.clients, &mut clients);
        clients.push(client);
        std::mem::swap(&mut self.clients, &mut clients);
        proof {
            lemma_table_entries(self.clients@);
        }
        let deliveries = self.broadcast_roster(Some(name.as_str()));
        let roster = self.roster(name.as_str());
        (ConnectResponse { roster: Some(roster) }, deliveries)
    }

    /// Handles a new client connection: turns it away if the lobby is full;
    /// else draws random names until one is free, and registers the client
    /// under it, or turns it away once a name is found taken after
    /// [`MAX_CLIENTS`]` + 1` retries. A lobby without clients takes every
    /// client in.
    pub fn connect(&mut self, msg: Connect<H>) -> (out: (ConnectResponse, Vec<Delivery>))
        ensures
            final(self)@.dom().finite(),
            final(self)@.len() <= MAX_CLIENTS,
            old(self)@.len() >= MAX_CLIENTS ==> out.0.roster is None,
            old(self)@.len() == 0 ==> out.0.roster is Some,
            out.0.roster is None ==> out.1@.len() == 0 && final(self)@ == old(self)@,
            out.0@ matches Some(roster) ==> {
                &&& is_generated(roster.name)
                &&& may_register(old(self)@, roster.name)
                &&& final(self)@ == old(self)@.insert(roster.name, msg.record())
                &&& final(self)@.len() == old(self)@.len() + 1
                &&& is_roster(roster, roster.name, final(self)@)
                &&& roster.clients.len() == final(self)@.len()
                &&& is_broadcast(deliveries_view(out.1@), final(self)@, Some(roster.name))
                &&& out.1@.len() == old(self)@.len()
            },
    {
        // Restrict the lobby to a maximum number of clients.
        if self.len() >= MAX_CLIENTS {
            return (ConnectResponse { roster: None }, Vec::new());
        }
        // Create a new random name for this connection.
        let mut name = generate();
        let mut count: usize = 0;
        loop
            invariant
                *self == *old(self),
                count <= MAX_CLIENTS + 1,
                is_generated(name@),
                self@.dom().finite(),
                self@.len() < MAX_CLIENTS,
            ensures
                !self@.contains_key(name@),
            decreases MAX_CLIENTS + 1 - count,
        {
            match self.consider(name.as_str(), count) {
                Verdict::Accept => {
                    break ;
                },
                Verdict::GiveUp => {
                    // Every name drawn was taken, and the loop must end.
                    proof {
                        if self@.len() == 0 {
                            lemma_empty_table(self@);
                        }
                    }
                    return (ConnectResponse { roster: None }, Vec::new());
                },
                Verdict::Retry => {
                    name = generate();
                    count += 1;
                },
            }
        }
        self.register(name, msg)
    }

    /// Handles a client disconnection: removes the client named in `msg`,
    /// if it is connected, and sends the roster to every client that is
    /// left.
    pub fn disconnect(&mut self, msg: Disconnect) -> (deliveries: Vec<Delivery>)
        ensures
            final(self)@.dom().finite(),
            final(self)@.len() <= MAX_CLIENTS,
            final(self)@ == old(self)@.remove(msg.name@),
            !old(self)@.contains_key(msg.name@) ==> final(self)@ == old(self)@,
            is_broadcast(deliveries_view(deliveries@), final(self)@, None),
            deliveries@.len() == final(self)@.len(),
    {
        proof {
            use_type_invariant(&*self);
            lemma_table_entries(self.clients@);
        }
        let ghost before = self.clients@;
        match self.position(msg.name.as_str()) {
            Some(i) => {
                proof {
                    lemma_table_after_remove(before, i as int);
                }
                let mut clients: Vec<ConnectedClient<H>> = Vec::new();
                std::mem::swap(&mut self.clients, &mut clients);
                clients.remove(i);
                std::mem::swap(&mut self.clients, &mut clients);
            },
            None => {
                assert(self@ =~= old(self)@.remove(msg.name@));
            },
        }
        proof {
            lemma_table_entries(self.clients@);
        }
        self.broadcast_roster(None)
    }

    /// Handles a message received from a client. The only message that
    /// clients may send is a relay.
    pub fn receive(&self, msg: RecvClientMessage) -> (routing: Routing)
        ensures
            routing@ == routing_of(self@, msg.name@, msg.message@),
    {
        let RecvClientMessage { name: sender, message } = msg;
        match message {
            ClientMessage::Relay(relay) => {
                // The name in the relay becomes that of the sender, and the
                // message goes to the client that it named.
                let Relay { name: receiver, json } = relay;
                if self.contains(receiver.as_str()) {
                    Routing::Forward(
                        Delivery {
                            to: receiver,
                            message: ClientMessage::Relay(Relay { name: sender, json }),
                        },
                    )
                } else {
                    Routing::UnknownClient(receiver)
                }
            },
            ClientMessage::Roster(roster) => Routing::Unexpected(
                RecvClientMessage { name: sender, message: ClientMessage::Roster(roster) },
            ),
        }
    }

    /// Where in the list the client named `name` stands, if it is connected.
    fn position(&self, name: &str) -> (found: Option<usize>)
        ensures
            match found {
                Some(i) => i < self.clients@.len() && self.clients@[i as int].name@ == name@,
                None => !self@.contains_key(name@),
            },
    {
        let mut i: usize = 0;
        while i < self.clients.len()
            invariant
                i <= self.clients@.len(),
                !named_below(self.clients@, i as int, name@),
            decreases self.clients@.len() - i,
        {
            if name_eq(self.clients[i].name.as_str(), name) {
                return Some(i);
            }
            i += 1;
        }
        None
    }

    /// Tells whether a client named `name` is connected.
    pub fn contains(&self, name: &str) -> (found: bool)
        ensures
            found == self@.contains_key(name@),
    {
        proof {
            use_type_invariant(self);
            lemma_table_entries(self.clients@);
        }
        self.position(name).is_some()
    }

    /// The client named `name`, if it is connected.
    pub fn get(&self, name: &str) -> (client: Option<&ConnectedClient<H>>)
        ensures
            match client {
                Some(c) => {
                    &&& self@.contains_key(name@)
                    &&& c.name@ == name@
                    &&& c.record() == self@[name@]
                },
                None => !self@.contains_key(name@),
            },
    {
        proof {
            use_type_invariant(self);
            lemma_table_entries(self.clients@);
        }
        match self.position(name) {
            Some(i) => Some(&self.clients[i]),
            None => None,
        }
    }
}

} // verus!
