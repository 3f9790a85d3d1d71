//! What holds of the lobby's operations taken together, stated over the table
//! of connected clients and over the rosters and deliveries made of it.

use vstd::prelude::*;
use crate::client::ClientMessageView;
use crate::client::RosterClientView;
use crate::client::RosterView;
use crate::lobby::may_register;
use crate::lobby::registered;
use crate::lobby::ClientRecord;
use crate::lobby::Table;
use crate::lobby::MAX_CLIENTS;
use crate::roster::ascending;
use crate::roster::is_roster;
use crate::roster::lists;
use crate::routing::audience;
use crate::routing::is_broadcast;
use crate::routing::reaches;
use crate::routing::routing_of;
use crate::routing::DeliveryView;
use crate::routing::RoutingView;
use crate::order::lemma_precedes_irreflexive;
use crate::order::precedes;
use crate::order::lemma_precedes_transitive;

verus! {

/// The table after the requests `arrivals`, each a name and a record, were
/// made one after the other to register a client.
pub open spec fn registered_all<H>(
    table: Table<H>,
    arrivals: Seq<(Seq<char>, ClientRecord<H>)>,
) -> Table<H>
    decreases arrivals.len(),
{
    if arrivals.len() == 0 {
        table
    } else {
        registered(
            registered_all(table, arrivals.drop_last()),
            arrivals.last().0,
            arrivals.last().1,
        )
    }
}

/// However many clients ask to be registered, and under whatever names, a
/// table of at most [`MAX_CLIENTS`] entries stays one.
pub proof fn lemma_capacity_kept<H>(table: Table<H>, arrivals: Seq<(Seq<char>, ClientRecord<H>)>)
    requires
        table.dom().finite(),
        table.len() <= MAX_CLIENTS,
    ensures
        registered_all(table, arrivals).dom().finite(),
        registered_all(table, arrivals).len() <= MAX_CLIENTS,
    decreases arrivals.len(),
{
    if arrivals.len() > 0 {
        lemma_capacity_kept(table, arrivals.drop_last());
    }
}

/// A full table turns every request away.
pub proof fn lemma_full_table_turns_away<H>(
    table: Table<H>,
    name: Seq<char>,
    record: ClientRecord<H>,
)
    requires
        table.len() >= MAX_CLIENTS,
    ensures
        !may_register(table, name),
        registered(table, name, record) == table,
{
}

/// A request that is granted adds one entry under a name that no client
/// bore, and leaves every other entry as it was.
pub proof fn lemma_registration_adds_one<H>(
    table: Table<H>,
    name: Seq<char>,
    record: ClientRecord<H>,
)
    requires
        table.dom().finite(),
        may_register(table, name),
    ensures
        !table.contains_key(name),
        registered(table, name, record).contains_key(name),
        registered(table, name, record)[name] == record,
        registered(table, name, record).len() == table.len() + 1,
        forall|other: Seq<char>|
            table.contains_key(other) ==> registered(table, name, record).contains_key(other)
                && registered(table, name, record)[other] == table[other],
{
}

/// Two ascending lists of entries that bear the same names agree on the
/// names of their first `n` entries.
proof fn lemma_same_names_so_far(a: Seq<RosterClientView>, b: Seq<RosterClientView>, n: int)
    requires
        ascending(a),
        ascending(b),
        forall|name: Seq<char>| lists(a, name) <==> lists(b, name),
        0 <= n <= a.len(),
        n <= b.len(),
    ensures
        forall|i: int| 0 <= i < n ==> (#[trigger] a[i]).name == b[i].name,
    decreases n,
{
    if n > 0 {
        lemma_same_names_so_far(a, b, n - 1);
        let i = n - 1;
        assert(lists(a, a[i].name));
        assert(lists(b, b[i].name));
        let j = choose|j: int| 0 <= j < b.len() && (#[trigger] b[j]).name == a[i].name;
        let k = choose|k: int| 0 <= k < a.len() && (#[trigger] a[k]).name == b[i].name;
        lemma_precedes_irreflexive(a[i].name);
        lemma_precedes_irreflexive(b[i].name);
        if j < i {
            assert(a[j].name == b[j].name);
        } else if k < i {
            assert(a[k].name == b[k].name);
        } else if j > i && k > i {
            lemma_precedes_transitive(b[i].name, a[i].name, b[i].name);
        }
    }
}

/// Two ascending lists of entries that bear the same names are equally long.
proof fn lemma_same_names_same_length(a: Seq<RosterClientView>, b: Seq<RosterClientView>)
    requires
        ascending(a),
        ascending(b),
        forall|name: Seq<char>| lists(a, name) <==> lists(b, name),
    ensures
        a.len() <= b.len(),
{
    if a.len() > b.len() {
        let n = b.len() as int;
        lemma_same_names_so_far(a, b, n);
        assert(lists(a, a[n].name));
        let j = choose|j: int| 0 <= j < b.len() && (#[trigger] b[j]).name == a[n].name;
        assert(a[j].name == b[j].name);
        lemma_precedes_irreflexive(a[n].name);
    }
}

/// The roster is a function of the table and of the client it is made for:
/// two rosters of one table for one client are the same, entry by entry.
pub proof fn lemma_roster_unique<H>(
    first: RosterView,
    second: RosterView,
    owner: Seq<char>,
    table: Table<H>,
)
    requires
        is_roster(first, owner, table),
        is_roster(second, owner, table),
    ensures
        first == second,
{
    let a = first.clients;
    let b = second.clients;
    assert forall|name: Seq<char>| lists(a, name) <==> lists(b, name) by {
        if lists(a, name) {
            let i = choose|i: int| 0 <= i < a.len() && (#[trigger] a[i]).name == name;
            assert(table.contains_key(name));
        }
        if lists(b, name) {
            let i = choose|i: int| 0 <= i < b.len() && (#[trigger] b[i]).name == name;
            assert(table.contains_key(name));
        }
    }
    lemma_same_names_same_length(a, b);
    lemma_same_names_same_length(b, a);
    lemma_same_names_so_far(a, b, a.len() as int);
    assert(a =~= b);
}

/// Every client of the table, and no one else, is on a roster of the table.
pub proof fn lemma_roster_lists_members<H>(
    roster: RosterView,
    owner: Seq<char>,
    table: Table<H>,
    name: Seq<char>,
)
    requires
        is_roster(roster, owner, table),
    ensures
        lists(roster.clients, name) <==> table.contains_key(name),
{
    if lists(roster.clients, name) {
        let i = choose|i: int|
            0 <= i < roster.clients.len() && (#[trigger] roster.clients[i]).name == name;
        assert(table.contains_key(roster.clients[i].name));
    }
}

/// A roster has as many entries as the table has clients.
pub proof fn lemma_roster_length<H>(roster: RosterView, owner: Seq<char>, table: Table<H>)
    requires
        is_roster(roster, owner, table),
    ensures
        table.dom().finite(),
        roster.clients.len() == table.len(),
{
    let entries = roster.clients;
    let names = entries.map_values(|entry: RosterClientView| entry.name);
    assert(names.no_duplicates()) by {
        assert forall|i: int, j: int|
            0 <= i < names.len() && 0 <= j < names.len() && i != j implies names[i]
            != names[j] by {
            lemma_precedes_irreflexive(entries[i].name);
            if i < j {
                assert(precedes(entries[i].name, entries[j].name));
            } else {
                assert(precedes(entries[j].name, entries[i].name));
            }
        }
    }
    assert(names.to_set() =~= table.dom()) by {
        assert forall|name: Seq<char>| names.to_set().contains(name) <==> table.dom().contains(
            name,
        ) by {
            if names.to_set().contains(name) {
                let i = choose|i: int| 0 <= i < names.len() && names[i] == name;
                assert(table.contains_key(entries[i].name));
            }
            if table.contains_key(name) {
                assert(lists(entries, name));
                let i = choose|i: int|
                    0 <= i < entries.len() && (#[trigger] entries[i]).name == name;
                assert(names[i] == name);
            }
        }
    }
    names.unique_seq_to_set();
    vstd::seq_lib::seq_to_set_is_finite(names);
}

/// A broadcast makes as many deliveries as the table has clients, not
/// counting the client left out.
pub proof fn lemma_broadcast_length<H>(
    deliveries: Seq<DeliveryView>,
    table: Table<H>,
    except: Option<Seq<char>>,
)
    requires
        table.dom().finite(),
        is_broadcast(deliveries, table, except),
    ensures
        deliveries.len() == audience(table, except),
{
    let names = deliveries.map_values(|delivery: DeliveryView| delivery.to);
    assert(names.no_duplicates()) by {
        assert forall|i: int, j: int|
            0 <= i < names.len() && 0 <= j < names.len() && i != j implies names[i]
            != names[j] by {
            if i < j {
                assert(deliveries[i].to != deliveries[j].to);
            } else {
                assert(deliveries[j].to != deliveries[i].to);
            }
        }
    }
    let reached = if except matches Some(name) && table.contains_key(name) {
        table.dom().remove(except->0)
    } else {
        table.dom()
    };
    assert(names.to_set() =~= reached) by {
        assert forall|name: Seq<char>| names.to_set().contains(name) <==> reached.contains(
            name,
        ) by {
            if names.to_set().contains(name) {
                let i = choose|i: int| 0 <= i < names.len() && names[i] == name;
                assert(table.contains_key(deliveries[i].to));
            }
            if reached.contains(name) {
                assert(reaches(deliveries, name));
                let i = choose|i: int|
                    0 <= i < deliveries.len() && (#[trigger] deliveries[i]).to == name;
                assert(names[i] == name);
            }
        }
    }
    names.unique_seq_to_set();
}

/// The roster that a new client gets on its registration shows the client
/// itself.
pub proof fn lemma_newcomer_on_own_roster<H>(
    table: Table<H>,
    name: Seq<char>,
    record: ClientRecord<H>,
    roster: RosterView,
)
    requires
        may_register(table, name),
        is_roster(roster, name, registered(table, name, record)),
    ensures
        roster.name == name,
        lists(roster.clients, name),
{
    lemma_roster_lists_members(roster, name, registered(table, name, record), name);
}

/// A broadcast reaches every client of the table but the one left out, and
/// the roster that a client gets bears its name and shows it.
pub proof fn lemma_broadcast_reaches_members<H>(
    deliveries: Seq<DeliveryView>,
    table: Table<H>,
    except: Option<Seq<char>>,
    name: Seq<char>,
)
    requires
        is_broadcast(deliveries, table, except),
    ensures
        reaches(deliveries, name) <==> table.contains_key(name) && except != Some(name),
        forall|i: int|
            0 <= i < deliveries.len() && (#[trigger] deliveries[i]).to == name ==> {
                &&& deliveries[i].message matches ClientMessageView::Roster(roster)
                &&& roster.name == name
                &&& lists(roster.clients, name)
            },
{
    if reaches(deliveries, name) {
        let i = choose|i: int| 0 <= i < deliveries.len() && (#[trigger] deliveries[i]).to == name;
        assert(table.contains_key(deliveries[i].to));
    }
    assert forall|i: int|
        0 <= i < deliveries.len() && (#[trigger] deliveries[i]).to == name implies {
        &&& deliveries[i].message matches ClientMessageView::Roster(roster)
        &&& roster.name == name
        &&& lists(roster.clients, name)
    } by {
        assert(table.contains_key(deliveries[i].to));
        match deliveries[i].message {
            ClientMessageView::Roster(roster) => {
                lemma_roster_lists_members(roster, name, table, name);
            },
            _ => {},
        }
    }
}

/// The broadcast on a registration leaves the new client out, this once:
/// the broadcast on the next registration reaches it as it reaches the
/// others, with a roster that shows both new clients.
pub proof fn lemma_newcomer_left_out_once<H>(
    table: Table<H>,
    name: Seq<char>,
    record: ClientRecord<H>,
    first: Seq<DeliveryView>,
    next_name: Seq<char>,
    next_record: ClientRecord<H>,
    next: Seq<DeliveryView>,
)
    requires
        may_register(table, name),
        is_broadcast(first, registered(table, name, record), Some(name)),
        may_register(registered(table, name, record), next_name),
        is_broadcast(
            next,
            registered(registered(table, name, record), next_name, next_record),
            Some(next_name),
        ),
    ensures
        !reaches(first, name),
        reaches(next, name),
        forall|i: int|
            0 <= i < next.len() && (#[trigger] next[i]).to == name ==> {
                &&& next[i].message matches ClientMessageView::Roster(roster)
                &&& lists(roster.clients, name)
                &&& lists(roster.clients, next_name)
            },
{
    let one = registered(table, name, record);
    let two = registered(one, next_name, next_record);
    lemma_broadcast_reaches_members(first, one, Some(name), name);
    lemma_broadcast_reaches_members(next, two, Some(next_name), name);
    assert forall|i: int| 0 <= i < next.len() && (#[trigger] next[i]).to == name implies {
        &&& next[i].message matches ClientMessageView::Roster(roster)
        &&& lists(roster.clients, name)
        &&& lists(roster.clients, next_name)
    } by {
        match next[i].message {
            ClientMessageView::Roster(roster) => {
                lemma_roster_lists_members(roster, name, two, name);
                lemma_roster_lists_members(roster, name, two, next_name);
            },
            _ => {},
        }
    }
}

/// Once a client has left, no roster shows it and no broadcast reaches it,
/// while the broadcast on its leaving reaches every client that is left.
pub proof fn lemma_departed_is_gone<H>(
    table: Table<H>,
    name: Seq<char>,
    deliveries: Seq<DeliveryView>,
    roster: RosterView,
    owner: Seq<char>,
)
    requires
        is_broadcast(deliveries, table.remove(name), None),
        is_roster(roster, owner, table.remove(name)),
    ensures
        !lists(roster.clients, name),
        !reaches(deliveries, name),
        forall|other: Seq<char>|
            table.contains_key(other) && other != name ==> reaches(deliveries, other),
        forall|i: int|
            0 <= i < deliveries.len() ==> {
                &&& (#[trigger] deliveries[i]).message matches ClientMessageView::Roster(sent)
                &&& !lists(sent.clients, name)
            },
{
    let rest = table.remove(name);
    lemma_roster_lists_members(roster, owner, rest, name);
    lemma_broadcast_reaches_members(deliveries, rest, None, name);
    assert forall|i: int| 0 <= i < deliveries.len() implies {
        &&& (#[trigger] deliveries[i]).message matches ClientMessageView::Roster(sent)
        &&& !lists(sent.clients, name)
    } by {
        assert(rest.contains_key(deliveries[i].to));
        match deliveries[i].message {
            ClientMessageView::Roster(sent) => {
                lemma_roster_lists_members(sent, deliveries[i].to, rest, name);
            },
            _ => {},
        }
    }
}

/// To disconnect a client that is not connected changes nothing, and so
/// does disconnecting a client a second time.
pub proof fn lemma_disconnect_idempotent<H>(table: Table<H>, name: Seq<char>)
    ensures
        !table.contains_key(name) ==> table.remove(name) == table,
        table.remove(name).remove(name) == table.remove(name),
{
    if !table.contains_key(name) {
        assert(table.remove(name) =~= table);
    }
    assert(table.remove(name).remove(name) =~= table.remove(name));
}

/// Two broadcasts of one table that leave out the same client make the same
/// deliveries, whatever their order.
pub proof fn lemma_broadcast_unique<H>(
    first: Seq<DeliveryView>,
    second: Seq<DeliveryView>,
    table: Table<H>,
    except: Option<Seq<char>>,
)
    requires
        is_broadcast(first, table, except),
        is_broadcast(second, table, except),
    ensures
        forall|i: int| 0 <= i < first.len() ==> second.contains(#[trigger] first[i]),
{
    assert forall|i: int| 0 <= i < first.len() implies second.contains(#[trigger] first[i]) by {
        let name = first[i].to;
        assert(table.contains_key(name));
        assert(reaches(second, name));
        let j = choose|j: int| 0 <= j < second.len() && (#[trigger] second[j]).to == name;
        assert(table.contains_key(second[j].to));
        match (first[i].message, second[j].message) {
            (ClientMessageView::Roster(a), ClientMessageView::Roster(b)) => {
                lemma_roster_unique(a, b, name, table);
            },
            _ => {},
        }
        assert(first[i] == second[j]);
    }
}

/// Whatever a client sends, at most one client gets a message of it: the
/// one that the relay names, if it is connected. The message bears the name
/// of its true sender and the payload as it came.
pub proof fn lemma_forwarded_bears_sender<H>(
    table: Table<H>,
    sender: Seq<char>,
    message: ClientMessageView,
)
    ensures
        match routing_of(table, sender, message) {
            RoutingView::Forward(delivery) => {
                &&& message matches ClientMessageView::Relay(relay)
                &&& table.contains_key(relay.name)
                &&& delivery.to == relay.name
                &&& delivery.message matches ClientMessageView::Relay(sent)
                &&& sent.name == sender
                &&& sent.json == relay.json
            },
            RoutingView::UnknownClient(name) => {
                &&& message matches ClientMessageView::Relay(relay)
                &&& relay.name == name
                &&& !table.contains_key(name)
            },
            RoutingView::Unexpected(from, dropped) => {
                &&& message is Roster
                &&& from == sender
                &&& dropped == message
            },
        },
{
}

} // verus!
