//! What a roster is: the snapshot of the table of connected clients, in
//! ascending order of their names.

use vstd::prelude::*;
use crate::client::entries_view;
use crate::client::RosterClient;
use crate::client::RosterClientView;
use crate::client::RosterView;
use crate::lobby::ClientRecord;
use crate::lobby::Table;
use crate::order::lemma_precedes_total;
use crate::order::lemma_precedes_transitive;
use crate::order::name_before;
use crate::order::precedes;

verus! {

/// The roster entry of the client that the table holds under `name`.
pub open spec fn roster_entry<H>(name: Seq<char>, record: ClientRecord<H>) -> RosterClientView {
    RosterClientView { name, peer: record.peer, user_agent: record.user_agent }
}

/// Each entry's name comes strictly before the names of all later entries.
pub open spec fn ascending(entries: Seq<RosterClientView>) -> bool {
    forall|i: int, j: int|
        0 <= i < j < entries.len() ==> precedes(
            (#[trigger] entries[i]).name,
            (#[trigger] entries[j]).name,
        )
}

/// Some entry bears the name `name`.
pub open spec fn lists(entries: Seq<RosterClientView>, name: Seq<char>) -> bool {
    exists|i: int| 0 <= i < entries.len() && (#[trigger] entries[i]).name == name
}

/// `roster` is the snapshot of `table` made for the client `owner`: it bears
/// the owner's name, and its entries are the clients of the table, each once,
/// in ascending order of their names.
pub open spec fn is_roster<H>(roster: RosterView, owner: Seq<char>, table: Table<H>) -> bool {
    &&& roster.name == owner
    &&& ascending(roster.clients)
    &&& forall|i: int|
        0 <= i < roster.clients.len() ==> {
            &&& table.contains_key((#[trigger] roster.clients[i]).name)
            &&& roster.clients[i] == roster_entry(
                roster.clients[i].name,
                table[roster.clients[i].name],
            )
        }
    &&& forall|name: Seq<char>| table.contains_key(name) ==> lists(roster.clients, name)
}

/// Puts `entry` into the ascending list `entries` at the place that keeps the
/// list ascending.
pub(crate) fn insert_sorted(entries: &mut Vec<RosterClient>, entry: RosterClient) -> (at: Ghost<
    int,
>)
    requires
        ascending(entries_view(old(entries)@)),
        !lists(entries_view(old(entries)@), entry.name@),
    ensures
        0 <= at@ <= old(entries)@.len(),
        final(entries)@ == old(entries)@.insert(at@, entry),
        ascending(entries_view(final(entries)@)),
{
    let mut at: usize = 0;
    while at < entries.len() && name_before(entries[at].name.as_str(), entry.name.as_str())
        invariant
            at <= entries@.len(),
            entries@ == old(entries)@,
            forall|j: int| 0 <= j < at ==> precedes((#[trigger] entries@[j]).name@, entry.name@),
        decreases entries@.len() - at,
    {
        at += 1;
    }
    proof {
        let before = entries_view(entries@);
        let after = entries_view(entries@.insert(at as int, entry));
        assert forall|i: int, j: int| 0 <= i < j < after.len() implies precedes(
            (#[trigger] after[i]).name,
            (#[trigger] after[j]).name,
        ) by {
            if j < at {
                assert(after[i] == before[i] && after[j] == before[j]);
            } else if j == at {
                assert(after[i] == before[i]);
            } else if i == at {
                assert(after[j] == before[j - 1]);
                assert(before[at as int].name != entry.name@);
                lemma_precedes_total(before[at as int].name, entry.name@);
                if j - 1 > at {
                    lemma_precedes_transitive(
                        entry.name@,
                        before[at as int].name,
                        before[j - 1].name,
                    );
                }
            } else if i < at {
                assert(after[i] == before[i] && after[j] == before[j - 1]);
            } else {
                assert(after[i] == before[i - 1] && after[j] == before[j - 1]);
            }
        }
    }
    entries.insert(at, entry);
    Ghost(at as int)
}

} // verus!
