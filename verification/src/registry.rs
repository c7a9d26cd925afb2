//! The connection registry: the connections that are currently eligible to
//! receive broadcasts, each under its own identifier.
//!
//! The registry is generic in the transport handle `H` it stores beside each
//! display name. It never looks inside a handle; it only hands copies out.

use crate::ids::ConnectionId;
use vstd::prelude::*;

verus! {

/// What the registry knows of one connection, as a mathematical value.
pub struct Entry<H> {
    pub id: ConnectionId,
    pub name: Seq<char>,
    pub handle: H,
}

/// No identifier occurs twice.
pub open spec fn distinct_ids<H>(entries: Seq<Entry<H>>) -> bool {
    forall|i: int, j: int| 0 <= i < j < entries.len() ==> entries[i].id != entries[j].id
}

/// Some entry carries the identifier `id`.
pub open spec fn has_id<H>(entries: Seq<Entry<H>>, id: ConnectionId) -> bool {
    exists|i: int| 0 <= i < entries.len() && #[trigger] entries[i].id == id
}

/// The entry registered under `id`, if there is one.
pub open spec fn entry_of<H>(entries: Seq<Entry<H>>, id: ConnectionId) -> Option<Entry<H>> {
    if has_id(entries, id) {
        Some(entries[choose|i: int| 0 <= i < entries.len() && #[trigger] entries[i].id == id])
    } else {
        None
    }
}

/// The entries other than the one registered under `id`, in their order.
pub open spec fn without<H>(entries: Seq<Entry<H>>, id: ConnectionId) -> Seq<Entry<H>> {
    entries.filter(|e: Entry<H>| e.id != id)
}

/// The entries a broadcast reaches: all of them, or all but the excluded one.
pub open spec fn others<H>(entries: Seq<Entry<H>>, except: Option<ConnectionId>) -> Seq<Entry<H>> {
    match except {
        Some(id) => without(entries, id),
        None => entries,
    }
}

/// The entries after `entry` has been registered: it replaces whatever stood
/// under its identifier and comes last.
pub open spec fn with_entry<H>(entries: Seq<Entry<H>>, entry: Entry<H>) -> Seq<Entry<H>> {
    without(entries, entry.id).push(entry)
}

/// The display names, in the order of the entries.
pub open spec fn names<H>(entries: Seq<Entry<H>>) -> Seq<Seq<char>> {
    entries.map_values(|e: Entry<H>| e.name)
}

/// `copy` stands for the same connection as `entry`: same identifier, same
/// name, and a handle cloned from the entry's.
pub open spec fn is_copy<H: Clone>(entry: Entry<H>, copy: Entry<H>) -> bool {
    &&& copy.id == entry.id
    &&& copy.name == entry.name
    &&& cloned(entry.handle, copy.handle)
}

/// `copies` is `entries`, entry by entry, with cloned handles.
pub open spec fn are_copies<H: Clone>(entries: Seq<Entry<H>>, copies: Seq<Entry<H>>) -> bool {
    &&& copies.len() == entries.len()
    &&& forall|i: int| 0 <= i < entries.len() ==> is_copy(#[trigger] entries[i], copies[i])
}

/// How `without` treats the last entry.
proof fn lemma_without_step<H>(entries: Seq<Entry<H>>, id: ConnectionId)
    requires
        entries.len() > 0,
    ensures
        without(entries, id) == if entries.last().id != id {
            without(entries.drop_last(), id).push(entries.last())
        } else {
            without(entries.drop_last(), id)
        },
{
    reveal_with_fuel(Seq::filter, 2);
}

/// After removal an identifier is registered exactly if it was registered
/// before and is not the removed one.
pub proof fn lemma_without_has_id<H>(entries: Seq<Entry<H>>, id: ConnectionId, other: ConnectionId)
    ensures
        has_id(without(entries, id), other) <==> other != id && has_id(entries, other),
    decreases entries.len(),
{
    let rest = without(entries, id);
    if entries.len() == 0 {
        assert(rest =~= entries);
    } else {
        let front = entries.drop_last();
        let last = entries.last();
        lemma_without_step(entries, id);
        lemma_without_has_id(front, id, other);
        let front_rest = without(front, id);
        if has_id(rest, other) {
            let i = choose|i: int| 0 <= i < rest.len() && #[trigger] rest[i].id == other;
            if last.id != id && i == rest.len() - 1 {
                assert(entries[entries.len() - 1].id == other);
            } else {
                assert(front_rest[i].id == other);
                let k = choose|k: int| 0 <= k < front.len() && #[trigger] front[k].id == other;
                assert(entries[k].id == other);
            }
        }
        if other != id && has_id(entries, other) {
            let k = choose|k: int| 0 <= k < entries.len() && #[trigger] entries[k].id == other;
            if k == entries.len() - 1 {
                assert(rest[rest.len() - 1].id == other);
            } else {
                assert(front[k].id == other);
                let i = choose|i: int|
                    0 <= i < front_rest.len() && #[trigger] front_rest[i].id == other;
                assert(rest[i].id == other);
            }
        }
    }
}

/// Every entry that stays after a removal is an entry from before.
proof fn lemma_without_keeps<H>(entries: Seq<Entry<H>>, id: ConnectionId, k: int)
    requires
        0 <= k < entries.len(),
        entries[k].id != id,
    ensures
        without(entries, id).contains(entries[k]),
    decreases entries.len(),
{
    let rest = without(entries, id);
    lemma_without_step(entries, id);
    if k == entries.len() - 1 {
        assert(rest[rest.len() - 1] == entries[k]);
    } else {
        let front = entries.drop_last();
        lemma_without_keeps(front, id, k);
        let front_rest = without(front, id);
        let i = choose|i: int| 0 <= i < front_rest.len() && front_rest[i] == front[k];
        assert(rest[i] == entries[k]);
    }
}

/// Removing an identifier that is not registered changes nothing.
pub proof fn lemma_without_absent<H>(entries: Seq<Entry<H>>, id: ConnectionId)
    requires
        !has_id(entries, id),
    ensures
        without(entries, id) == entries,
    decreases entries.len(),
{
    if entries.len() == 0 {
        assert(without(entries, id) =~= entries);
    } else {
        let front = entries.drop_last();
        lemma_without_step(entries, id);
        assert(entries[entries.len() - 1].id != id);
        assert forall|i: int| 0 <= i < front.len() implies #[trigger] front[i].id != id by {
            assert(entries[i].id != id);
        }
        lemma_without_absent(front, id);
        assert(front.push(entries.last()) =~= entries);
    }
}

/// Removal never introduces a duplicate identifier.
pub proof fn lemma_without_distinct<H>(entries: Seq<Entry<H>>, id: ConnectionId)
    requires
        distinct_ids(entries),
    ensures
        distinct_ids(without(entries, id)),
        without(entries, id).len() <= entries.len(),
    decreases entries.len(),
{
    let rest = without(entries, id);
    if entries.len() == 0 {
        assert(rest =~= entries);
    } else {
        let front = entries.drop_last();
        let last = entries.last();
        lemma_without_step(entries, id);
        assert forall|i: int, j: int| 0 <= i < j < front.len() implies front[i].id
            != front[j].id by {
            assert(entries[i].id != entries[j].id);
        }
        lemma_without_distinct(front, id);
        let front_rest = without(front, id);
        if last.id != id {
            assert forall|i: int, j: int| 0 <= i < j < rest.len() implies rest[i].id
                != rest[j].id by {
                if j == rest.len() - 1 {
                    assert(front_rest[i].id == rest[i].id);
                    if rest[i].id == last.id {
                        lemma_without_has_id(front, id, last.id);
                        let k = choose|k: int|
                            0 <= k < front.len() && #[trigger] front[k].id == last.id;
                        assert(entries[k].id != entries[entries.len() - 1].id);
                    }
                } else {
                    assert(front_rest[i].id != front_rest[j].id);
                }
            }
        }
    }
}

/// Where identifiers are distinct, removing the identifier found at position
/// `at` removes exactly that position.
pub proof fn lemma_without_at<H>(entries: Seq<Entry<H>>, at: int)
    requires
        distinct_ids(entries),
        0 <= at < entries.len(),
    ensures
        without(entries, entries[at].id) == entries.remove(at),
        entry_of(entries, entries[at].id) == Some(entries[at]),
    decreases entries.len(),
{
    let id = entries[at].id;
    let front = entries.drop_last();
    lemma_without_step(entries, id);
    assert forall|i: int, j: int| 0 <= i < j < front.len() implies front[i].id != front[j].id by {
        assert(entries[i].id != entries[j].id);
    }
    if at == entries.len() - 1 {
        assert forall|i: int| 0 <= i < front.len() implies #[trigger] front[i].id != id by {
            assert(entries[i].id != entries[at].id);
        }
        lemma_without_absent(front, id);
        assert(entries.remove(at) =~= front);
    } else {
        assert(entries[at].id != entries[entries.len() - 1].id);
        assert(front[at].id == id);
        lemma_without_at(front, at);
        assert(front.remove(at).push(entries.last()) =~= entries.remove(at));
    }
    let found = choose|i: int| 0 <= i < entries.len() && #[trigger] entries[i].id == id;
    if found < at {
        assert(entries[found].id != entries[at].id);
    } else if at < found {
        assert(entries[at].id != entries[found].id);
    }
}

/// Registering an entry keeps identifiers distinct, whatever stood under its
/// identifier before.
pub proof fn lemma_with_entry_distinct<H>(entries: Seq<Entry<H>>, entry: Entry<H>)
    requires
        distinct_ids(entries),
    ensures
        distinct_ids(with_entry(entries, entry)),
        has_id(with_entry(entries, entry), entry.id),
        entry_of(with_entry(entries, entry), entry.id) == Some(entry),
        !has_id(entries, entry.id) ==> with_entry(entries, entry) == entries.push(entry),
{
    let rest = without(entries, entry.id);
    let next = with_entry(entries, entry);
    lemma_without_distinct(entries, entry.id);
    lemma_without_has_id(entries, entry.id, entry.id);
    assert forall|i: int, j: int| 0 <= i < j < next.len() implies next[i].id != next[j].id by {
        if j == next.len() - 1 {
            assert(rest[i].id == next[i].id);
        } else {
            assert(rest[i].id != rest[j].id);
        }
    }
    assert(next[next.len() - 1].id == entry.id);
    lemma_without_at(next, next.len() - 1);
    if !has_id(entries, entry.id) {
        lemma_without_absent(entries, entry.id);
    }
}

/// Removing the same identifier a second time changes nothing and finds
/// nothing: only the first removal takes effect.
pub proof fn lemma_remove_is_idempotent<H>(entries: Seq<Entry<H>>, id: ConnectionId)
    ensures
        without(without(entries, id), id) == without(entries, id),
        entry_of(without(entries, id), id).is_none(),
{
    lemma_without_has_id(entries, id, id);
    lemma_without_absent(without(entries, id), id);
}

/// Where identifiers are distinct, a removal leaves every other identifier
/// with the entry it had.
pub proof fn lemma_without_others<H>(entries: Seq<Entry<H>>, id: ConnectionId, other: ConnectionId)
    requires
        distinct_ids(entries),
        other != id,
    ensures
        entry_of(without(entries, id), other) == entry_of(entries, other),
{
    let rest = without(entries, id);
    lemma_without_has_id(entries, id, other);
    lemma_without_distinct(entries, id);
    if has_id(entries, other) {
        let k = choose|k: int| 0 <= k < entries.len() && #[trigger] entries[k].id == other;
        lemma_without_keeps(entries, id, k);
        let i = choose|i: int| 0 <= i < rest.len() && rest[i] == entries[k];
        lemma_without_at(entries, k);
        lemma_without_at(rest, i);
    }
}

/// A snapshot that excludes an identifier holds no entry of that identifier,
/// and holds every other registered identifier exactly once, with its entry.
pub proof fn lemma_others_cover<H>(
    entries: Seq<Entry<H>>,
    except: Option<ConnectionId>,
    id: ConnectionId,
)
    requires
        distinct_ids(entries),
    ensures
        distinct_ids(others(entries, except)),
        has_id(others(entries, except), id) <==> has_id(entries, id) && except != Some(id),
        except != Some(id) ==> entry_of(others(entries, except), id) == entry_of(entries, id),
{
    match except {
        Some(x) => {
            lemma_without_distinct(entries, x);
            lemma_without_has_id(entries, x, id);
            if x != id {
                lemma_without_others(entries, x, id);
            }
        },
        None => {},
    }
}

/// Copies of a snapshot never include the excluded identifier, and include
/// every other registered identifier exactly once.
pub proof fn lemma_copies_cover<H: Clone>(
    entries: Seq<Entry<H>>,
    except: Option<ConnectionId>,
    copies: Seq<Entry<H>>,
    id: ConnectionId,
)
    requires
        distinct_ids(entries),
        are_copies(others(entries, except), copies),
    ensures
        distinct_ids(copies),
        has_id(copies, id) <==> has_id(entries, id) && except != Some(id),
        except == Some(id) ==> !has_id(copies, id),
{
    let reach = others(entries, except);
    lemma_others_cover(entries, except, id);
    assert forall|i: int, j: int| 0 <= i < j < copies.len() implies copies[i].id
        != copies[j].id by {
        assert(is_copy(reach[i], copies[i]));
        assert(is_copy(reach[j], copies[j]));
    }
    if has_id(copies, id) {
        let i = choose|i: int| 0 <= i < copies.len() && #[trigger] copies[i].id == id;
        assert(is_copy(reach[i], copies[i]));
        assert(reach[i].id == id);
    }
    if has_id(reach, id) {
        let i = choose|i: int| 0 <= i < reach.len() && #[trigger] reach[i].id == id;
        assert(is_copy(reach[i], copies[i]));
        assert(copies[i].id == id);
    }
}

/// One change to the registry: a connection registers, or the connection
/// under an identifier leaves.
pub enum Change<H> {
    Connect(Entry<H>),
    Disconnect(ConnectionId),
}

/// The entries after the changes have been applied in order.
pub open spec fn after_changes<H>(entries: Seq<Entry<H>>, changes: Seq<Change<H>>) -> Seq<Entry<H>>
    decreases changes.len(),
{
    if changes.len() == 0 {
        entries
    } else {
        let before = after_changes(entries, changes.drop_last());
        match changes.last() {
            Change::Connect(entry) => with_entry(before, entry),
            Change::Disconnect(id) => without(before, id),
        }
    }
}

/// Whatever the sequence of connects and disconnects, a registry that holds
/// no identifier twice (an empty one, say) never comes to hold one twice.
pub proof fn lemma_changes_keep_ids_distinct<H>(entries: Seq<Entry<H>>, changes: Seq<Change<H>>)
    requires
        distinct_ids(entries),
    ensures
        distinct_ids(after_changes(entries, changes)),
    decreases changes.len(),
{
    if changes.len() > 0 {
        lemma_changes_keep_ids_distinct(entries, changes.drop_last());
        let before = after_changes(entries, changes.drop_last());
        match changes.last() {
            Change::Connect(entry) => {
                lemma_with_entry_distinct(before, entry);
            },
            Change::Disconnect(id) => {
                lemma_without_distinct(before, id);
            },
        }
    }
}

/// One registered connection: its identifier, its display name and the
/// handle through which it is written to.
pub struct Connection<H> {
    pub id: ConnectionId,
    pub name: String,
    pub handle: H,
}

impl<H> View for Connection<H> {
    type V = Entry<H>;

    open spec fn view(&self) -> Entry<H> {
        Entry { id: self.id, name: self.name@, handle: self.handle }
    }
}

/// The entries that a list of connections stands for.
pub open spec fn entries_of<H>(connections: Seq<Connection<H>>) -> Seq<Entry<H>> {
    connections.map_values(|c: Connection<H>| c@)
}

/// The registered connections, in the order in which they were registered.
pub struct Registry<H> {
    connections: Vec<Connection<H>>,
}

impl<H> View for Registry<H> {
    type V = Seq<Entry<H>>;

    closed spec fn view(&self) -> Seq<Entry<H>> {
        entries_of(self.connections@)
    }
}

impl<H> Registry<H> {
    /// Holds of every registry: an identifier is registered at most once.
    #[verifier::type_invariant]
    pub open spec fn unique(&self) -> bool {
        distinct_ids(self@)
    }

    /// An empty registry.
    pub fn new() -> (registry: Registry<H>)
        ensures
            registry@ == Seq::<Entry<H>>::empty(),
    {
        let registry = Registry { connections: Vec::new() };
        assert(registry@ =~= Seq::<Entry<H>>::empty());
        registry
    }

    /// The number of registered connections.
    pub fn len(&self) -> (n: usize)
        ensures
            n == self@.len(),
            distinct_ids(self@),
    {
        proof {
            use_type_invariant(self);
        }
        self.connections.len()
    }

    /// The position at which `id` is registered.
    fn position(&self, id: ConnectionId) -> (found: Option<usize>)
        ensures
            distinct_ids(self@),
            match found {
                Some(at) => at < self@.len() && self@[at as int].id == id,
                None => !has_id(self@, id),
            },
    {
        proof {
            use_type_invariant(self);
        }
        let n: usize = self.connections.len();
        let mut at: usize = 0;
        while at < n
            invariant
                at <= n,
                n == self.connections.len(),
                distinct_ids(self@),
                forall|i: int| 0 <= i < at ==> #[trigger] self@[i].id != id,
            decreases n - at,
        {
            if self.connections[at].id == id {
                return Some(at);
            }
            at += 1;
        }
        None
    }

    /// Whether a connection is registered under `id`.
    pub fn contains(&self, id: ConnectionId) -> (found: bool)
        ensures
            found == has_id(self@, id),
            distinct_ids(self@),
    {
        self.position(id).is_some()
    }

    /// Registers a connection under `id`. Callers pass a fresh identifier;
    /// should one be passed again, the new connection takes the place of the
    /// one that was registered under it.
    pub fn insert(&mut self, id: ConnectionId, name: String, handle: H)
        ensures
            final(self)@ == with_entry(old(self)@, (Entry { id, name: name@, handle })),
            !has_id(old(self)@, id) ==> final(self)@ == old(self)@.push(
                (Entry { id, name: name@, handle }),
            ),
            distinct_ids(final(self)@),
    {
        let ghost before = self@;
        let ghost entry = Entry { id, name: name@, handle };
        proof {
            use_type_invariant(&*self);
            lemma_with_entry_distinct(before, entry);
        }
        let found = self.position(id);
        let mut connections: Vec<Connection<H>> = Vec::new();
        core::mem::swap(&mut self.connections, &mut connections);
        assert(entries_of(connections@) == before);
        match found {
            Some(at) => {
                proof {
                    lemma_without_at(before, at as int);
                }
                let _ = connections.remove(at);
                assert(entries_of(connections@) =~= before.remove(at as int));
            },
            None => {
                proof {
                    lemma_without_absent(before, id);
                }
            },
        }
        assert(entries_of(connections@) == without(before, id));
        connections.push(Connection { id, name, handle });
        assert(entries_of(connections@) =~= with_entry(before, entry));
        self.connections = connections;
    }

    /// Removes and returns the connection registered under `id`. Where none
    /// is registered under it, nothing changes and nothing is returned.
    pub fn remove(&mut self, id: ConnectionId) -> (removed: Option<Connection<H>>)
        ensures
            final(self)@ == without(old(self)@, id),
            match removed {
                Some(connection) => {
                    &&& entry_of(old(self)@, id) == Some(connection@)
                    &&& final(self)@.len() == old(self)@.len() - 1
                },
                None => !has_id(old(self)@, id) && final(self)@ == old(self)@,
            },
            distinct_ids(final(self)@),
    {
        let ghost before = self@;
        proof {
            use_type_invariant(&*self);
            lemma_without_distinct(before, id);
        }
        match self.position(id) {
            Some(at) => {
                proof {
                    lemma_without_at(before, at as int);
                }
                let mut connections: Vec<Connection<H>> = Vec::new();
                core::mem::swap(&mut self.connections, &mut connections);
                assert(entries_of(connections@) == before);
                let connection = connections.remove(at);
                assert(entries_of(connections@) =~= before.remove(at as int));
                self.connections = connections;
                Some(connection)
            },
            None => {
                proof {
                    lemma_without_absent(before, id);
                }
                None
            },
        }
    }

    /// The display names of all registered connections, in registry order.
    pub fn list_names(&self) -> (listed: Vec<String>)
        ensures
            listed.deep_view() == names(self@),
            distinct_ids(self@),
    {
        proof {
            use_type_invariant(self);
        }
        let mut listed: Vec<String> = Vec::new();
        let n: usize = self.connections.len();
        let mut at: usize = 0;
        while at < n
            invariant
                at <= n,
                n == self.connections.len(),
                listed@.len() == at,
                listed.deep_view() == names(self@.take(at as int)),
            decreases n - at,
        {
            let ghost before = listed.deep_view();
            listed.push(self.connections[at].name.clone());
            proof {
                let after = listed.deep_view();
                let wanted = names(self@.take(at + 1));
                assert forall|i: int| 0 <= i < after.len() implies after[i] == wanted[i] by {
                    if i < at {
                        assert(after[i] == before[i]);
                        assert(before[i] == names(self@.take(at as int))[i]);
                    }
                }
                assert(after =~= wanted);
            }
            at += 1;
        }
        proof {
            assert(self@.take(n as int) =~= self@);
        }
        listed
    }
}

impl<H: Clone> Registry<H> {
    /// A copy of every registered connection but the excluded one, in
    /// registry order, each with a handle of its own to the same transport.
    pub fn snapshot(&self, except: Option<ConnectionId>) -> (copies: Vec<Connection<H>>)
        ensures
            are_copies(others(self@, except), entries_of(copies@)),
            forall|id: ConnectionId| #[trigger]
                has_id(entries_of(copies@), id) <==> has_id(self@, id) && except != Some(id),
            distinct_ids(self@),
            distinct_ids(entries_of(copies@)),
    {
        proof {
            use_type_invariant(self);
        }
        let mut copies: Vec<Connection<H>> = Vec::new();
        let n: usize = self.connections.len();
        let mut at: usize = 0;
        while at < n
            invariant
                at <= n,
                n == self.connections.len(),
                are_copies(others(self@.take(at as int), except), entries_of(copies@)),
            decreases n - at,
        {
            let connection = &self.connections[at];
            let ghost seen = self@.take(at as int);
            let ghost next = self@.take(at + 1);
            proof {
                assert(next.drop_last() =~= seen);
                assert(next.last() == connection@);
                if let Some(x) = except {
                    lemma_without_step(next, x);
                }
            }
            let skip = match except {
                Some(x) => connection.id == x,
                None => false,
            };
            if !skip {
                let ghost before = entries_of(copies@);
                let copy = Connection {
                    id: connection.id,
                    name: connection.name.clone(),
                    handle: connection.handle.clone(),
                };
                copies.push(copy);
                proof {
                    let after = entries_of(copies@);
                    let reach = others(next, except);
                    assert(reach =~= others(seen, except).push(connection@));
                    assert forall|i: int| 0 <= i < reach.len() implies is_copy(
                        #[trigger] reach[i],
                        after[i],
                    ) by {
                        if i < before.len() {
                            assert(after[i] == before[i]);
                            assert(is_copy(others(seen, except)[i], before[i]));
                        }
                    }
                }
            }
            at += 1;
        }
        proof {
            assert(self@.take(n as int) =~= self@);
            assert forall|id: ConnectionId| #[trigger]
                has_id(entries_of(copies@), id) <==> has_id(self@, id) && except != Some(id) by {
                lemma_copies_cover(self@, except, entries_of(copies@), id);
            }
            lemma_copies_cover(self@, except, entries_of(copies@), 0);
        }
        copies
    }
}

} // verus!
