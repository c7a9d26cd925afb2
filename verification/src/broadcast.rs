//! The broadcaster: one message, delivered to a snapshot of the registry.
//!
//! A broadcast runs in three stages. `begin` copies the recipients out of the
//! registry. The embedding program then writes the message to one recipient
//! after the other, without access to the registry, and reports each outcome
//! to `record`. `finish` removes from the registry every connection whose
//! write failed. A failed write never keeps the later recipients from their
//! turn.

use crate::ids::ConnectionId;
use crate::journal::{pruned, pruned_entry, send_failed, send_failed_entry};
use crate::registry::{
    are_copies, distinct_ids, entries_of, entry_of, has_id, lemma_without_absent,
    lemma_without_distinct, lemma_without_has_id, others, without, Connection, Entry, Registry,
};
use vstd::prelude::*;

verus! {

/// A broadcast in progress, as a mathematical value.
pub struct BroadcastView<H> {
    /// The text every recipient is sent.
    pub message: Seq<char>,
    /// The recipients, in the order in which they are written to.
    pub recipients: Seq<Entry<H>>,
    /// How many recipients have had their turn.
    pub attempted: nat,
    /// The identifiers whose write failed, in the order of the attempts.
    pub failed: Seq<ConnectionId>,
}

impl<H> BroadcastView<H> {
    /// What holds of every broadcast: no more turns are taken than there are
    /// recipients, no recipient occurs twice, and the marked identifiers are
    /// those of recipients that have had their turn, each marked once.
    pub open spec fn wf(self) -> bool {
        &&& self.attempted <= self.recipients.len()
        &&& distinct_ids(self.recipients)
        &&& self.failed.no_duplicates()
        &&& forall|id: ConnectionId| #[trigger]
            self.failed.contains(id) ==> has_id(self.recipients.take(self.attempted as int), id)
    }
}

/// The broadcast after the next recipient's write was reported. Once every
/// recipient has had its turn, a further report changes nothing.
pub open spec fn after_report<H>(b: BroadcastView<H>, delivered: bool) -> BroadcastView<H> {
    if b.attempted < b.recipients.len() {
        BroadcastView {
            attempted: b.attempted + 1,
            failed: if delivered {
                b.failed
            } else {
                b.failed.push(b.recipients[b.attempted as int].id)
            },
            ..b
        }
    } else {
        b
    }
}

/// A report keeps a broadcast well formed.
pub proof fn lemma_report_keeps_wf<H>(b: BroadcastView<H>, delivered: bool)
    requires
        b.wf(),
    ensures
        after_report(b, delivered).wf(),
{
    let next = after_report(b, delivered);
    if b.attempted < b.recipients.len() {
        let at = b.attempted as int;
        let turn = b.recipients[at].id;
        let seen = b.recipients.take(at);
        let seen_next = b.recipients.take(at + 1);
        assert forall|id: ConnectionId| #[trigger] next.failed.contains(id) implies has_id(
            seen_next,
            id,
        ) by {
            if b.failed.contains(id) {
                let k = choose|k: int| 0 <= k < seen.len() && #[trigger] seen[k].id == id;
                assert(seen_next[k].id == id);
            } else {
                let i = choose|i: int| 0 <= i < next.failed.len() && next.failed[i] == id;
                if i < b.failed.len() {
                    assert(b.failed[i] == id);
                }
                assert(seen_next[at].id == id);
            }
        }
        if !delivered {
            if b.failed.contains(turn) {
                let k = choose|k: int| 0 <= k < seen.len() && #[trigger] seen[k].id == turn;
                assert(b.recipients[k].id != b.recipients[at].id);
            }
            let marked = next.failed;
            assert forall|i: int, j: int|
                0 <= i < marked.len() && 0 <= j < marked.len() && i != j implies marked[i]
                != marked[j] by {
                if i < b.failed.len() && j < b.failed.len() {
                    assert(b.failed[i] != b.failed[j]);
                } else if i < b.failed.len() {
                    assert(b.failed.contains(b.failed[i]));
                } else {
                    assert(b.failed.contains(b.failed[j]));
                }
            }
        }
    }
}

/// The log line that a report gives rise to: one for a failed write to a
/// recipient, none otherwise.
pub open spec fn report_entry<H>(b: BroadcastView<H>, outcome: Result<(), Seq<char>>) -> Option<
    Seq<char>,
> {
    match outcome {
        Err(error) if b.attempted < b.recipients.len() => {
            let recipient = b.recipients[b.attempted as int];
            Some(send_failed_entry(recipient.name, recipient.id, error))
        },
        _ => None,
    }
}

/// The broadcast after one report for each entry of `delivered`, in order.
pub open spec fn after_reports<H>(b: BroadcastView<H>, delivered: Seq<bool>) -> BroadcastView<H>
    decreases delivered.len(),
{
    if delivered.len() == 0 {
        b
    } else {
        after_report(after_reports(b, delivered.drop_last()), delivered.last())
    }
}

/// A delivery pass gives every recipient exactly one turn, whatever became
/// of the turns before it, and marks exactly the recipients whose write
/// failed.
pub proof fn lemma_every_recipient_has_its_turn<H>(b: BroadcastView<H>, delivered: Seq<bool>)
    requires
        b.attempted == 0,
        b.failed.len() == 0,
        delivered.len() <= b.recipients.len(),
        distinct_ids(b.recipients),
    ensures
        ({
            let end = after_reports(b, delivered);
            &&& end.recipients == b.recipients
            &&& end.message == b.message
            &&& end.attempted == delivered.len()
            &&& forall|i: int|
                0 <= i < delivered.len() ==> (end.failed.contains(#[trigger] b.recipients[i].id)
                    <==> !delivered[i])
            &&& forall|id: ConnectionId| #[trigger]
                end.failed.contains(id) ==> has_id(b.recipients.take(delivered.len() as int), id)
        }),
    decreases delivered.len(),
{
    if delivered.len() > 0 {
        let earlier = delivered.drop_last();
        lemma_every_recipient_has_its_turn(b, earlier);
        let mid = after_reports(b, earlier);
        let end = after_reports(b, delivered);
        let last = earlier.len() as int;
        let turn = b.recipients[last].id;
        assert forall|id: ConnectionId| #[trigger] end.failed.contains(id) implies has_id(
            b.recipients.take(delivered.len() as int),
            id,
        ) by {
            let at = choose|at: int| 0 <= at < end.failed.len() && end.failed[at] == id;
            if at < mid.failed.len() {
                assert(mid.failed[at] == id);
                assert(mid.failed.contains(id));
                let k = choose|k: int|
                    0 <= k < last && #[trigger] b.recipients.take(last)[k].id == id;
                assert(b.recipients.take(delivered.len() as int)[k].id == id);
            } else {
                assert(b.recipients.take(delivered.len() as int)[last].id == id);
            }
        }
        assert forall|i: int| 0 <= i < delivered.len() implies (end.failed.contains(
            #[trigger] b.recipients[i].id,
        ) <==> !delivered[i]) by {
            let id = b.recipients[i].id;
            if i < last {
                assert(delivered[i] == earlier[i]);
                assert(id != turn);
                if mid.failed.contains(id) {
                    let at = choose|at: int| 0 <= at < mid.failed.len() && mid.failed[at] == id;
                    assert(end.failed[at] == id);
                }
                if end.failed.contains(id) {
                    let at = choose|at: int| 0 <= at < end.failed.len() && end.failed[at] == id;
                    assert(mid.failed[at] == id);
                }
            } else {
                if delivered[i] {
                    if mid.failed.contains(turn) {
                        let k = choose|k: int|
                            0 <= k < last && #[trigger] b.recipients.take(last)[k].id == turn;
                        assert(b.recipients[k].id != b.recipients[last].id);
                    }
                } else {
                    assert(end.failed[end.failed.len() - 1] == turn);
                }
            }
        }
    }
}

/// The registry entries once every identifier in `failed` has been removed.
pub open spec fn pruned_entries<H>(entries: Seq<Entry<H>>, failed: Seq<ConnectionId>) -> Seq<
    Entry<H>,
>
    decreases failed.len(),
{
    if failed.len() == 0 {
        entries
    } else {
        without(pruned_entries(entries, failed.drop_last()), failed.last())
    }
}

/// The notices of a pruning pass: one for each identifier in `failed` that
/// was still registered when its turn came, in the order of `failed`.
pub open spec fn prune_notices<H>(entries: Seq<Entry<H>>, failed: Seq<ConnectionId>) -> Seq<
    Seq<char>,
>
    decreases failed.len(),
{
    if failed.len() == 0 {
        Seq::empty()
    } else {
        let earlier = prune_notices(entries, failed.drop_last());
        match entry_of(pruned_entries(entries, failed.drop_last()), failed.last()) {
            Some(entry) => earlier.push(pruned_entry(entry.name, entry.id)),
            None => earlier,
        }
    }
}

/// Pruning removes exactly the failed identifiers and keeps the rest
/// distinct.
pub proof fn lemma_pruned_entries<H>(
    entries: Seq<Entry<H>>,
    failed: Seq<ConnectionId>,
    id: ConnectionId,
)
    requires
        distinct_ids(entries),
    ensures
        distinct_ids(pruned_entries(entries, failed)),
        has_id(pruned_entries(entries, failed), id) <==> has_id(entries, id) && !failed.contains(
            id,
        ),
        prune_notices(entries, failed).len() <= failed.len(),
    decreases failed.len(),
{
    if failed.len() > 0 {
        let earlier = failed.drop_last();
        lemma_pruned_entries(entries, earlier, id);
        let before = pruned_entries(entries, earlier);
        lemma_without_distinct(before, failed.last());
        lemma_without_has_id(before, failed.last(), id);
        if failed.contains(id) {
            let at = choose|at: int| 0 <= at < failed.len() && failed[at] == id;
            if at < failed.len() - 1 {
                assert(earlier[at] == id);
            }
        }
        if earlier.contains(id) {
            let at = choose|at: int| 0 <= at < earlier.len() && earlier[at] == id;
            assert(failed[at] == id);
        }
    }
}

/// After a whole delivery pass and the pruning that ends it, a connection is
/// registered exactly if it was registered before and no write to it failed.
pub proof fn lemma_failed_recipients_are_removed<H>(
    entries: Seq<Entry<H>>,
    b: BroadcastView<H>,
    delivered: Seq<bool>,
    id: ConnectionId,
)
    requires
        distinct_ids(entries),
        distinct_ids(b.recipients),
        b.attempted == 0,
        b.failed.len() == 0,
        delivered.len() == b.recipients.len(),
    ensures
        ({
            let end = after_reports(b, delivered);
            let left = pruned_entries(entries, end.failed);
            &&& distinct_ids(left)
            &&& has_id(left, id) <==> has_id(entries, id) && !(exists|i: int|
                0 <= i < b.recipients.len() && #[trigger] b.recipients[i].id == id
                    && !delivered[i])
        }),
{
    let end = after_reports(b, delivered);
    lemma_every_recipient_has_its_turn(b, delivered);
    lemma_pruned_entries(entries, end.failed, id);
    assert(b.recipients.take(delivered.len() as int) =~= b.recipients);
    if end.failed.contains(id) {
        let k = choose|k: int| 0 <= k < b.recipients.len() && #[trigger] b.recipients[k].id == id;
        assert(end.failed.contains(b.recipients[k].id));
    }
}

/// A second pruning pass over the same identifiers removes nothing more and
/// gives no notice.
pub proof fn lemma_second_prune_is_silent<H>(entries: Seq<Entry<H>>, failed: Seq<ConnectionId>)
    requires
        distinct_ids(entries),
    ensures
        pruned_entries(pruned_entries(entries, failed), failed) == pruned_entries(entries, failed),
        prune_notices(pruned_entries(entries, failed), failed) == Seq::<Seq<char>>::empty(),
{
    lemma_prune_of_absent(pruned_entries(entries, failed), failed, entries, failed);
}

/// Pruning identifiers none of which is registered changes nothing and
/// gives no notice.
proof fn lemma_prune_of_absent<H>(
    entries: Seq<Entry<H>>,
    failed: Seq<ConnectionId>,
    origin: Seq<Entry<H>>,
    all: Seq<ConnectionId>,
)
    requires
        distinct_ids(origin),
        entries == pruned_entries(origin, all),
        forall|i: int| 0 <= i < failed.len() ==> all.contains(#[trigger] failed[i]),
    ensures
        pruned_entries(entries, failed) == entries,
        prune_notices(entries, failed) == Seq::<Seq<char>>::empty(),
    decreases failed.len(),
{
    if failed.len() > 0 {
        let earlier = failed.drop_last();
        assert forall|i: int| 0 <= i < earlier.len() implies all.contains(
            #[trigger] earlier[i],
        ) by {
            assert(earlier[i] == failed[i]);
        }
        lemma_prune_of_absent(entries, earlier, origin, all);
        assert(all.contains(failed[failed.len() - 1]));
        lemma_pruned_entries(origin, all, failed.last());
        lemma_without_absent(entries, failed.last());
    }
}

/// One broadcast in progress: the message, the recipients copied from the
/// registry, and the connections marked for removal so far.
pub struct Broadcast<H> {
    message: String,
    recipients: Vec<Connection<H>>,
    attempted: usize,
    failed: Vec<ConnectionId>,
}

impl<H> View for Broadcast<H> {
    type V = BroadcastView<H>;

    closed spec fn view(&self) -> BroadcastView<H> {
        BroadcastView {
            message: self.message@,
            recipients: entries_of(self.recipients@),
            attempted: self.attempted as nat,
            failed: self.failed@,
        }
    }
}

impl<H> Broadcast<H> {
    /// Holds of every broadcast: it is well formed.
    #[verifier::type_invariant]
    pub open spec fn sound(&self) -> bool {
        self@.wf()
    }

    /// The text to write to each recipient.
    pub fn message(&self) -> (text: &str)
        ensures
            text@ == self@.message,
    {
        self.message.as_str()
    }

    /// The recipient whose turn it is, or nothing once all have had theirs.
    pub fn pending(&self) -> (next: Option<&Connection<H>>)
        ensures
            self@.wf(),
            match next {
                Some(recipient) => self@.attempted < self@.recipients.len() && recipient@
                    == self@.recipients[self@.attempted as int],
                None => self@.attempted == self@.recipients.len(),
            },
    {
        proof {
            use_type_invariant(self);
        }
        if self.attempted < self.recipients.len() {
            Some(&self.recipients[self.attempted])
        } else {
            None
        }
    }

    /// Takes the outcome of the write to the pending recipient: `Ok` if the
    /// whole message was written, else the transport's error text. A failure
    /// marks the recipient for removal and yields a log line. Either way the
    /// turn passes to the next recipient.
    pub fn record(&mut self, outcome: Result<(), String>) -> (entry: Option<String>)
        ensures
            final(self)@ == after_report(old(self)@, outcome is Ok),
            match entry {
                Some(line) => report_entry(old(self)@, outcome_text(outcome)) == Some(line@),
                None => report_entry(old(self)@, outcome_text(outcome)).is_none(),
            },
            final(self)@.wf(),
    {
        let ghost before = self@;
        proof {
            use_type_invariant(&*self);
            lemma_report_keeps_wf(before, true);
            lemma_report_keeps_wf(before, false);
        }
        if self.attempted < self.recipients.len() {
            let at: usize = self.attempted;
            match outcome {
                Ok(_) => {
                    assert(BroadcastView { attempted: (at + 1) as nat, ..before } == after_report(
                        before,
                        true,
                    ));
                    self.attempted = at + 1;
                    None
                },
                Err(error) => {
                    let recipient = &self.recipients[at];
                    let line = send_failed(recipient.name.as_str(), recipient.id, error.as_str());
                    let id: ConnectionId = recipient.id;
                    let mut failed: Vec<ConnectionId> = Vec::new();
                    core::mem::swap(&mut self.failed, &mut failed);
                    failed.push(id);
                    assert(BroadcastView { attempted: (at + 1) as nat, failed: failed@, ..before }
                        == after_report(before, false));
                    self.attempted = at + 1;
                    self.failed = failed;
                    Some(line)
                },
            }
        } else {
            None
        }
    }
}

/// The outcome of a write with its error text as a sequence of characters.
pub open spec fn outcome_text(outcome: Result<(), String>) -> Result<(), Seq<char>> {
    match outcome {
        Ok(_) => Ok(()),
        Err(error) => Err(error@),
    }
}

impl<H: Clone> Broadcast<H> {
    /// Starts a broadcast of `message` to every registered connection but
    /// the excluded one. The recipients are fixed here: a connection that
    /// registers later is not reached, one that leaves later still is.
    pub fn begin(registry: &Registry<H>, message: String, except: Option<ConnectionId>) -> (started:
        Broadcast<H>)
        ensures
            started@.message == message@,
            are_copies(others(registry@, except), started@.recipients),
            forall|id: ConnectionId| #[trigger]
                has_id(started@.recipients, id) <==> has_id(registry@, id) && except != Some(id),
            started@.wf(),
            started@.attempted == 0,
            started@.failed == Seq::<ConnectionId>::empty(),
    {
        let recipients = registry.snapshot(except);
        Broadcast { message, recipients, attempted: 0, failed: Vec::new() }
    }
}

impl<H> Broadcast<H> {
    /// Ends the broadcast: removes every connection whose write failed from
    /// the registry and returns one notice for each connection removed. A
    /// marked connection that has left the registry meanwhile gives none.
    pub fn finish(self, registry: &mut Registry<H>) -> (notices: Vec<String>)
        ensures
            final(registry)@ == pruned_entries(old(registry)@, self@.failed),
            notices.deep_view() == prune_notices(old(registry)@, self@.failed),
            distinct_ids(final(registry)@),
    {
        let ghost origin = registry@;
        let mut notices: Vec<String> = Vec::new();
        let n: usize = self.failed.len();
        proof {
            use_type_invariant(&*registry);
        }
        let mut at: usize = 0;
        while at < n
            invariant
                at <= n,
                n == self.failed.len(),
                registry@ == pruned_entries(origin, self.failed@.take(at as int)),
                notices.deep_view() == prune_notices(origin, self.failed@.take(at as int)),
                distinct_ids(registry@),
            decreases n - at,
        {
            let id: ConnectionId = self.failed[at];
            let ghost done = self.failed@.take(at as int);
            let ghost next = self.failed@.take(at + 1);
            let ghost earlier = notices.deep_view();
            proof {
                assert(next.drop_last() =~= done);
                assert(next.last() == id);
            }
            match registry.remove(id) {
                Some(connection) => {
                    notices.push(pruned(connection.name.as_str(), connection.id));
                    proof {
                        let entry = connection@;
                        assert(entry_of(pruned_entries(origin, done), id) == Some(entry));
                        assert(notices.deep_view() =~= earlier.push(
                            pruned_entry(entry.name, entry.id),
                        ));
                    }
                },
                None => {
                    proof {
                        assert(notices.deep_view() =~= earlier);
                    }
                },
            }
            at += 1;
        }
        proof {
            assert(self.failed@.take(n as int) =~= self.failed@);
        }
        notices
    }
}

} // verus!
