//! The connection registry and the bookkeeping of one broadcast tick.
//!
//! The registry holds an ordered list of live client connections, raw and
//! WebSocket alike, without deduplication. Each tick the driver walks the
//! entries in order and attempts delivery to each: a connection whose
//! liveness probe fails is dropped before any write, one whose write
//! fails is dropped as well, and the surviving entries keep their order.
//! The outcome of each attempt is handed back here, where the pruning and
//! the byte and message counters are computed; the socket work itself is
//! the caller's.

use vstd::prelude::*;

verus! {

/// The transport a registered connection speaks.
#[derive(Clone, Copy, Debug, PartialEq, Eq, Structural)]
pub enum ConnKind {
    Raw,
    WebSocket,
}

/// One registry entry: a handle for a client socket the caller owns,
/// tagged with its transport.
#[derive(Clone, Copy, Debug, PartialEq, Eq, Structural)]
pub struct Connection {
    pub id: u64,
    pub kind: ConnKind,
}

/// What one delivery attempt came to: the frame was written (so many
/// bytes, so many messages), the liveness probe found the peer already
/// gone, or a write failed.
#[derive(Clone, Copy, Debug, PartialEq, Eq, Structural)]
pub enum DeliveryOutcome {
    Delivered { bytes: usize, messages: usize },
    Closed,
    WriteFailed,
}

/// Aggregate counters one broadcast tick reports.
#[derive(Clone, Copy, Debug, PartialEq, Eq, Structural)]
pub struct TickCounters {
    pub bytes: usize,
    pub messages: usize,
}

/// Whether an outcome lets its connection stay registered.
pub open spec fn keeps(o: DeliveryOutcome) -> bool {
    o is Delivered
}

/// The entries still registered after a tick: those whose delivery
/// succeeded, in their old order.
pub open spec fn surviving(entries: Seq<Connection>, outcomes: Seq<DeliveryOutcome>) -> Seq<
    Connection,
>
    recommends
        entries.len() == outcomes.len(),
    decreases entries.len(),
{
    if entries.len() == 0 {
        Seq::empty()
    } else if keeps(outcomes[0]) {
        seq![entries[0]] + surviving(entries.skip(1), outcomes.skip(1))
    } else {
        surviving(entries.skip(1), outcomes.skip(1))
    }
}

/// The bytes one outcome contributed.
pub open spec fn bytes_of(o: DeliveryOutcome) -> nat {
    match o {
        DeliveryOutcome::Delivered { bytes, .. } => bytes as nat,
        _ => 0,
    }
}

/// The messages one outcome contributed.
pub open spec fn messages_of(o: DeliveryOutcome) -> nat {
    match o {
        DeliveryOutcome::Delivered { messages, .. } => messages as nat,
        _ => 0,
    }
}

/// Total bytes delivered over a tick's outcomes.
pub open spec fn bytes_total(outcomes: Seq<DeliveryOutcome>) -> nat
    decreases outcomes.len(),
{
    if outcomes.len() == 0 {
        0
    } else {
        bytes_of(outcomes[0]) + bytes_total(outcomes.skip(1))
    }
}

/// Total messages delivered over a tick's outcomes.
pub open spec fn messages_total(outcomes: Seq<DeliveryOutcome>) -> nat
    decreases outcomes.len(),
{
    if outcomes.len() == 0 {
        0
    } else {
        messages_of(outcomes[0]) + messages_total(outcomes.skip(1))
    }
}

/// A count clamped to what a usize counter can hold.
pub open spec fn sat_usize(n: nat) -> nat {
    if n <= usize::MAX {
        n
    } else {
        usize::MAX as nat
    }
}

/// The shared registry of live client connections.
pub struct Registry {
    pub entries: Vec<Connection>,
    pub next_id: u64,
}

impl Registry {
    /// An empty registry whose first connection will get id 0.
    pub fn new() -> (r: Registry)
        ensures
            r.entries@ == Seq::<Connection>::empty(),
            r.next_id == 0,
    {
        Registry { entries: Vec::new(), next_id: 0 }
    }

    /// How many connections are registered.
    pub fn len(&self) -> (n: usize)
        ensures
            n == self.entries@.len(),
    {
        self.entries.len()
    }

    /// The entry at a position, in registration order.
    pub fn get(&self, i: usize) -> (c: Connection)
        requires
            i < self.entries@.len(),
        ensures
            c == self.entries@[i as int],
    {
        self.entries[i]
    }

    /// Appends a new connection of the given kind and hands back the
    /// fresh id the caller keys its socket under. Membership is not
    /// deduplicated: registering twice makes two entries.
    pub fn register(&mut self, kind: ConnKind) -> (id: u64)
        requires
            old(self).next_id < u64::MAX,
        ensures
            final(self).entries@ == old(self).entries@.push(
                Connection { id: old(self).next_id, kind },
            ),
            final(self).next_id == old(self).next_id + 1,
            id == old(self).next_id,
    {
        let id = self.next_id;
        self.entries.push(Connection { id, kind });
        self.next_id = self.next_id + 1;
        id
    }

    /// Applies the outcomes of one broadcast tick, one outcome per entry
    /// in registration order: entries whose delivery succeeded survive in
    /// order, the others are dropped, and the tick's byte and message
    /// totals are reported, clamped only at the counters' machine limit.
    pub fn apply_broadcast(&mut self, outcomes: &Vec<DeliveryOutcome>) -> (c: TickCounters)
        requires
            outcomes@.len() == old(self).entries@.len(),
        ensures
            final(self).entries@ == surviving(old(self).entries@, outcomes@),
            final(self).next_id == old(self).next_id,
            c.bytes == sat_usize(bytes_total(outcomes@)),
            c.messages == sat_usize(messages_total(outcomes@)),
    {
        let ghost all_entries = self.entries@;
        let mut kept: Vec<Connection> = Vec::new();
        let mut bytes: usize = 0;
        let mut messages: usize = 0;
        let ghost mut bytes_so_far: nat = 0nat;
        let ghost mut messages_so_far: nat = 0nat;
        let mut i: usize = 0;
        proof {
            assert(all_entries.skip(0) =~= all_entries);
            assert(outcomes@.skip(0) =~= outcomes@);
        }
        while i < self.entries.len()
            invariant
                0 <= i <= self.entries@.len(),
                self.entries@ == all_entries,
                outcomes@.len() == all_entries.len(),
                surviving(all_entries, outcomes@) == kept@ + surviving(
                    all_entries.skip(i as int),
                    outcomes@.skip(i as int),
                ),
                bytes_total(outcomes@) == bytes_so_far + bytes_total(outcomes@.skip(i as int)),
                messages_total(outcomes@) == messages_so_far + messages_total(
                    outcomes@.skip(i as int),
                ),
                bytes == sat_usize(bytes_so_far),
                messages == sat_usize(messages_so_far),
            decreases self.entries@.len() - i,
        {
            let o = outcomes[i];
            match o {
                DeliveryOutcome::Delivered { bytes: b, messages: m } => {
                    kept.push(self.entries[i]);
                    bytes = bytes.saturating_add(b);
                    messages = messages.saturating_add(m);
                },
                DeliveryOutcome::Closed => {},
                DeliveryOutcome::WriteFailed => {},
            }
            proof {
                assert(all_entries.skip(i as int).skip(1) =~= all_entries.skip(i + 1));
                assert(outcomes@.skip(i as int).skip(1) =~= outcomes@.skip(i + 1));
                bytes_so_far = bytes_so_far + bytes_of(outcomes@[i as int]);
                messages_so_far = messages_so_far + messages_of(outcomes@[i as int]);
                assert(kept@ + surviving(all_entries.skip(i + 1), outcomes@.skip(i + 1))
                    =~= surviving(all_entries, outcomes@));
            }
            i += 1;
        }
        proof {
            assert(all_entries.skip(i as int) =~= Seq::<Connection>::empty());
            assert(outcomes@.skip(i as int) =~= Seq::<DeliveryOutcome>::empty());
            assert(kept@ + Seq::<Connection>::empty() =~= kept@);
        }
        self.entries = kept;
        TickCounters { bytes, messages }
    }
}

/// When every delivery succeeds, every entry survives.
pub proof fn lemma_surviving_all_delivered(
    entries: Seq<Connection>,
    outcomes: Seq<DeliveryOutcome>,
)
    requires
        entries.len() == outcomes.len(),
        forall|k: int| 0 <= k < outcomes.len() ==> keeps(#[trigger] outcomes[k]),
    ensures
        surviving(entries, outcomes) == entries,
    decreases entries.len(),
{
    if entries.len() == 0 {
        assert(surviving(entries, outcomes) =~= entries);
    } else {
        lemma_surviving_all_delivered(entries.skip(1), outcomes.skip(1));
        assert(seq![entries[0]] + entries.skip(1) =~= entries);
    }
}

/// Fault isolation over one tick: when one registered connection is
/// already closed and every other delivery succeeds, exactly the closed
/// one leaves the registry — the others survive in order — and the
/// closed one contributes nothing to the tick's byte and message totals.
pub proof fn lemma_broadcast_fault_isolation(
    entries: Seq<Connection>,
    outcomes: Seq<DeliveryOutcome>,
    j: int,
)
    requires
        entries.len() == outcomes.len(),
        0 <= j < outcomes.len(),
        !keeps(outcomes[j]),
        forall|k: int| 0 <= k < outcomes.len() && k != j ==> keeps(#[trigger] outcomes[k]),
    ensures
        surviving(entries, outcomes) == entries.remove(j),
        bytes_total(outcomes) == bytes_total(outcomes.remove(j)),
        messages_total(outcomes) == messages_total(outcomes.remove(j)),
    decreases entries.len(),
{
    if j == 0 {
        lemma_surviving_all_delivered(entries.skip(1), outcomes.skip(1));
        assert(entries.remove(0) =~= entries.skip(1));
        assert(outcomes.remove(0) =~= outcomes.skip(1));
    } else {
        lemma_broadcast_fault_isolation(entries.skip(1), outcomes.skip(1), j - 1);
        assert(entries.remove(j) =~= seq![entries[0]] + entries.skip(1).remove(j - 1));
        assert(outcomes.remove(j) =~= seq![outcomes[0]] + outcomes.skip(1).remove(j - 1));
        assert(outcomes.remove(j).skip(1) =~= outcomes.skip(1).remove(j - 1));
    }
}

} // verus!