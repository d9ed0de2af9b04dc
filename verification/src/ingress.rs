use vstd::prelude::*;

use crate::record::RemoteRecord;
use crate::store::{upsert_all, EntityStore};

verus! {

/// `async_channel::Receiver`, declared so the reconciler can hold the
/// consuming end of the ingress channel in verified code.  What the channel
/// holds is decided by the producer and is opaque here.
#[verifier::external_type_specification]
#[verifier::external_body]
#[verifier::reject_recursive_types(T)]
pub struct ExReceiver<T>(async_channel::Receiver<T>);

/// The outcome of one non-blocking dequeue attempt.
#[derive(Clone, Copy, PartialEq, Eq, Debug, Structural)]
pub enum Dequeue {
    /// The oldest queued record.
    Item { record: RemoteRecord },
    /// The queue is empty: the normal, silent end of a drain.
    Empty,
    /// The producer is gone and the queue is drained; the tick goes on with
    /// what it has, and the caller may log it.
    Closed,
}

/// Relies on `async_channel::Receiver::try_recv`: a non-blocking dequeue
/// that yields the oldest queued message, or reports the channel empty or
/// closed.  What comes back depends on what the producer sent, so nothing
/// is promised of the outcome.
#[verifier::external_body]
fn try_recv_record(rx: &async_channel::Receiver<RemoteRecord>) -> (r: Dequeue) {
    match rx.try_recv() {
        Ok(record) => Dequeue::Item { record },
        Err(async_channel::TryRecvError::Empty) => Dequeue::Empty,
        Err(async_channel::TryRecvError::Closed) => Dequeue::Closed,
    }
}

/// What one drain collected.
pub struct Drained {
    /// The records taken off the queue, oldest first.
    pub records: Vec<RemoteRecord>,
    /// Whether the queue reported the producer gone.
    pub closed: bool,
}

/// Drains at most `cap` records off the queue, oldest first, stopping early
/// when the queue is empty or closed.  The cap bounds one tick's work;
/// whatever is left on the queue is taken by a later tick.
pub fn drain(rx: &async_channel::Receiver<RemoteRecord>, cap: usize) -> (d: Drained)
    ensures
        d.records@.len() <= cap as int,
{
    let mut records: Vec<RemoteRecord> = Vec::new();
    let mut closed = false;
    let mut i: usize = 0;
    while i < cap
        invariant
            i <= cap,
            records@.len() <= i as int,
        ensures
            records@.len() <= cap as int,
        decreases cap - i,
    {
        match try_recv_record(rx) {
            Dequeue::Item { record } => {
                records.push(record);
            },
            Dequeue::Empty => {
                break ;
            },
            Dequeue::Closed => {
                closed = true;
                break ;
            },
        }
        i = i + 1;
    }
    Drained { records, closed }
}

/// One reconciliation tick: drain at most `cap` queued records and fold
/// each into the store as a keyed upsert, in arrival order.  Returns how
/// many records were merged; whatever the queue held, the store afterwards
/// is exactly that many records folded into the store as it was.
pub fn tick(rx: &async_channel::Receiver<RemoteRecord>, store: &mut EntityStore, cap: usize) -> (n:
    usize)
    ensures
        n <= cap,
        old(store).wf() ==> final(store).wf(),
        n == 0 ==> final(store)@ == old(store)@,
        exists|rs: Seq<RemoteRecord>|
            rs.len() == n as int && final(store)@ == upsert_all(old(store)@, rs),
{
    let d = drain(rx, cap);
    let n = d.records.len();
    store.merge_all(&d.records);
    proof {
        assert(store@ == upsert_all(old(store)@, d.records@));
    }
    n
}

} // verus!
