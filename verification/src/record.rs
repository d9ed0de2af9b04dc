use vstd::prelude::*;

verus! {

/// The opaque, stable identity of a remote entity: an account address of up
/// to 256 bits, held as four 64-bit limbs (least significant first).
#[derive(Clone, Copy, PartialEq, Eq, Hash, Debug, Structural)]
pub struct Key {
    pub w0: u64,
    pub w1: u64,
    pub w2: u64,
    pub w3: u64,
}

/// A transient decoded snapshot of one remote entity's state.  It is produced
/// by the ingress side, consumed by one reconciliation pass, and never
/// retained.
#[derive(Clone, Copy, PartialEq, Eq, Debug, Structural)]
pub struct RemoteRecord {
    pub key: Key,
    pub remaining: u8,
    pub can_move: bool,
}

/// The durable local representation of one remote entity.  Exactly one
/// `Entity` exists per distinct key; it is created on first sight of the key
/// and refreshed in place on every later sighting.
#[derive(Clone, Copy, PartialEq, Eq, Debug, Structural)]
pub struct Entity {
    pub key: Key,
    pub remaining: u8,
    pub can_move: bool,
}

/// The entity that a record creates when its key has never been seen.
pub open spec fn entity_of(r: RemoteRecord) -> Entity {
    Entity { key: r.key, remaining: r.remaining, can_move: r.can_move }
}

} // verus!
