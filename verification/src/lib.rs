//! A small state-synchronization core for streamed remote entities.
//!
//! A background listener decodes remote state-change events and enqueues
//! typed records on a single-producer channel.  Once per tick the reconciler
//! drains the channel (up to a caller-chosen cap) and folds each record into
//! the set of live entities as a keyed upsert: the first record for a key
//! creates an entity, every later record for that key refreshes it in place.

pub mod decode;
pub mod ingress;
pub mod record;
pub mod store;
