//! An append-only, multi-consumer broadcast log of delete operations.
//!
//! Producers append timestamped delete operations to a [`DeleteQueue`];
//! each consumer holds a [`DeleteCursor`] and replays, independently and
//! exactly once, every operation materialized after the point at which the
//! cursor was created. Operations are materialized lazily into immutable
//! blocks; blocks whose operations every cursor has consumed are reclaimed,
//! so memory is bounded by unconsumed history rather than by all history.

use vstd::prelude::*;

pub mod buf_collector;
pub mod delete_queue;
pub mod operation;

verus! {

/// Logical write-order counter assigned by the caller to every operation.
pub type Opstamp = u64;

/// Identifier of a document within a segment.
pub type DocId = u32;

} // verus!
