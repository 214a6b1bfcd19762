//! Public face of the log storage: idempotent register / unregister,
//! history replay, and clear.

use crate::state::{
    self, caps_with, spec_clear, spec_history, spec_register, spec_unregister, LogEntry, LogStorage,
    DEFAULT_RING_CAPACITY,
};
use vstd::prelude::*;

verus! {

/// Returns true if a new buffer was created; false if one already existed.
pub fn register(storage: &mut LogStorage, process_id: &str) -> (r: bool)
    requires
        old(storage).wf(),
    ensures
        final(storage).wf(),
        r == !old(storage)@.dom().contains(process_id@),
        final(storage)@ == spec_register(old(storage)@, process_id@),
        final(storage).caps() == caps_with(old(storage).caps(), process_id@, DEFAULT_RING_CAPACITY as nat),
{
    state::register_process(storage, process_id)
}

/// Drops the buffer and its history; returns whether one existed.
pub fn unregister(storage: &mut LogStorage, process_id: &str) -> (r: bool)
    requires
        old(storage).wf(),
    ensures
        final(storage).wf(),
        r == old(storage)@.dom().contains(process_id@),
        final(storage)@ == spec_unregister(old(storage)@, process_id@),
        final(storage).caps() == old(storage).caps().remove(process_id@),
{
    state::unregister_process(storage, process_id)
}

/// Empties the buffer but keeps the registration.
pub fn clear(storage: &mut LogStorage, process_id: &str) -> (r: bool)
    requires
        old(storage).wf(),
    ensures
        final(storage).wf(),
        r == old(storage)@.dom().contains(process_id@),
        final(storage)@ == spec_clear(old(storage)@, process_id@),
        final(storage).caps() == old(storage).caps(),
{
    state::clear_process_logs(storage, process_id)
}

/// Replays the last `count` entries (all when `None`), oldest first.
pub fn history(storage: &LogStorage, process_id: &str, count: Option<usize>) -> (r: Vec<LogEntry>)
    requires
        storage.wf(),
    ensures
        r@ == spec_history(storage@, process_id@, count),
{
    state::get_logs(storage, process_id, count)
}

} // verus!
