//! What is persisted: periodic checkpoints and the final write at stop.
use vstd::prelude::*;
use crate::codec::{encode_log, encoded};
use crate::event::EventLog;

verus! {

/// The text a periodic checkpoint writes: none while the log is empty,
/// else the persisted form of the log as it stands.
pub fn checkpoint(log: &EventLog) -> (r: Option<String>)
    ensures
        match r {
            Some(t) => log@.len() > 0 && t@ == encoded(log@),
            None => log@.len() == 0,
        },
{
    if log.is_empty() {
        None
    } else {
        Some(final_snapshot(log))
    }
}

/// The text written at stop, whatever the log holds, overwriting any
/// earlier checkpoint.
pub fn final_snapshot(log: &EventLog) -> (r: String)
    ensures
        r@ == encoded(log@),
{
    let events = log.snapshot();
    encode_log(&events)
}

} // verus!
