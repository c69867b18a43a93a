//! The channel over which the directory source hands files to the workers.

use crate::types::WorkEntry;
use crossbeam::channel::{Receiver, TryRecvError};
use vstd::prelude::*;

verus! {

/// The receiving side of a `crossbeam` channel, carried as an opaque value.
#[verifier::external_type_specification]
#[verifier::external_body]
#[verifier::reject_recursive_types(T)]
pub struct ExReceiver<T>(Receiver<T>);

/// What one look at the work channel found.
pub enum Polled {
    /// A file to hash.
    Entry(WorkEntry),
    /// Nothing yet; the producers may still send.
    Empty,
    /// Nothing, and every producer is gone.
    Disconnected,
}

/// `crossbeam::channel::Receiver::try_recv`: takes a message if one is there
/// and never blocks. Which of the three outcomes comes depends on the other
/// threads, so nothing is promised of it.
#[verifier::external_body]
pub(crate) fn try_pull(receiver: &Receiver<WorkEntry>) -> (polled: Polled) {
    match receiver.try_recv() {
        Ok(entry) => Polled::Entry(entry),
        Err(TryRecvError::Empty) => Polled::Empty,
        Err(TryRecvError::Disconnected) => Polled::Disconnected,
    }
}

} // verus!
