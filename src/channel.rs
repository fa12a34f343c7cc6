//! The multi-producer, single-consumer channels that carry log lines and
//! signals from worker threads to the consumer loop.
use vstd::prelude::*;

use std::sync::mpsc::{Receiver, Sender};

verus! {

#[verifier::external_type_specification]
#[verifier::external_body]
#[verifier::reject_recursive_types(T)]
pub struct ExSender<T>(Sender<T>);

#[verifier::external_type_specification]
#[verifier::external_body]
#[verifier::reject_recursive_types(T)]
pub struct ExReceiver<T>(Receiver<T>);

/// Relies on `std::sync::mpsc::channel`: a new unbounded channel, its sending
/// and its receiving end.
#[verifier::external_body]
pub(crate) fn open_channel<T>() -> (Sender<T>, Receiver<T>) {
    std::sync::mpsc::channel()
}

/// Relies on `Sender::clone`: another sending end of the same channel.
#[verifier::external_body]
pub(crate) fn clone_sender<T>(tx: &Sender<T>) -> Sender<T> {
    tx.clone()
}

/// Relies on `Sender::send`: queues the value; `false` when the receiving end
/// is gone.
#[verifier::external_body]
pub(crate) fn send_value<T>(tx: &Sender<T>, v: T) -> bool {
    tx.send(v).is_ok()
}

/// Relies on `Receiver::try_iter`: every value queued at the time of the call,
/// in the order each producer sent them, without waiting for more.
#[verifier::external_body]
pub(crate) fn take_queued<T>(rx: &Receiver<T>) -> Vec<T> {
    rx.try_iter().collect()
}

} // verus!
