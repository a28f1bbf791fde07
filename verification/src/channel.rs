//! The outbound side of a connection's delivery channel.
//!
//! Each connection in a room is reached through a `tokio` unbounded mpsc
//! sender; the receiving half is drained by that connection's outbound relay
//! loop. The sender is opaque here: whether a send succeeds depends on
//! whether the receiving half still exists, which only the runtime knows.

use vstd::prelude::*;

verus! {

#[verifier::external_type_specification]
#[verifier::external_body]
#[verifier::reject_recursive_types(T)]
pub struct ExUnboundedSender<T>(tokio::sync::mpsc::UnboundedSender<T>);

/// Relies on `tokio::sync::mpsc::UnboundedSender::send`: it enqueues the
/// message and returns `Ok` unless the receiving half of the channel has
/// been closed or dropped. Whether that has happened is outside state, so
/// nothing is promised of the outcome.
#[verifier::external_body]
pub(crate) fn try_send(tx: &tokio::sync::mpsc::UnboundedSender<String>, msg: String) -> (delivered:
    bool) {
    tx.send(msg).is_ok()
}

/// Relies on `tokio::sync::mpsc::UnboundedSender::clone`: the clone reaches
/// the same receiving half as the original.
#[verifier::external_body]
pub(crate) fn clone_sender(tx: &tokio::sync::mpsc::UnboundedSender<String>) -> (r:
    tokio::sync::mpsc::UnboundedSender<String>) {
    tx.clone()
}

} // verus!
