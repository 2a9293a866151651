//! Trusted items over tokio's channels: the bounded per-agent mailbox and the
//! metrics broadcast bus.
use crate::types::{ActionEnvelope, MetricsUpdate};
use tokio::sync::broadcast;
use tokio::sync::mpsc;
use vstd::prelude::*;

verus! {

#[verifier::external_type_specification]
#[verifier::external_body]
#[verifier::reject_recursive_types(T)]
pub struct ExMpscSender<T>(mpsc::Sender<T>);

#[verifier::external_type_specification]
#[verifier::external_body]
#[verifier::reject_recursive_types(T)]
pub struct ExMpscReceiver<T>(mpsc::Receiver<T>);

#[verifier::external_type_specification]
#[verifier::external_body]
#[verifier::reject_recursive_types(T)]
pub struct ExBroadcastSender<T>(broadcast::Sender<T>);

#[verifier::external_type_specification]
#[verifier::external_body]
#[verifier::reject_recursive_types(T)]
pub struct ExBroadcastReceiver<T>(broadcast::Receiver<T>);

/// What a non-blocking hand-off to a mailbox came to. A refused envelope is
/// handed back.
pub enum Offer {
    Accepted,
    Full(ActionEnvelope),
    Closed(ActionEnvelope),
}

/// Relies on tokio::sync::mpsc::channel, which panics on a zero bound and on
/// one above an eighth of usize::MAX.
#[verifier::external_body]
pub(crate) fn mailbox(bound: usize) -> (mpsc::Sender<ActionEnvelope>, mpsc::Receiver<ActionEnvelope>)
    requires
        0 < bound <= usize::MAX / 8,
{
    mpsc::channel(bound)
}

/// Relies on tokio's mpsc Sender::try_send: it never waits, and an envelope it
/// does not take (mailbox full, or receiver gone) comes back unchanged inside
/// the error.
#[verifier::external_body]
pub(crate) fn offer(tx: &mpsc::Sender<ActionEnvelope>, envelope: ActionEnvelope) -> (r: Offer)
    ensures
        r matches Offer::Full(e) ==> e == envelope,
        r matches Offer::Closed(e) ==> e == envelope,
{
    match tx.try_send(envelope) {
        Ok(()) => Offer::Accepted,
        Err(mpsc::error::TrySendError::Full(e)) => Offer::Full(e),
        Err(mpsc::error::TrySendError::Closed(e)) => Offer::Closed(e),
    }
}

/// Relies on tokio's broadcast Sender::new, which panics on a zero capacity
/// and on one above half of usize::MAX.
#[verifier::external_body]
pub(crate) fn metrics_bus(capacity: usize) -> broadcast::Sender<MetricsUpdate>
    requires
        0 < capacity <= usize::MAX / 2,
{
    broadcast::Sender::new(capacity)
}

/// Relies on tokio's broadcast Sender::send, which never waits; with no
/// subscriber the event is dropped. Only redacted events go on the bus.
#[verifier::external_body]
pub(crate) fn broadcast_event(tx: &broadcast::Sender<MetricsUpdate>, event: MetricsUpdate)
    requires
        event.auth_token@.len() == 0,
{
    let _ = tx.send(event);
}

/// Relies on tokio's broadcast Sender::subscribe: the receiver sees every
/// event sent after this call.
#[verifier::external_body]
pub(crate) fn subscribe(tx: &broadcast::Sender<MetricsUpdate>) -> broadcast::Receiver<MetricsUpdate> {
    tx.subscribe()
}

} // verus!
