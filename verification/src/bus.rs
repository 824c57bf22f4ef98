//! Lossy broadcast of engine events.
//!
//! A bounded publish/subscribe channel: publishing never blocks and
//! never fails the caller, even with zero subscribers; a subscriber
//! that falls behind misses old events instead of stalling the
//! publisher, and is told so.  The event stream is best-effort by
//! design — the status store stays authoritative, so a missed event
//! only delays an observer's refresh, never corrupts it.

use vstd::prelude::*;
use crate::status::Event;

verus! {

/// Recommended event buffer capacity.
pub const EVENT_BUFFER: usize = 1024;

#[verifier::external_type_specification]
#[verifier::external_body]
#[verifier::reject_recursive_types(T)]
pub struct ExSender<T>(tokio::sync::broadcast::Sender<T>);

#[verifier::external_type_specification]
#[verifier::external_body]
#[verifier::reject_recursive_types(T)]
pub struct ExReceiver<T>(tokio::sync::broadcast::Receiver<T>);

/// What a non-blocking read from a subscription yields.
pub enum BusPoll {
    /// An event was waiting.
    Delivered(Event),
    /// Nothing is waiting right now.
    Empty,
    /// No publisher handle remains.
    Closed,
    /// The subscriber lagged and this many events were dropped; the
    /// authoritative snapshot should be re-fetched.
    Lagged(u64),
}

/// Relies on tokio::sync::broadcast::channel, which panics only on a
/// capacity of zero or above `usize::MAX / 2`; both are excluded here.
#[verifier::external_body]
fn broadcast_channel(capacity: usize) -> (r: (
    tokio::sync::broadcast::Sender<Event>,
    tokio::sync::broadcast::Receiver<Event>,
))
    requires
        1 <= capacity <= usize::MAX / 2,
{
    tokio::sync::broadcast::channel(capacity)
}

/// Relies on tokio::sync::broadcast::Sender::send, which never blocks;
/// its only error (no live receiver) is deliberately discarded, as
/// delivery is best-effort.
#[verifier::external_body]
fn broadcast_send(tx: &tokio::sync::broadcast::Sender<Event>, ev: Event) {
    let _ = tx.send(ev);
}

/// Relies on tokio::sync::broadcast::Sender::subscribe.
#[verifier::external_body]
fn broadcast_subscribe(tx: &tokio::sync::broadcast::Sender<Event>) -> (r: tokio::sync::broadcast::Receiver<Event>) {
    tx.subscribe()
}

/// Relies on tokio::sync::broadcast::Sender::clone: another handle
/// publishing into the same channel.
pub assume_specification<T>[ <tokio::sync::broadcast::Sender<T> as core::clone::Clone>::clone ](
    tx: &tokio::sync::broadcast::Sender<T>,
) -> tokio::sync::broadcast::Sender<T>;

/// Relies on tokio::sync::broadcast::Receiver::try_recv, which never
/// blocks; each of its outcomes is passed through unchanged.
#[verifier::external_body]
fn broadcast_try_recv(rx: &mut tokio::sync::broadcast::Receiver<Event>) -> (r: BusPoll) {
    match rx.try_recv() {
        Ok(ev) => BusPoll::Delivered(ev),
        Err(tokio::sync::broadcast::error::TryRecvError::Empty) => BusPoll::Empty,
        Err(tokio::sync::broadcast::error::TryRecvError::Closed) => BusPoll::Closed,
        Err(tokio::sync::broadcast::error::TryRecvError::Lagged(n)) => BusPoll::Lagged(n),
    }
}

/// The publishing side of the event stream.
#[derive(Clone)]
pub struct EventBus {
    tx: tokio::sync::broadcast::Sender<Event>,
}

/// One observer's subscription.
pub struct EventSub {
    rx: tokio::sync::broadcast::Receiver<Event>,
}

impl EventBus {
    /// A fresh bus whose buffer holds `capacity` events.
    pub fn new(capacity: usize) -> (b: EventBus)
        requires
            1 <= capacity <= usize::MAX / 2,
    {
        let (tx, _rx) = broadcast_channel(capacity);
        EventBus { tx }
    }

    /// Publish an event.  Never blocks and never fails, whatever the
    /// subscribers are doing.
    pub fn publish(&self, ev: Event) {
        broadcast_send(&self.tx, ev);
    }

    /// Publish every event of a batch, in order.
    pub fn publish_all(&self, evs: Vec<Event>) {
        let mut evs = evs;
        while evs.len() > 0
            decreases evs@.len(),
        {
            let ev = evs.remove(0);
            self.publish(ev);
        }
    }

    /// Open a subscription that sees events published from now on.
    pub fn subscribe(&self) -> (s: EventSub) {
        EventSub { rx: broadcast_subscribe(&self.tx) }
    }

    /// Another handle publishing into the same stream.
    pub fn handle(&self) -> (b: EventBus) {
        EventBus { tx: self.tx.clone() }
    }
}

impl EventSub {
    /// Take the next waiting event, without blocking.
    pub fn poll(&mut self) -> (r: BusPoll) {
        broadcast_try_recv(&mut self.rx)
    }

    /// The underlying receiver, for a driver that wants to wait on
    /// events instead of polling.
    pub fn into_receiver(self) -> (r: tokio::sync::broadcast::Receiver<Event>) {
        self.rx
    }
}

} // verus!
