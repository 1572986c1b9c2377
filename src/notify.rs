use vstd::prelude::*;

use tokio::sync::broadcast::{Receiver, Sender};

verus! {

/// Word from the writer that a topic's messages now reach `max_seq`.
#[derive(Debug, Clone, Copy, PartialEq, Eq, Structural)]
pub struct NewDataNotification {
    /// The topic that has new data.
    pub topic_id: i64,
    /// The highest sequence now committed on it.
    pub max_seq: i64,
}

#[verifier::external_type_specification]
#[verifier::external_body]
#[verifier::reject_recursive_types(T)]
pub struct ExBroadcastSender<T>(Sender<T>);

#[verifier::external_type_specification]
#[verifier::external_body]
#[verifier::reject_recursive_types(T)]
pub struct ExBroadcastReceiver<T>(Receiver<T>);

/// Relies on `Clone` for `tokio::sync::broadcast::Sender`: another sending
/// half of the same channel. Nothing is claimed of it.
pub assume_specification<T>[ <Sender<T> as Clone>::clone ](tx: &Sender<T>) -> Sender<T>;

/// A broadcast channel that holds up to `capacity` notifications.
///
/// Relies on `tokio::sync::broadcast::channel`, which panics on a capacity of
/// zero or above `usize::MAX / 2`; the first receiver is dropped at once.
#[verifier::external_body]
fn broadcast_channel(capacity: usize) -> Sender<NewDataNotification>
    requires
        0 < capacity <= usize::MAX / 2,
{
    tokio::sync::broadcast::channel(capacity).0
}

/// A receiver of every notification sent from now on.
///
/// Relies on `tokio::sync::broadcast::Sender::subscribe`, which panics only
/// with `usize::MAX / 4` receivers alive at once, more than the memory of a
/// process can hold.
#[verifier::external_body]
fn broadcast_subscribe(tx: &Sender<NewDataNotification>) -> Receiver<NewDataNotification> {
    tx.subscribe()
}

/// Sends to every live receiver; `None` when there is none.
///
/// Relies on `tokio::sync::broadcast::Sender::send`, which returns the number
/// of receivers subscribed at that moment, or an error when there are none.
#[verifier::external_body]
fn broadcast_send(tx: &Sender<NewDataNotification>, n: NewDataNotification) -> (r: Option<usize>)
    ensures
        r matches Some(k) ==> k > 0,
{
    tx.send(n).ok()
}

/// The number of live receivers.
///
/// Relies on `tokio::sync::broadcast::Sender::receiver_count`.
#[verifier::external_body]
fn broadcast_receiver_count(tx: &Sender<NewDataNotification>) -> usize {
    tx.receiver_count()
}

/// Wakes sleeping subscriptions when the writer commits.
///
/// Notifications are hints: a receiver that falls more than the capacity
/// behind is told it lagged and must look at the log again.
#[derive(Clone)]
pub struct NotificationBus {
    sender: Sender<NewDataNotification>,
}

impl NotificationBus {
    /// A bus that buffers up to `capacity` notifications per receiver.
    pub fn new(capacity: usize) -> (r: Self)
        requires
            0 < capacity <= usize::MAX / 2,
    {
        NotificationBus { sender: broadcast_channel(capacity) }
    }

    /// A receiver of all notifications sent from now on.
    pub fn subscribe(&self) -> Receiver<NewDataNotification> {
        broadcast_subscribe(&self.sender)
    }

    /// Tells every subscriber that `topic_id` now reaches `max_seq`, and
    /// returns how many receivers were subscribed; none is no error.
    pub fn notify(&self, topic_id: i64, max_seq: i64) -> usize {
        match broadcast_send(&self.sender, NewDataNotification { topic_id, max_seq }) {
            Some(k) => k,
            None => 0,
        }
    }

    /// The number of live receivers.
    pub fn receiver_count(&self) -> usize {
        broadcast_receiver_count(&self.sender)
    }
}

impl Default for NotificationBus {
    fn default() -> Self {
        NotificationBus::new(1024)
    }
}

} // verus!
