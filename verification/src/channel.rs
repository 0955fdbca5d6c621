//! Non-blocking reception from the one-way message channels that background
//! work reports through. Receiving never blocks and never does I/O: it only
//! drains what a background sender already produced.

use vstd::prelude::*;

verus! {

/// Declares the outside type `std::sync::mpsc::Receiver`, the receiving
/// end of a one-way message channel; it stays opaque here.
#[verifier::external_type_specification]
#[verifier::external_body]
#[verifier::reject_recursive_types(T)]
pub struct ExReceiver<T>(std::sync::mpsc::Receiver<T>);

/// One observation of a channel: a message, nothing yet, or no senders
/// left.
pub enum ChannelEvent<T> {
    Received(T),
    Nothing,
    Closed,
}

/// Relies on `mpsc::Receiver::try_recv`: it returns a queued message, or
/// that none is queued, or that every sender is gone — without blocking.
/// Which of the three comes back depends on timing, so nothing more is
/// stated.
#[verifier::external_body]
pub(crate) fn recv_now<T>(rx: &std::sync::mpsc::Receiver<T>) -> (r: ChannelEvent<T>) {
    match rx.try_recv() {
        Ok(m) => ChannelEvent::Received(m),
        Err(std::sync::mpsc::TryRecvError::Empty) => ChannelEvent::Nothing,
        Err(std::sync::mpsc::TryRecvError::Disconnected) => ChannelEvent::Closed,
    }
}

} // verus!
