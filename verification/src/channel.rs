//! Trusted surface over the kanal channel that carries encoded frames.
//!
//! The pipeline's one synchronization point is an unbounded multi-producer,
//! single-consumer FIFO channel.  A message is `Some(bytes)` for one encoded
//! frame, or `None` as the stop signal.  Nothing about the channel's hidden
//! state is claimed here: what each call returns is decided by the channel
//! at run time, and the library states only what it does with either
//! outcome.

use vstd::prelude::*;

verus! {

#[verifier::external_type_specification]
#[verifier::external_body]
#[verifier::reject_recursive_types(T)]
pub struct ExSender<T>(kanal::Sender<T>);

#[verifier::external_type_specification]
#[verifier::external_body]
#[verifier::reject_recursive_types(T)]
pub struct ExReceiver<T>(kanal::Receiver<T>);

/// Relies on kanal::unbounded: makes a fresh unbounded FIFO channel whose
/// sends never block.
#[verifier::external_body]
pub fn channel_unbounded() -> (kanal::Sender<Option<Vec<u8>>>, kanal::Receiver<Option<Vec<u8>>>) {
    kanal::unbounded()
}

/// Relies on kanal::Sender::send: queues the message, in FIFO order with
/// this sender's other sends, and reports true; reports false when the
/// channel is closed or every receiver is gone, in which case the message
/// is dropped.
#[verifier::external_body]
pub fn send_message(sender: &kanal::Sender<Option<Vec<u8>>>, message: Option<Vec<u8>>) -> bool {
    sender.send(message).is_ok()
}

/// Relies on kanal::Sender::clone: yields another handle to the same
/// channel.
#[verifier::external_body]
pub fn clone_sender(sender: &kanal::Sender<Option<Vec<u8>>>) -> kanal::Sender<Option<Vec<u8>>> {
    sender.clone()
}

} // verus!
