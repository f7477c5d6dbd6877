//! The channels that wake waiting transactions, from `tokio`.

use tokio::sync::mpsc::{UnboundedReceiver, UnboundedSender};
use vstd::prelude::*;

verus! {

/// `tokio::sync::mpsc::UnboundedSender`, opaque.
#[verifier::external_type_specification]
#[verifier::external_body]
#[verifier::reject_recursive_types(T)]
pub struct ExUnboundedSender<T>(UnboundedSender<T>);

/// `tokio::sync::mpsc::UnboundedReceiver`, opaque.
#[verifier::external_type_specification]
#[verifier::external_body]
#[verifier::reject_recursive_types(T)]
pub struct ExUnboundedReceiver<T>(UnboundedReceiver<T>);

/// Using a channel to wake up tasks when a `TVar` they read changed.
///
/// Sending `true` means the associated `TVar` has been updated.
/// Sending `false` means there are too many subscribers on a variable
/// that doesn't seem to be written to. In this case any listeners still
/// alive can re-subscribe.
pub type Signaler = UnboundedSender<bool>;

/// The end of the channel that a waiting transaction listens on.
pub type Listener = UnboundedReceiver<bool>;

/// The channel that a signaler sends to: two signalers have the same one exactly where
/// `UnboundedSender::same_channel` says so.
pub uninterp spec fn channel_of(s: Signaler) -> int;

/// The channel that a listener receives from.
pub uninterp spec fn listens_to(l: Listener) -> int;

/// `signal` has been handed to `UnboundedSender::send` on a channel, and the reply was `accepted`.
pub uninterp spec fn offered(channel: int, signal: bool, accepted: bool) -> bool;

/// `tokio::sync::mpsc::unbounded_channel`: the two ends of one channel.
#[verifier::external_body]
pub(crate) fn signal_channel() -> (r: (Signaler, Listener))
    ensures
        channel_of(r.0) == listens_to(r.1),
{
    tokio::sync::mpsc::unbounded_channel()
}

/// `UnboundedSender::clone`: another signaler of the same channel.
#[verifier::external_body]
pub(crate) fn clone_signaler(s: &Signaler) -> (r: Signaler)
    ensures
        channel_of(r) == channel_of(*s),
{
    s.clone()
}

/// `UnboundedSender::send`: hands `signal` to the channel. The reply is `true` where the channel
/// took it, and `false` where the listener has been closed or dropped; which of the two it is
/// depends on when the call is made, and the contract leaves it open.
#[verifier::external_body]
pub(crate) fn send_signal(s: &Signaler, signal: bool) -> (accepted: bool)
    ensures
        offered(channel_of(*s), signal, accepted),
{
    s.send(signal).is_ok()
}

} // verus!
