//! What a client's forwarding task does with each thing its subscription
//! hands it: a published message is sent on, a lag notice is passed over so
//! that the subscriber resumes from the next message, and a closed channel
//! ends the task.
use vstd::prelude::*;

verus! {

/// One outcome of waiting on a subscription.
pub enum Delivery {
    /// The next published message.
    Delivered(String),
    /// The subscriber fell behind and this many messages were dropped for it.
    Lagged(u64),
    /// The publisher is gone.
    Closed,
}

pub enum ForwardAction {
    /// Send this text to the client.
    Send(String),
    /// Nothing to send; wait for the next delivery.
    Skip,
    /// End the forwarding task.
    Stop,
}

/// Decides what the forwarding task does with one delivery.
pub fn forward_action(d: Delivery) -> (r: ForwardAction)
    ensures
        d matches Delivery::Delivered(m) ==> (r matches ForwardAction::Send(t) && t@ == m@),
        d is Lagged ==> r is Skip,
        d is Closed ==> r is Stop,
{
    match d {
        Delivery::Delivered(m) => ForwardAction::Send(m),
        Delivery::Lagged(_) => ForwardAction::Skip,
        Delivery::Closed => ForwardAction::Stop,
    }
}

/// Whether the forwarding task goes on after a send: it ends on the first
/// failure.
pub fn keeps_forwarding(a: &ForwardAction, send_ok: bool) -> (r: bool)
    ensures
        r == (!(*a is Stop) && (!(*a is Send) || send_ok)),
{
    match a {
        ForwardAction::Send(_) => send_ok,
        ForwardAction::Skip => true,
        ForwardAction::Stop => false,
    }
}

} // verus!
