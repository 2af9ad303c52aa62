//! Handing messages to the channels that connect the controller, the
//! workers and the running tasks.
use vstd::prelude::*;
use std::sync::mpsc::Sender;

verus! {

#[verifier::external_type_specification]
#[verifier::external_body]
#[verifier::reject_recursive_types(T)]
pub struct ExSender<T>(std::sync::mpsc::Sender<T>);

/// The receipt of one call of `Sender::send`: the channel, the message it
/// was handed, and whether the channel took it.  Only `send_event` makes
/// one, so a receipt stands for a call that really happened.
#[verifier::reject_recursive_types(E)]
pub struct SendReceipt<E> {
    handed: Ghost<(Sender<E>, E, bool)>,
}

impl<E> SendReceipt<E> {
    /// The channel that `send` was called on.
    pub closed spec fn channel(&self) -> Sender<E> {
        self.handed@.0
    }

    /// The message that `send` was handed.
    pub closed spec fn event(&self) -> E {
        self.handed@.1
    }

    /// Whether the channel took the message.
    pub closed spec fn taken(&self) -> bool {
        self.handed@.2
    }
}

/// Hands `event` to `std::sync::mpsc::Sender::send` on `channel`.  Returns
/// `send`'s answer, `true` when the channel took the event, and the receipt
/// of the call: the channel, the event and that answer.  `send` fails only
/// when the receiving end has been dropped, which depends on another thread,
/// so nothing is promised of the answer itself.
#[verifier::external_body]
pub(crate) fn send_event<E>(channel: &Sender<E>, event: E) -> (r: (bool, SendReceipt<E>))
    ensures
        r.1.channel() == *channel,
        r.1.event() == event,
        r.1.taken() == r.0,
{
    let handed_event = Ghost(event);
    let taken = channel.send(event).is_ok();
    (taken, SendReceipt { handed: Ghost((*channel, handed_event@, taken)) })
}

} // verus!
