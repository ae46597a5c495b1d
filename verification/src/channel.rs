use vstd::prelude::*;

verus! {

#[verifier::external_type_specification]
#[verifier::external_body]
#[verifier::reject_recursive_types(T)]
pub struct ExSender<T>(async_channel::Sender<T>);

/// The sending end of a channel, together with the record of every message handed to
/// it through this outbox, in order. Only `send` adds to the record.
#[verifier::reject_recursive_types(T)]
pub struct Outbox<'a, T> {
    sender: &'a async_channel::Sender<T>,
    log: Ghost<Seq<T>>,
}

impl<'a, T> Outbox<'a, T> {
    /// The messages handed to the channel through this outbox, oldest first.
    pub closed spec fn log(&self) -> Seq<T> {
        self.log@
    }

    /// The channel's sending end.
    pub closed spec fn sender(&self) -> &'a async_channel::Sender<T> {
        self.sender
    }

    /// An outbox for `sender` that has handed over nothing yet.
    pub fn new(sender: &'a async_channel::Sender<T>) -> (outbox: Outbox<'a, T>)
        ensures
            outbox.sender() == sender,
            outbox.log() == Seq::<T>::empty(),
    {
        Outbox { sender, log: Ghost(Seq::empty()) }
    }

    /// Calls `async_channel::Sender::try_send` with `msg`: the message is handed to the
    /// channel, which takes it unless it is full or closed, and the record gains it.
    /// Whether the channel took it depends on the channel's state, which nothing here
    /// can see, so nothing is stated of the result.
    #[verifier::external_body]
    pub(crate) fn send(&mut self, msg: T) -> (sent: bool)
        ensures
            final(self).log() == old(self).log().push(msg),
            final(self).sender() == old(self).sender(),
    {
        self.sender.try_send(msg).is_ok()
    }
}

} // verus!
