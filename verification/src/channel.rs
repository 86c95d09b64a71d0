use vstd::prelude::*;

verus! {

/// The sending half of a `std::sync::mpsc` channel.
#[verifier::external_type_specification]
#[verifier::external_body]
#[verifier::reject_recursive_types(T)]
pub struct ExSender<T>(std::sync::mpsc::Sender<T>);

/// The sending half of a bounded `std::sync::mpsc` channel.
#[verifier::external_type_specification]
#[verifier::external_body]
#[verifier::reject_recursive_types(T)]
pub struct ExSyncSender<T>(std::sync::mpsc::SyncSender<T>);

/// The sending half of a channel, with the values handed to it so far, oldest
/// first.
#[verifier::reject_recursive_types(T)]
pub struct LoggedSender<T> {
    pub sender: std::sync::mpsc::Sender<T>,
    pub sent: Ghost<Seq<T>>,
}

/// The sending half of a bounded channel, with the values handed to it so far,
/// oldest first.
#[verifier::reject_recursive_types(T)]
pub struct LoggedSyncSender<T> {
    pub sender: std::sync::mpsc::SyncSender<T>,
    pub sent: Ghost<Seq<T>>,
}

impl<T> LoggedSender<T> {
    /// `sender`, with nothing handed to it yet.
    pub fn new(sender: std::sync::mpsc::Sender<T>) -> (s: Self)
        ensures
            s.sender == sender,
            s.sent@ == Seq::<T>::empty(),
    {
        LoggedSender { sender, sent: Ghost(Seq::empty()) }
    }

    /// Calls `std::sync::mpsc::Sender::send` with `value`: the value is handed
    /// to the channel, which the contract records. Whether it is delivered
    /// depends on whether the receiving half is still alive, which nothing here
    /// knows, so nothing is claimed of the result (`true` when the send succeeded).
    #[verifier::external_body]
    pub(crate) fn send(&mut self, value: T) -> (delivered: bool)
        ensures
            final(self).sender == old(self).sender,
            final(self).sent@ == old(self).sent@.push(value),
    {
        self.sender.send(value).is_ok()
    }
}

impl<T> LoggedSyncSender<T> {
    /// `sender`, with nothing handed to it yet.
    pub fn new(sender: std::sync::mpsc::SyncSender<T>) -> (s: Self)
        ensures
            s.sender == sender,
            s.sent@ == Seq::<T>::empty(),
    {
        LoggedSyncSender { sender, sent: Ghost(Seq::empty()) }
    }

    /// Calls `std::sync::mpsc::SyncSender::send` with `value`: the value is handed
    /// to the channel, which the contract records; the call blocks while the
    /// channel is full and fails when the receiving half is gone, and the failure
    /// is turned into its message. Nothing is claimed of the result, which
    /// depends on the receiver.
    #[verifier::external_body]
    pub(crate) fn send(&mut self, value: T) -> (r: Result<(), String>)
        ensures
            final(self).sender == old(self).sender,
            final(self).sent@ == old(self).sent@.push(value),
    {
        self.sender.send(value).map_err(|e| e.to_string())
    }
}

} // verus!
