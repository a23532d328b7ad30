//! A bounded queue of messages behind two kinds of handle.
use crate::command::Message;
use embassy_sync::blocking_mutex::raw::CriticalSectionRawMutex;
use embassy_sync::channel::{Channel, TrySendError};
use std::future::Future;
use std::marker::PhantomData;
use std::sync::Arc;
use vstd::prelude::*;

verus! {

/// The queue that the two handles share: an `embassy_sync::channel::Channel`
/// of messages, guarded by a critical section. The channel's type is bounded
/// by a trait of its crate, so it is held here and not declared to the
/// verifier. It is synchronised inside: every operation takes `&self`, any
/// handle may work on it at any time, and what it holds at a given moment is
/// no function of a handle's value. The contracts below therefore say what
/// holds of every answer of the queue, and nothing of what is in it.
#[verifier::external_body]
pub struct Queue<const N: usize> {
    channel: Channel<CriticalSectionRawMutex, Message, N>,
}

/// A message that a full queue handed back.
#[derive(Debug, Clone, Copy, PartialEq, Eq)]
pub struct Full(pub Message);

impl<const N: usize> Queue<N> {
    /// `embassy_sync::channel::Channel::new`: a queue with nothing in it.
    #[verifier::external_body]
    fn new() -> Self {
        Queue { channel: Channel::new() }
    }

    /// `embassy_sync::channel::Channel::try_send`: the message is queued, or
    /// the queue is full and the same message comes back in `TrySendError::Full`.
    #[verifier::external_body]
    fn try_send(&self, message: Message) -> (sent: Result<(), Full>)
        ensures
            sent matches Err(full) ==> full.0 == message,
    {
        self.channel.try_send(message).map_err(|TrySendError::Full(back)| Full(back))
    }

    /// `embassy_sync::channel::Channel::receive`: a future that resolves to
    /// the oldest message once there is one, and takes it from the queue.
    #[verifier::external_body]
    fn receive(&self) -> impl Future<Output = Message> + '_ {
        self.channel.receive()
    }

    /// `embassy_sync::channel::Channel::send`: a future that resolves once
    /// there was room and the message is queued.
    #[verifier::external_body]
    fn send(&self, message: Message) -> impl Future<Output = ()> + '_ {
        self.channel.send(message)
    }
}

/// Marks the handle that receives.
pub struct Rx;

/// Marks the handle that sends.
pub struct Tx;

/// Capacity of a queue where nothing else is asked for.
pub const DEFAULT_CAPACITY: usize = 50;

/// One end of a queue of at most `N` messages. `End` says which: a `Tx`
/// handle sends and can be cloned, an `Rx` handle receives and cannot.
pub struct AlvikChannel<End, const N: usize> {
    inner: Arc<Queue<N>>,
    _end: PhantomData<End>,
}

impl<End, const N: usize> AlvikChannel<End, N> {
    /// The queue that the handle works on.
    pub closed spec fn queue(self) -> Queue<N> {
        *self.inner
    }
}

impl AlvikChannel<(), DEFAULT_CAPACITY> {
    /// Makes one empty queue of capacity `N` and returns its two ends.
    pub fn bound<const N: usize>() -> (ends: (AlvikChannel<Tx, N>, AlvikChannel<Rx, N>))
        ensures
            ends.0.queue() == ends.1.queue(),
    {
        let channel = Arc::new(Queue::<N>::new());
        let write: AlvikChannel<Tx, N> = AlvikChannel { inner: channel.clone(), _end: PhantomData };
        let read: AlvikChannel<Rx, N> = AlvikChannel { inner: channel, _end: PhantomData };
        (write, read)
    }
}

impl<const N: usize> AlvikChannel<Rx, N> {
    /// Waits for the oldest message of the queue and takes it.
    pub fn recv(&self) -> impl Future<Output = Message> + '_ {
        self.inner.receive()
    }
}

impl<const N: usize> AlvikChannel<Tx, N> {
    /// Queues the message if there is room, and hands it back if there is
    /// none. It never waits.
    pub fn try_send(&self, message: Message) -> (sent: Result<(), Full>)
        ensures
            sent matches Err(full) ==> full.0 == message,
    {
        self.inner.try_send(message)
    }

    /// Waits for room in the queue and queues the message.
    pub fn send(&self, message: Message) -> impl Future<Output = ()> + '_ {
        self.inner.send(message)
    }
}

impl<const N: usize> Clone for AlvikChannel<Tx, N> {
    /// Another sending handle on the same queue.
    fn clone(&self) -> (other: Self)
        ensures
            other.queue() == self.queue(),
    {
        Self { inner: self.inner.clone(), _end: PhantomData }
    }
}

} // verus!
