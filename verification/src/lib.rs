//! The serial protocol of the Alvik controller board.
//!
//! [`command`] holds the messages and their wire form, [`frame`] the frame
//! around a payload, [`serial`] the reassembly of frames from a byte stream
//! and the queues between the transport and the application, and
//! [`dispatcher`] the chain of handlers that received messages run through.
pub mod command;
pub mod dispatcher;
pub mod frame;
pub mod serial;

use command::Message;
use dispatcher::{ChainPiece, Handler, HandlerExt};
use vstd::prelude::*;

verus! {

/// Collects the handlers of received messages before anything runs. Once the
/// chain is built no handler can be added to it or taken from it.
pub struct AlvikBuilder<H: Handler<Message>> {
    handler: H,
}

impl AlvikBuilder<()> {
    /// A builder with no handler: its chain passes every message on.
    pub fn new() -> (builder: Self)
        ensures
            builder.chain() == (),
    {
        AlvikBuilder { handler: () }
    }
}

impl<H: Handler<Message>> AlvikBuilder<H> {
    /// The chain of the handlers subscribed so far.
    pub closed spec fn chain(self) -> H {
        self.handler
    }

    /// Puts `handler` in front of the handlers subscribed so far: it sees
    /// every message first, and they see what it passes on.
    pub fn subscribe<S: Handler<Message>>(self, handler: S) -> (builder: AlvikBuilder<
        ChainPiece<Message, S, H>,
    >)
        ensures
            builder.chain().head() == handler,
            builder.chain().tail() == self.chain(),
    {
        AlvikBuilder { handler: self.handler.chain_to(handler) }
    }

    /// Ends the subscribing and hands out the chain.
    pub fn build(self) -> (chain: H)
        ensures
            chain == self.chain(),
    {
        self.handler
    }
}

} // verus!
