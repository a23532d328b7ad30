//! A chain of handlers that a message runs through until one claims it.
use std::marker::PhantomData;
use std::ops::ControlFlow;
use std::sync::Arc;
use vstd::prelude::*;

verus! {

/// Something that looks at an event and either claims it or passes it on.
pub trait Handler<E> {
    /// The answers that the handler may give to `event`. A handler that says
    /// nothing of itself may give any.
    open spec fn may_answer(&self, event: E, answer: ControlFlow<(), E>) -> bool {
        true
    }

    /// Looks at `event`. `Break` claims it: no later handler sees it.
    /// `Continue` passes an event on to the next handler, the same one or
    /// another in its place.
    fn handle_event(&self, event: E) -> (answer: ControlFlow<(), E>)
        ensures
            self.may_answer(event, answer),
    ;
}

/// The end of every chain: it passes each event on as it is.
impl<E> Handler<E> for () {
    open spec fn may_answer(&self, event: E, answer: ControlFlow<(), E>) -> bool {
        answer == ControlFlow::<(), E>::Continue(event)
    }

    #[inline]
    fn handle_event(&self, event: E) -> (answer: ControlFlow<(), E>) {
        ControlFlow::Continue(event)
    }
}

/// A shared handler answers as the handler that it points to.
impl<Event, T: Handler<Event>> Handler<Event> for Arc<T> {
    open spec fn may_answer(&self, event: Event, answer: ControlFlow<(), Event>) -> bool {
        (**self).may_answer(event, answer)
    }

    fn handle_event(&self, event: Event) -> (answer: ControlFlow<(), Event>) {
        (**self).handle_event(event)
    }
}

/// One link of a chain: a handler and the chain behind it.
pub struct ChainPiece<Event, H, Next> where H: Handler<Event>, Next: Handler<Event> {
    next: Next,
    handler: H,
    _event: PhantomData<Event>,
}

impl<Event, H, Next> ChainPiece<Event, H, Next> where H: Handler<Event>, Next: Handler<Event> {
    /// The handler at the head of the chain.
    pub closed spec fn head(self) -> H {
        self.handler
    }

    /// The chain behind the head.
    pub closed spec fn tail(self) -> Next {
        self.next
    }

    /// A chain of one handler, with nothing behind it but the end.
    pub fn new(handler: H) -> (chain: ChainPiece<Event, H, ()>)
        ensures
            chain.head() == handler,
            chain.tail() == (),
    {
        ChainPiece { next: (), handler, _event: PhantomData }
    }
}

impl<Event, H, Next> Handler<Event> for ChainPiece<Event, H, Next> where
    H: Handler<Event>,
    Next: Handler<Event>,
 {
    /// The head answers first. Where it claims the event that is the answer;
    /// where it passes an event on, the answer is that of the chain behind it
    /// to that event.
    open spec fn may_answer(&self, event: Event, answer: ControlFlow<(), Event>) -> bool {
        ||| answer == ControlFlow::<(), Event>::Break(()) && self.head().may_answer(
            event,
            ControlFlow::Break(()),
        )
        ||| exists|passed: Event|
            self.head().may_answer(event, ControlFlow::Continue(passed))
                && #[trigger] self.tail().may_answer(passed, answer)
    }

    fn handle_event(&self, event: Event) -> (answer: ControlFlow<(), Event>) {
        match self.handler.handle_event(event) {
            ControlFlow::Continue(message) => {
                let answer = self.next.handle_event(message);
                assert(self.head().may_answer(event, ControlFlow::Continue(message))
                    && self.tail().may_answer(message, answer));
                answer
            },
            ControlFlow::Break(v) => ControlFlow::Break(v),
        }
    }
}

/// Putting a handler in front of a chain.
pub trait HandlerExt<Event>: Sized + Handler<Event> {
    /// The chain in which `new_handler` answers first and `self` answers to
    /// what it passes on.
    fn chain_to<H: Handler<Event>>(self, new_handler: H) -> (chain: ChainPiece<Event, H, Self>)
        ensures
            chain.head() == new_handler,
            chain.tail() == self,
    ;
}

impl<Event, T: Handler<Event>> HandlerExt<Event> for T {
    fn chain_to<H: Handler<Event>>(self, new_handler: H) -> (chain: ChainPiece<Event, H, Self>) {
        ChainPiece { next: self, handler: new_handler, _event: PhantomData }
    }
}

/// Short circuit. Where the head of a chain claims an event, whatever it
/// does with it, the chain claims it, and what stands behind the head has no
/// part in the answer: no later handler sees the event.
pub proof fn lemma_claimed_stops<Event, H: Handler<Event>, Next: Handler<Event>>(
    chain: ChainPiece<Event, H, Next>,
    event: Event,
)
    requires
        forall|answer: ControlFlow<(), Event>| #[trigger]
            chain.head().may_answer(event, answer) ==> answer == ControlFlow::<(), Event>::Break(
                (),
            ),
    ensures
        forall|answer: ControlFlow<(), Event>| #[trigger]
            chain.may_answer(event, answer) <==> answer == ControlFlow::<(), Event>::Break(())
                && chain.head().may_answer(event, answer),
{
    assert forall|answer: ControlFlow<(), Event>| #[trigger]
        chain.may_answer(event, answer) implies answer == ControlFlow::<(), Event>::Break(())
        && chain.head().may_answer(event, answer) by {
        if exists|passed: Event|
            chain.head().may_answer(event, ControlFlow::Continue(passed))
                && #[trigger] chain.tail().may_answer(passed, answer) {
            let passed = choose|passed: Event|
                chain.head().may_answer(event, ControlFlow::Continue(passed))
                    && #[trigger] chain.tail().may_answer(passed, answer);
            assert(chain.head().may_answer(event, ControlFlow::Continue(passed)));
        }
    }
}

/// Where the head of a chain passes an event on as it is, the chain answers
/// to it as the chain behind the head does.
pub proof fn lemma_passed_on<Event, H: Handler<Event>, Next: Handler<Event>>(
    chain: ChainPiece<Event, H, Next>,
    event: Event,
)
    requires
        forall|answer: ControlFlow<(), Event>| #[trigger]
            chain.head().may_answer(event, answer) ==> answer == ControlFlow::<
                (),
                Event,
            >::Continue(event),
    ensures
        forall|answer: ControlFlow<(), Event>| #[trigger]
            chain.may_answer(event, answer) ==> chain.tail().may_answer(event, answer),
        forall|answer: ControlFlow<(), Event>|
            chain.head().may_answer(event, ControlFlow::Continue(event))
                && #[trigger] chain.tail().may_answer(event, answer) ==> chain.may_answer(
                event,
                answer,
            ),
{
    assert forall|answer: ControlFlow<(), Event>| #[trigger]
        chain.may_answer(event, answer) implies chain.tail().may_answer(event, answer) by {
        if answer == ControlFlow::<(), Event>::Break(()) && chain.head().may_answer(
            event,
            ControlFlow::Break(()),
        ) {
            assert(false);
        } else {
            let passed = choose|passed: Event|
                chain.head().may_answer(event, ControlFlow::Continue(passed))
                    && #[trigger] chain.tail().may_answer(passed, answer);
            assert(chain.head().may_answer(event, ControlFlow::Continue(passed)));
            assert(passed == event);
        }
    }
}

/// An event that no handler claims reaches the end of the chain. Where both
/// handlers of a chain of two pass an event on as it is, the chain passes it
/// on as it is, and it is for the caller to drop it.
pub proof fn lemma_unclaimed_passes<Event, A: Handler<Event>, B: Handler<Event>>(
    chain: ChainPiece<Event, A, ChainPiece<Event, B, ()>>,
    event: Event,
)
    requires
        forall|answer: ControlFlow<(), Event>| #[trigger]
            chain.head().may_answer(event, answer) ==> answer == ControlFlow::<
                (),
                Event,
            >::Continue(event),
        forall|answer: ControlFlow<(), Event>| #[trigger]
            chain.tail().head().may_answer(event, answer) ==> answer == ControlFlow::<
                (),
                Event,
            >::Continue(event),
    ensures
        forall|answer: ControlFlow<(), Event>| #[trigger]
            chain.may_answer(event, answer) ==> answer == ControlFlow::<(), Event>::Continue(
                event,
            ),
{
    lemma_passed_on(chain, event);
    lemma_passed_on(chain.tail(), event);
    assert forall|answer: ControlFlow<(), Event>| #[trigger]
        chain.may_answer(event, answer) implies answer == ControlFlow::<(), Event>::Continue(
        event,
    ) by {
        assert(chain.tail().may_answer(event, answer));
        assert(chain.tail().tail().may_answer(event, answer));
    }
}

} // verus!
