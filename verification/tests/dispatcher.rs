use alvik::command::Message;
use alvik::dispatcher::{ChainPiece, Handler, HandlerExt};
use alvik::AlvikBuilder;
use std::ops::ControlFlow;
use std::sync::atomic::{AtomicUsize, Ordering};
use std::sync::Arc;

struct ClaimsTouch {
    seen: AtomicUsize,
}

impl Handler<Message> for ClaimsTouch {
    fn handle_event(&self, event: Message) -> ControlFlow<(), Message> {
        self.seen.fetch_add(1, Ordering::Relaxed);
        match event {
            Message::Touch { .. } => ControlFlow::Break(()),
            other => ControlFlow::Continue(other),
        }
    }
}

struct ClaimsNothing {
    seen: AtomicUsize,
}

impl Handler<Message> for ClaimsNothing {
    fn handle_event(&self, event: Message) -> ControlFlow<(), Message> {
        self.seen.fetch_add(1, Ordering::Relaxed);
        ControlFlow::Continue(event)
    }
}

struct Doubles;

impl Handler<u32> for Doubles {
    fn handle_event(&self, event: u32) -> ControlFlow<(), u32> {
        ControlFlow::Continue(event * 2)
    }
}

struct AddsOne;

impl Handler<u32> for AddsOne {
    fn handle_event(&self, event: u32) -> ControlFlow<(), u32> {
        ControlFlow::Continue(event + 1)
    }
}

#[test]
fn a_claimed_message_goes_no_further() {
    let a = Arc::new(ClaimsTouch { seen: AtomicUsize::new(0) });
    let b = Arc::new(ClaimsNothing { seen: AtomicUsize::new(0) });
    let chain = ().chain_to(b.clone()).chain_to(a.clone());
    assert_eq!(chain.handle_event(Message::Touch { value: 1 }), ControlFlow::Break(()));
    assert_eq!(a.seen.load(Ordering::Relaxed), 1);
    assert_eq!(b.seen.load(Ordering::Relaxed), 0);
}

#[test]
fn an_unclaimed_message_passes_every_handler() {
    let a = Arc::new(ClaimsTouch { seen: AtomicUsize::new(0) });
    let b = Arc::new(ClaimsNothing { seen: AtomicUsize::new(0) });
    let chain = ().chain_to(b.clone()).chain_to(a.clone());
    let other = Message::Battery { value: 7 };
    assert_eq!(chain.handle_event(other), ControlFlow::Continue(other));
    assert_eq!(a.seen.load(Ordering::Relaxed), 1);
    assert_eq!(b.seen.load(Ordering::Relaxed), 1);
}

#[test]
fn the_end_of_a_chain_passes_everything() {
    assert_eq!(().handle_event(5u32), ControlFlow::Continue(5));
}

#[test]
fn the_handler_put_in_front_answers_first() {
    let chain = ().chain_to(AddsOne).chain_to(Doubles);
    assert_eq!(chain.handle_event(5), ControlFlow::Continue(11));
    let chain = ().chain_to(Doubles).chain_to(AddsOne);
    assert_eq!(chain.handle_event(5), ControlFlow::Continue(12));
}

#[test]
fn a_chain_of_one() {
    let chain = ChainPiece::<u32, Doubles, ()>::new(Doubles);
    assert_eq!(chain.handle_event(4), ControlFlow::Continue(8));
}

#[test]
fn the_builder_chains_its_subscribers() {
    let a = Arc::new(ClaimsTouch { seen: AtomicUsize::new(0) });
    let b = Arc::new(ClaimsNothing { seen: AtomicUsize::new(0) });
    let chain = AlvikBuilder::new().subscribe(a.clone()).subscribe(b.clone()).build();
    assert_eq!(chain.handle_event(Message::Touch { value: 1 }), ControlFlow::Break(()));
    assert_eq!(b.seen.load(Ordering::Relaxed), 1);
    assert_eq!(a.seen.load(Ordering::Relaxed), 1);
    let other = Message::SetLed { value: 2 };
    assert_eq!(chain.handle_event(other), ControlFlow::Continue(other));
    assert_eq!(b.seen.load(Ordering::Relaxed), 2);
    assert_eq!(a.seen.load(Ordering::Relaxed), 2);
    let empty = AlvikBuilder::new().build();
    assert_eq!(empty.handle_event(other), ControlFlow::Continue(other));
}
