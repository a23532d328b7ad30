//! The transport between the byte stream and the message queues.
//!
//! Bytes that were read from the stream are fed to a [`Reassembler`], which
//! keeps what does not yet make a whole frame and decodes every frame that
//! does. The decoded messages are offered to the receiving queue without
//! waiting; a message that finds the queue full is dropped.
pub mod channel;

use crate::command::{decoded, lemma_decode_encode, lemma_parsed_payload, Message};
use crate::frame::{frame_len, is_complete, lemma_unframed_framed, DecodeError, END, START};
use crate::serial::channel::{AlvikChannel, Full, Rx, Tx, DEFAULT_CAPACITY};
use vstd::prelude::*;
use vstd::slice::slice_subrange;

verus! {

/// Bytes that a [`Reassembler`] can hold.
pub const CAPACITY: usize = 512;

/// Length of the longest frame: 255 bytes of payload and the four around it.
pub const MAX_FRAME: usize = 259;

/// What the frames of a stream decode to, in the order of the stream. The
/// stream is cut frame by frame from its front, each frame as long as its
/// length byte says; a frame that does not decode takes its place in the
/// result as an error and the cutting goes on behind it.
pub open spec fn frames(stream: Seq<u8>) -> Seq<Result<Message, DecodeError>>
    decreases stream.len(),
{
    if is_complete(stream) {
        let n = frame_len(stream);
        seq![decoded(stream.subrange(0, n))] + frames(stream.subrange(n, stream.len() as int))
    } else {
        Seq::empty()
    }
}

/// What is left of a stream behind its last whole frame: the beginning of a
/// frame that has not arrived in full, or nothing.
pub open spec fn remainder(stream: Seq<u8>) -> Seq<u8>
    decreases stream.len(),
{
    if is_complete(stream) {
        remainder(stream.subrange(frame_len(stream), stream.len() as int))
    } else {
        stream
    }
}

/// Collects the bytes of a stream and cuts them into frames.
pub struct Reassembler {
    buffer: [u8; 512],
    cursor: usize,
}

impl View for Reassembler {
    type V = Seq<u8>;

    /// The bytes that were fed and belong to no whole frame yet.
    closed spec fn view(&self) -> Seq<u8> {
        self.buffer@.subrange(0, self.cursor as int)
    }
}

impl Reassembler {
    #[verifier::type_invariant]
    spec fn within_capacity(self) -> bool {
        self.cursor <= CAPACITY
    }

    /// A reassembler that holds nothing.
    pub fn new() -> (fresh: Self)
        ensures
            fresh@ == Seq::<u8>::empty(),
    {
        let fresh = Reassembler { buffer: [0u8; 512], cursor: 0 };
        assert(fresh@ =~= Seq::<u8>::empty());
        fresh
    }

    /// Room that is left in the buffer: so many bytes can be fed in one
    /// piece.
    pub fn spare(&self) -> (room: usize)
        ensures
            room == CAPACITY - self@.len(),
    {
        proof {
            use_type_invariant(self);
        }
        CAPACITY - self.cursor
    }

    /// Puts `bytes` behind the bytes that are held.
    fn append(&mut self, bytes: &[u8])
        requires
            bytes@.len() <= CAPACITY - old(self)@.len(),
        ensures
            final(self)@ == old(self)@ + bytes@,
    {
        proof {
            use_type_invariant(&*self);
        }
        let start = self.cursor;
        let mut i: usize = 0;
        while i < bytes.len()
            invariant
                i <= bytes@.len(),
                start + bytes@.len() <= CAPACITY,
                self.cursor == start,
                self.buffer@.subrange(0, start as int) == old(self)@,
                self.buffer@.subrange(start as int, start + i) == bytes@.subrange(0, i as int),
            decreases bytes@.len() - i,
        {
            let ghost before = self.buffer@;
            self.buffer[start + i] = bytes[i];
            assert(self.buffer@.subrange(0, start as int) =~= before.subrange(0, start as int));
            assert(self.buffer@.subrange(start as int, start + i + 1) =~= before.subrange(
                start as int,
                start + i,
            ).push(bytes@[i as int]));
            assert(bytes@.subrange(0, i + 1) =~= bytes@.subrange(0, i as int).push(bytes@[i as int]));
            i += 1;
        }
        self.cursor = start + bytes.len();
        assert(bytes@.subrange(0, bytes@.len() as int) =~= bytes@);
        assert(self@ =~= old(self)@ + bytes@);
    }

    /// Decodes every whole frame that is held, in order, puts the results
    /// behind those in `events`, and returns the number of bytes that the
    /// frames take.
    fn scan(&self, events: &mut Vec<Result<Message, DecodeError>>) -> (taken: usize)
        ensures
            final(events)@ == old(events)@ + frames(self@),
            taken <= self@.len(),
            self@.subrange(taken as int, self@.len() as int) == remainder(self@),
    {
        proof {
            use_type_invariant(self);
        }
        let mut partial: usize = 0;
        assert(self@.subrange(0, self@.len() as int) =~= self@);
        assert(old(events)@ + Seq::<Result<Message, DecodeError>>::empty() =~= old(events)@);
        let ghost mut found = Seq::<Result<Message, DecodeError>>::empty();
        loop
            invariant
                partial <= self.cursor <= CAPACITY,
                events@ == old(events)@ + found,
                frames(self@) == found + frames(self@.subrange(partial as int, self@.len() as int)),
                remainder(self@) == remainder(self@.subrange(partial as int, self@.len() as int)),
            ensures
                !is_complete(self@.subrange(partial as int, self@.len() as int)),
            decreases self.cursor - partial,
        {
            let window = slice_subrange(self.buffer.as_slice(), partial, self.cursor);
            assert(window@ =~= self@.subrange(partial as int, self@.len() as int));
            match ucpack::is_complete_message(window) {
                None => {
                    break ;
                },
                Some(frame) => {
                    let event = Message::decode(frame);
                    proof {
                        let n = frame_len(window@);
                        assert(window@.subrange(n, window@.len() as int) =~= self@.subrange(
                            partial + n,
                            self@.len() as int,
                        ));
                        assert(found.push(event) + frames(window@.subrange(n, window@.len() as int))
                            =~= found + frames(window@));
                        assert(old(events)@ + found.push(event) =~= (old(events)@ + found).push(
                            event,
                        ));
                        found = found.push(event);
                    }
                    events.push(event);
                    partial += frame.len();
                },
            }
        }
        assert(found + Seq::<Result<Message, DecodeError>>::empty() =~= found);
        partial
    }

    /// Drops the first `taken` of the bytes that are held and moves the
    /// others to the front.
    fn compact(&mut self, taken: usize)
        requires
            taken <= old(self)@.len(),
        ensures
            final(self)@ == old(self)@.subrange(taken as int, old(self)@.len() as int),
    {
        proof {
            use_type_invariant(&*self);
        }
        let rest = self.cursor - taken;
        let mut j: usize = 0;
        while j < rest
            invariant
                j <= rest,
                rest + taken == self.cursor,
                self.cursor == old(self).cursor,
                self.cursor <= CAPACITY,
                self.buffer@.subrange(0, j as int) == old(self).buffer@.subrange(
                    taken as int,
                    taken + j,
                ),
                forall|k: int| j <= k < CAPACITY ==> self.buffer@[k] == old(self).buffer@[k],
            decreases rest - j,
        {
            let ghost before = self.buffer@;
            let byte = self.buffer[taken + j];
            self.buffer[j] = byte;
            assert(self.buffer@.subrange(0, j + 1) =~= before.subrange(0, j as int).push(byte));
            assert(old(self).buffer@.subrange(taken as int, taken + j + 1) =~= old(
                self,
            ).buffer@.subrange(taken as int, taken + j).push(byte));
            j += 1;
        }
        self.cursor = rest;
        assert(self@ =~= old(self)@.subrange(taken as int, old(self)@.len() as int));
    }

    /// Takes the bytes of one read: puts them behind the bytes that are held,
    /// decodes every frame that is whole by now, and keeps what follows the
    /// last of them for the next call. The results come in the order of the
    /// frames in the stream; a frame that does not decode is skipped and
    /// reported in its place. A read of any length is taken: where it is
    /// longer than the room that is left, it goes in piece by piece.
    pub fn feed(&mut self, bytes: &[u8]) -> (events: Vec<Result<Message, DecodeError>>)
        ensures
            events@ == frames(old(self)@ + bytes@),
            final(self)@ == remainder(old(self)@ + bytes@),
            final(self)@.len() < MAX_FRAME,
    {
        let mut events: Vec<Result<Message, DecodeError>> = Vec::new();
        let mut fed: usize = 0;
        proof {
            lemma_nothing_fed(events@, old(self)@, bytes@);
        }
        loop
            invariant
                fed <= bytes@.len(),
                frames(old(self)@ + bytes@) == events@ + frames(
                    self@ + bytes@.subrange(fed as int, bytes@.len() as int),
                ),
                remainder(old(self)@ + bytes@) == remainder(
                    self@ + bytes@.subrange(fed as int, bytes@.len() as int),
                ),
            ensures
                events@ == frames(old(self)@ + bytes@),
                self@ == remainder(old(self)@ + bytes@),
            decreases bytes@.len() - fed,
        {
            let ghost held = self@;
            let ghost seen = events@;
            let taken = self.scan(&mut events);
            self.compact(taken);
            proof {
                lemma_scanned(seen, held, bytes@, fed as int);
            }
            if fed == bytes.len() {
                break ;
            }
            let room = self.spare();
            let left = bytes.len() - fed;
            let take = if left < room {
                left
            } else {
                room
            };
            self.append(slice_subrange(bytes, fed, fed + take));
            proof {
                lemma_appended(remainder(held), bytes@, fed as int, take as int);
            }
            fed += take;
        }
        proof {
            lemma_remainder_incomplete(old(self)@ + bytes@);
        }
        events
    }
}

/// Before anything of a read is fed, the whole read is ahead.
proof fn lemma_nothing_fed(seen: Seq<Result<Message, DecodeError>>, held: Seq<u8>, bytes: Seq<u8>)
    requires
        seen.len() == 0,
    ensures
        bytes.subrange(0, bytes.len() as int) == bytes,
        seen + frames(held + bytes) == frames(held + bytes),
{
    assert(bytes.subrange(0, bytes.len() as int) =~= bytes);
    assert(seen + frames(held + bytes) =~= frames(held + bytes));
}

/// Cutting the frames out of what is held, with the rest of a read still
/// ahead, gives the first of the results that the whole gives and leaves the
/// others to come. With nothing ahead, nothing is to come.
proof fn lemma_scanned(
    seen: Seq<Result<Message, DecodeError>>,
    held: Seq<u8>,
    bytes: Seq<u8>,
    fed: int,
)
    requires
        0 <= fed <= bytes.len(),
    ensures
        ({
            let ahead = bytes.subrange(fed, bytes.len() as int);
            &&& seen + frames(held + ahead) == seen + frames(held) + frames(remainder(held) + ahead)
            &&& remainder(held + ahead) == remainder(remainder(held) + ahead)
            &&& remainder(held).len() < MAX_FRAME
            &&& fed == bytes.len() ==> frames(remainder(held) + ahead) == Seq::<
                Result<Message, DecodeError>,
            >::empty() && remainder(remainder(held) + ahead) == remainder(held) && seen + frames(
                held,
            ) + frames(remainder(held) + ahead) == seen + frames(held)
        }),
{
    let ahead = bytes.subrange(fed, bytes.len() as int);
    lemma_chunks(held, ahead);
    lemma_remainder_incomplete(held);
    assert(seen + (frames(held) + frames(remainder(held) + ahead)) =~= seen + frames(held) + frames(
        remainder(held) + ahead,
    ));
    if fed == bytes.len() {
        assert(remainder(held) + ahead =~= remainder(held));
        assert(seen + frames(held) + frames(remainder(held) + ahead) =~= seen + frames(held));
    }
}

/// Moving the next piece of a read from what is ahead to what is held leaves
/// the stream as it was.
proof fn lemma_appended(held: Seq<u8>, bytes: Seq<u8>, fed: int, take: int)
    requires
        0 <= fed,
        0 <= take,
        fed + take <= bytes.len(),
    ensures
        held + bytes.subrange(fed, fed + take) + bytes.subrange(fed + take, bytes.len() as int)
            == held + bytes.subrange(fed, bytes.len() as int),
{
    assert(held + bytes.subrange(fed, fed + take) + bytes.subrange(fed + take, bytes.len() as int)
        =~= held + bytes.subrange(fed, bytes.len() as int));
}

/// What is left of a stream is no whole frame, so it is shorter than the
/// longest frame.
pub proof fn lemma_remainder_incomplete(stream: Seq<u8>)
    ensures
        !is_complete(remainder(stream)),
        remainder(stream).len() < MAX_FRAME,
        remainder(stream).len() <= stream.len(),
    decreases stream.len(),
{
    if is_complete(stream) {
        lemma_remainder_incomplete(stream.subrange(frame_len(stream), stream.len() as int));
    }
}

/// Whether `frame` is one whole frame and nothing more.
pub open spec fn is_frame(frame: Seq<u8>) -> bool {
    is_complete(frame) && frame.len() == frame_len(frame)
}

/// A stream that begins with a whole frame gives what that frame decodes to,
/// then what the stream behind the frame gives, and leaves what that stream
/// leaves.
pub proof fn lemma_frames_first(frame: Seq<u8>, rest: Seq<u8>)
    requires
        is_frame(frame),
    ensures
        frames(frame + rest) == seq![decoded(frame)] + frames(rest),
        remainder(frame + rest) == remainder(rest),
{
    let stream = frame + rest;
    let n = frame_len(stream);
    assert(stream[1] == frame[1]);
    assert(stream.subrange(0, n) =~= frame);
    assert(stream.subrange(n, stream.len() as int) =~= rest);
}

/// Boundary detection. A whole frame cut short anywhere is no complete
/// message. With the missing bytes behind it, and whatever follows them, it is
/// one, and the frame found is exactly the whole frame.
pub proof fn lemma_boundary(frame: Seq<u8>, cut: int, rest: Seq<u8>)
    requires
        is_frame(frame),
        0 <= cut < frame.len(),
    ensures
        !is_complete(frame.subrange(0, cut)),
        frames(frame.subrange(0, cut)) == Seq::<Result<Message, DecodeError>>::empty(),
        remainder(frame.subrange(0, cut)) == frame.subrange(0, cut),
        frame.subrange(0, cut) + frame.subrange(cut, frame.len() as int) + rest == frame + rest,
        is_complete(frame + rest),
        (frame + rest).subrange(0, frame_len(frame + rest)) == frame,
{
    let stream = frame + rest;
    assert(stream[1] == frame[1]);
    assert(stream.subrange(0, frame_len(stream)) =~= frame);
    assert(frame.subrange(0, cut) + frame.subrange(cut, frame.len() as int) + rest =~= frame + rest);
}

/// Reads may cut the stream anywhere. Feeding `first` and then `second` gives
/// the same results, in the same order, and leaves the same bytes as feeding
/// the two in one piece.
pub proof fn lemma_chunks(first: Seq<u8>, second: Seq<u8>)
    ensures
        frames(first + second) == frames(first) + frames(remainder(first) + second),
        remainder(first + second) == remainder(remainder(first) + second),
    decreases first.len(),
{
    if is_complete(first) {
        let n = frame_len(first);
        let head = first.subrange(0, n);
        let tail = first.subrange(n, first.len() as int);
        assert(first =~= head + tail);
        assert(head[1] == first[1]);
        assert(first + second =~= head + (tail + second));
        lemma_frames_first(head, tail + second);
        lemma_frames_first(head, tail);
        lemma_chunks(tail, second);
        assert(seq![decoded(head)] + (frames(tail) + frames(remainder(tail) + second)) =~= (seq![
            decoded(head),
        ] + frames(tail)) + frames(remainder(tail) + second));
    } else {
        assert(frames(first) + frames(first + second) =~= frames(first + second));
    }
}

/// Resynchronisation. A whole frame that does not decode, followed by the
/// frame of a message, gives the error and then the message: the corrupt frame
/// is skipped, the one behind it is decoded, and nothing is left over.
pub proof fn lemma_resynchronisation(corrupt: Seq<u8>, message: Message)
    requires
        is_frame(corrupt),
        decoded(corrupt) is Err,
        !(message is Unknown),
    ensures
        frames(corrupt + message.frame()) == seq![
            decoded(corrupt),
            Ok::<Message, DecodeError>(message),
        ],
        remainder(corrupt + message.frame()) == Seq::<u8>::empty(),
{
    lemma_frames_first(corrupt, message.frame());
    lemma_frames_of_message(message);
    assert(seq![decoded(corrupt)] + seq![Ok::<Message, DecodeError>(message)] =~= seq![
        decoded(corrupt),
        Ok::<Message, DecodeError>(message),
    ]);
}

/// The frame of a message is one whole frame, and a stream that consists of
/// it gives the message and leaves nothing.
pub proof fn lemma_frames_of_message(message: Message)
    requires
        !(message is Unknown),
    ensures
        is_frame(message.frame()),
        decoded(message.frame()) == Ok::<Message, DecodeError>(message),
        frames(message.frame()) == seq![Ok::<Message, DecodeError>(message)],
        remainder(message.frame()) == Seq::<u8>::empty(),
{
    let frame = message.frame();
    let nothing = Seq::<u8>::empty();
    lemma_parsed_payload(message);
    lemma_unframed_framed(START, END, message.payload(), nothing, 0);
    lemma_decode_encode(message, nothing);
    assert(frame + nothing =~= frame);
    lemma_frames_first(frame, nothing);
    assert(seq![decoded(frame)] + frames(nothing) =~= seq![decoded(frame)]);
}

/// Frames keep their order. Two messages whose frames arrive back to back in
/// one read come out as two messages, the first one first.
pub proof fn lemma_frames_in_order(first: Message, second: Message)
    requires
        !(first is Unknown),
        !(second is Unknown),
    ensures
        frames(first.frame() + second.frame()) == seq![
            Ok::<Message, DecodeError>(first),
            Ok::<Message, DecodeError>(second),
        ],
        remainder(first.frame() + second.frame()) == Seq::<u8>::empty(),
{
    let one = Ok::<Message, DecodeError>(first);
    let two = Ok::<Message, DecodeError>(second);
    lemma_frames_of_message(first);
    lemma_frames_of_message(second);
    lemma_frames_first(first.frame(), second.frame());
    assert(seq![one] + seq![two] =~= seq![one, two]);
}

/// What became of one frame of the stream.
#[derive(Debug, Clone, Copy, PartialEq, Eq)]
pub enum Outcome {
    /// The frame decoded and its message is in the queue.
    Delivered,
    /// The frame decoded, the queue was full, and the message was dropped.
    Dropped(Message),
    /// The frame did not decode and was skipped.
    Failed(DecodeError),
}

impl Outcome {
    /// Whether the outcome is one that the frame result `event` can have: an
    /// error fails with that error, and a message is delivered or is dropped
    /// as that message, as the queue decides.
    pub open spec fn settles(self, event: Result<Message, DecodeError>) -> bool {
        match event {
            Ok(message) => self == Outcome::Delivered || self == Outcome::Dropped(message),
            Err(fault) => self == Outcome::Failed(fault),
        }
    }

    /// The outcome for a message, given what the queue answered to it: a
    /// message that came back is dropped, and not offered again.
    pub fn of_send(sent: Result<(), Full>) -> (outcome: Outcome)
        ensures
            outcome == match sent {
                Ok(_) => Outcome::Delivered,
                Err(full) => Outcome::Dropped(full.0),
            },
    {
        match sent {
            Ok(_) => Outcome::Delivered,
            Err(full) => Outcome::Dropped(full.0),
        }
    }
}

/// Offers every decoded message to the queue, in order and without waiting,
/// and says for each frame result what became of it. Whether a message finds
/// room is for the queue to say; nothing is offered twice.
pub fn forward<const N: usize>(
    events: &Vec<Result<Message, DecodeError>>,
    recv_tx: &AlvikChannel<Tx, N>,
) -> (outcomes: Vec<Outcome>)
    ensures
        outcomes@.len() == events@.len(),
        forall|i: int| 0 <= i < events@.len() ==> (#[trigger] outcomes@[i]).settles(events@[i]),
{
    let mut outcomes: Vec<Outcome> = Vec::new();
    let mut i: usize = 0;
    while i < events.len()
        invariant
            i <= events@.len(),
            outcomes@.len() == i,
            forall|k: int| 0 <= k < i ==> (#[trigger] outcomes@[k]).settles(events@[k]),
        decreases events@.len() - i,
    {
        let outcome = match events[i] {
            Ok(message) => Outcome::of_send(recv_tx.try_send(message)),
            Err(fault) => Outcome::Failed(fault),
        };
        outcomes.push(outcome);
        i += 1;
    }
    outcomes
}

impl Reassembler {
    /// One step of the receiving side: feeds the bytes of one read and offers
    /// what they completed to the queue. The stream is never held up: a
    /// message that finds the queue full is dropped and reported.
    pub fn receive<const N: usize>(
        &mut self,
        bytes: &[u8],
        recv_tx: &AlvikChannel<Tx, N>,
    ) -> (outcomes: Vec<Outcome>)
        ensures
            final(self)@ == remainder(old(self)@ + bytes@),
            final(self)@.len() < MAX_FRAME,
            outcomes@.len() == frames(old(self)@ + bytes@).len(),
            forall|i: int|
                0 <= i < outcomes@.len() ==> (#[trigger] outcomes@[i]).settles(
                    frames(old(self)@ + bytes@)[i],
                ),
    {
        let events = self.feed(bytes);
        forward(&events, recv_tx)
    }
}

/// The ends of the two queues that the transport task works on.
pub struct TaskEnds {
    /// Where the task takes the messages that are to be written to the stream.
    pub send_rx: AlvikChannel<Rx, DEFAULT_CAPACITY>,
    /// Where the task puts the messages that it read from the stream.
    pub recv_tx: AlvikChannel<Tx, DEFAULT_CAPACITY>,
}

/// The ends of the two queues that the application works on. The receiving
/// end can be taken out once.
pub struct AlvikSerial {
    recv_channel: Option<AlvikChannel<Rx, DEFAULT_CAPACITY>>,
    send_channel: AlvikChannel<Tx, DEFAULT_CAPACITY>,
}

impl AlvikSerial {
    /// The receiving end, while it has not been taken.
    pub closed spec fn receiving_end(self) -> Option<AlvikChannel<Rx, DEFAULT_CAPACITY>> {
        self.recv_channel
    }

    /// The sending end.
    pub closed spec fn sending_end(self) -> AlvikChannel<Tx, DEFAULT_CAPACITY> {
        self.send_channel
    }

    /// The same ends once the receiving end has been taken.
    pub closed spec fn taken(self) -> Self {
        AlvikSerial { recv_channel: None, send_channel: self.send_channel }
    }

    /// Makes the two queues, each of the default capacity, and returns the
    /// application's ends and the task's ends of them.
    pub fn new() -> (made: (AlvikSerial, TaskEnds))
        ensures
            made.0.receiving_end() matches Some(rx) && rx.queue() == made.1.recv_tx.queue(),
            made.0.sending_end().queue() == made.1.send_rx.queue(),
    {
        let (send_tx, send_rx) = AlvikChannel::bound::<DEFAULT_CAPACITY>();
        let (recv_tx, recv_rx) = AlvikChannel::bound::<DEFAULT_CAPACITY>();
        (
            AlvikSerial { recv_channel: Some(recv_rx), send_channel: send_tx },
            TaskEnds { send_rx, recv_tx },
        )
    }

    /// Takes the receiving end, of which there is one: the first call returns
    /// it and every later call returns nothing.
    pub fn take_receiver(&mut self) -> (receiver: Option<AlvikChannel<Rx, DEFAULT_CAPACITY>>)
        ensures
            receiver == old(self).receiving_end(),
            *final(self) == old(self).taken(),
            final(self).receiving_end() is None,
            final(self).sending_end() == old(self).sending_end(),
    {
        self.recv_channel.take()
    }

    /// A sending end for a producer.
    pub fn sender(&self) -> (handle: AlvikChannel<Tx, DEFAULT_CAPACITY>)
        ensures
            handle.queue() == self.sending_end().queue(),
    {
        self.send_channel.clone()
    }

    /// Single consumer. Once the receiving end has been taken there is none
    /// to take, the sending end is what it was, and taking again changes
    /// nothing.
    pub proof fn lemma_taken_once(self)
        ensures
            self.taken().receiving_end() is None,
            self.taken().sending_end() == self.sending_end(),
            self.taken().taken() == self.taken(),
    {
    }
}

} // verus!
