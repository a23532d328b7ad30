use alvik::command::Message;
use alvik::frame::DecodeError;
use alvik::serial::channel::{AlvikChannel, Full};
use alvik::serial::{AlvikSerial, Outcome, Reassembler, CAPACITY};
use futures::executor::block_on;

fn frame_of(message: &Message) -> Vec<u8> {
    let mut buffer = [0u8; 64];
    let written = message.encode(&mut buffer).unwrap();
    buffer[..written].to_vec()
}

#[test]
fn partial_frame_waits_for_its_end() {
    let message = Message::Battery { value: 3.7f32.to_bits() };
    let frame = frame_of(&message);
    for cut in 0..frame.len() {
        assert!(ucpack::is_complete_message(&frame[..cut]).is_none());
        let mut reassembler = Reassembler::new();
        assert_eq!(reassembler.feed(&frame[..cut]), vec![]);
        assert_eq!(reassembler.spare(), CAPACITY - cut);
        assert_eq!(reassembler.feed(&frame[cut..]), vec![Ok(message)]);
        assert_eq!(reassembler.spare(), CAPACITY);
    }
    let mut longer = frame.clone();
    longer.extend_from_slice(&[1, 2, 3]);
    assert_eq!(ucpack::is_complete_message(&longer), Some(&frame[..]));
}

#[test]
fn corrupt_frame_is_skipped() {
    let mut corrupt = frame_of(&Message::Touch { value: 1 });
    corrupt[3] = 2;
    let valid = Message::SetLed { value: 9 };
    let mut stream = corrupt.clone();
    stream.extend_from_slice(&frame_of(&valid));
    let mut reassembler = Reassembler::new();
    let events = reassembler.feed(&stream);
    assert_eq!(events, vec![Err(DecodeError::BadChecksum), Ok(valid)]);
    assert_eq!(events.iter().filter(|event| event.is_ok()).count(), 1);
    assert_eq!(reassembler.spare(), CAPACITY);
}

#[test]
fn two_frames_in_one_read_keep_their_order() {
    let first = Message::WheelSpeed { left: 1.5f32.to_bits(), right: (-1.5f32).to_bits() };
    let second = Message::SetLed { value: 255 };
    let mut stream = frame_of(&first);
    stream.extend_from_slice(&frame_of(&second));
    let mut reassembler = Reassembler::new();
    assert_eq!(reassembler.feed(&stream), vec![Ok(first), Ok(second)]);
}

#[test]
fn reads_may_cut_the_stream_anywhere() {
    let messages = [
        Message::Imu { ax: 1, ay: 2, az: 3, gx: 4, gy: 5, gz: 0xFFFF_FFFF },
        Message::DistanceMatrix { matrix: [1, 2, 3, 4, 5, 6, 7] },
        Message::FirmwareVersion { value: [1, 2, 3] },
        Message::LineSensor { left_line: 0x0102, center_line: 0, right_line: 0xFFFF },
    ];
    let mut stream = Vec::new();
    for message in &messages {
        stream.extend_from_slice(&frame_of(message));
    }
    for step in 1..=7 {
        let mut reassembler = Reassembler::new();
        let mut seen = Vec::new();
        for chunk in stream.chunks(step) {
            seen.extend(reassembler.feed(chunk));
        }
        assert_eq!(seen, messages.iter().map(|message| Ok(*message)).collect::<Vec<_>>());
        assert_eq!(reassembler.spare(), CAPACITY);
    }
}

#[test]
fn a_long_stream_does_not_fill_the_buffer() {
    let message = Message::Velocity { linear: 7, angular: 8 };
    let frame = frame_of(&message);
    let mut reassembler = Reassembler::new();
    let mut count = 0;
    let mut stream = Vec::new();
    for _ in 0..200 {
        stream.extend_from_slice(&frame);
    }
    let mut at = 0;
    while at < stream.len() {
        let take = reassembler.spare().min(100).min(stream.len() - at);
        count += reassembler.feed(&stream[at..at + take]).len();
        assert!(reassembler.spare() > CAPACITY - 259);
        at += take;
    }
    assert_eq!(count, 200);
}

#[test]
fn a_full_queue_drops_the_newest() {
    let (tx, rx) = AlvikChannel::bound::<3>();
    for value in 0..3u8 {
        assert_eq!(tx.try_send(Message::Touch { value }), Ok(()));
    }
    let late = Message::Touch { value: 3 };
    assert_eq!(tx.try_send(late), Err(Full(late)));
    for value in 0..3u8 {
        assert_eq!(block_on(rx.recv()), Message::Touch { value });
    }
    assert_eq!(tx.try_send(late), Ok(()));
    assert_eq!(block_on(rx.recv()), late);
}

#[test]
fn the_default_capacity_is_fifty() {
    let (serial, ends) = AlvikSerial::new();
    let sender = serial.sender();
    for value in 0..50u8 {
        assert_eq!(sender.try_send(Message::AckU8 { ack: value }), Ok(()));
    }
    let late = Message::AckU8 { ack: 50 };
    assert_eq!(sender.clone().try_send(late), Err(Full(late)));
    for value in 0..50u8 {
        assert_eq!(block_on(ends.send_rx.recv()), Message::AckU8 { ack: value });
    }
}

#[test]
fn send_waits_until_there_is_room() {
    let (tx, rx) = AlvikChannel::bound::<1>();
    block_on(tx.send(Message::Behaviour { value: 1 }));
    assert_eq!(block_on(rx.recv()), Message::Behaviour { value: 1 });
}

#[test]
fn the_receiver_is_taken_once() {
    let (mut serial, ends) = AlvikSerial::new();
    let receiver = serial.take_receiver();
    assert!(receiver.is_some());
    assert!(serial.take_receiver().is_none());
    assert!(serial.take_receiver().is_none());
    let message = Message::TiltShake { value: 4 };
    assert_eq!(ends.recv_tx.try_send(message), Ok(()));
    assert_eq!(block_on(receiver.unwrap().recv()), message);
}

#[test]
fn receive_reports_what_became_of_each_frame() {
    let (tx, rx) = AlvikChannel::bound::<2>();
    let mut stream = Vec::new();
    for value in 0..3u8 {
        stream.extend_from_slice(&frame_of(&Message::Touch { value }));
    }
    let mut corrupt = frame_of(&Message::Touch { value: 9 });
    corrupt[0] = b'Z';
    stream.extend_from_slice(&corrupt);
    stream.extend_from_slice(&[b'A', 2, b't']);
    let mut reassembler = Reassembler::new();
    let outcomes = reassembler.receive(&stream, &tx);
    assert_eq!(
        outcomes,
        vec![
            Outcome::Delivered,
            Outcome::Delivered,
            Outcome::Dropped(Message::Touch { value: 2 }),
            Outcome::Failed(DecodeError::BadDelimiter),
        ]
    );
    assert_eq!(reassembler.spare(), CAPACITY - 3);
    assert_eq!(block_on(rx.recv()), Message::Touch { value: 0 });
    assert_eq!(block_on(rx.recv()), Message::Touch { value: 1 });
    let tail = frame_of(&Message::Touch { value: 5 });
    assert_eq!(reassembler.receive(&tail[3..], &tx), vec![Outcome::Delivered]);
    assert_eq!(block_on(rx.recv()), Message::Touch { value: 5 });
}

#[test]
fn outcome_of_a_send() {
    let message = Message::SetLed { value: 1 };
    assert_eq!(Outcome::of_send(Ok(())), Outcome::Delivered);
    assert_eq!(Outcome::of_send(Err(Full(message))), Outcome::Dropped(message));
}

#[test]
fn a_read_longer_than_the_buffer_is_taken() {
    let mut stream = Vec::new();
    let mut expected = Vec::new();
    for value in 0..=255u8 {
        let message = Message::AckU8 { ack: value };
        stream.extend_from_slice(&frame_of(&message));
        expected.push(Ok(message));
    }
    stream.extend_from_slice(&[b'A', 9, b'j']);
    assert!(stream.len() > CAPACITY);
    let mut reassembler = Reassembler::new();
    assert_eq!(reassembler.feed(&stream), expected);
    assert_eq!(reassembler.spare(), CAPACITY - 3);
}

#[test]
fn nothing_fed_nothing_found() {
    let mut reassembler = Reassembler::new();
    assert_eq!(reassembler.spare(), CAPACITY);
    assert_eq!(reassembler.feed(&[]), vec![]);
    assert_eq!(reassembler.feed(&[b'A']), vec![]);
    assert_eq!(reassembler.feed(&[]), vec![]);
    assert_eq!(reassembler.spare(), CAPACITY - 1);
}

#[test]
fn the_longest_frame_is_taken_whole() {
    let mut frame = vec![b'A', 255];
    frame.extend_from_slice(&[0u8; 255]);
    frame.push(b'#');
    frame.push(ucpack::crc8_slice(&[0u8; 255]));
    let mut reassembler = Reassembler::new();
    assert_eq!(reassembler.feed(&frame[..258]), vec![]);
    assert_eq!(reassembler.spare(), CAPACITY - 258);
    let events = reassembler.feed(&frame[258..]);
    assert_eq!(events.len(), 1);
    assert!(matches!(events[0], Ok(Message::Unknown(unknown)) if unknown.command() == 0));
    assert_eq!(reassembler.spare(), CAPACITY);
}
