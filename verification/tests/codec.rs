use alvik::command::{EncodeError, Message, UnknownCommand};
use alvik::frame::DecodeError;

fn frame_of(message: &Message) -> Vec<u8> {
    let mut buffer = [0u8; 512];
    let written = message.encode(&mut buffer).unwrap();
    buffer[..written].to_vec()
}

#[test]
fn wheel_speed_round_trips() {
    let message = Message::WheelSpeed { left: 1.5f32.to_bits(), right: (-1.5f32).to_bits() };
    let frame = frame_of(&message);
    let checksum = ucpack::crc8_slice(&[0x6A, 0x00, 0x00, 0xC0, 0x3F, 0x00, 0x00, 0xC0, 0xBF]);
    assert_eq!(
        frame,
        vec![0x41, 9, 0x6A, 0x00, 0x00, 0xC0, 0x3F, 0x00, 0x00, 0xC0, 0xBF, 0x23, checksum]
    );
    let back = Message::decode(&frame).unwrap();
    assert_eq!(back, message);
    match back {
        Message::WheelSpeed { left, right } => {
            assert_eq!(f32::from_bits(left), 1.5);
            assert_eq!(f32::from_bits(right), -1.5);
        }
        other => panic!("unexpected {:?}", other),
    }
}

#[test]
fn set_led_round_trips() {
    let message = Message::SetLed { value: 255 };
    let frame = frame_of(&message);
    assert_eq!(&frame[..4], &[0x41, 2, 0x4C, 255]);
    assert_eq!(frame[4], 0x23);
    assert_eq!(frame.len(), 6);
    assert_eq!(Message::decode(&frame), Ok(message));
}

#[test]
fn frame_matches_the_packer() {
    let packer = ucpack::UcPack::new(b'A', b'#');
    let expected = packer.serialize_vec(&(b'j', (1.5f32, -1.5f32))).unwrap();
    let message = Message::WheelSpeed { left: 1.5f32.to_bits(), right: (-1.5f32).to_bits() };
    assert_eq!(frame_of(&message), expected);
    let expected = packer.serialize_vec(&(b'l', (1u16, 0x0203u16, 0xFFFFu16))).unwrap();
    let message = Message::LineSensor { left_line: 1, center_line: 0x0203, right_line: 0xFFFF };
    assert_eq!(frame_of(&message), expected);
}

#[test]
fn unknown_is_not_encoded() {
    let mut buffer = [7u8; 16];
    let message = Message::Unknown(UnknownCommand::new(0x01));
    assert_eq!(message.encode(&mut buffer), Err(EncodeError::UnknownCommand));
    assert_eq!(buffer, [7u8; 16]);
}

#[test]
fn short_buffer_is_full() {
    let mut buffer = [0u8; 5];
    let message = Message::SetLed { value: 1 };
    assert_eq!(message.encode(&mut buffer), Err(EncodeError::BufferFull));
    let mut buffer = [0u8; 6];
    assert_eq!(message.encode(&mut buffer), Ok(6));
}

#[test]
fn unknown_tag_decodes_to_unknown() {
    let packer = ucpack::UcPack::new(b'A', b'#');
    let frame = packer.serialize_vec(&(0x01u8, 0x02u8, 0x03u8)).unwrap();
    match Message::decode(&frame) {
        Ok(Message::Unknown(unknown)) => assert_eq!(unknown.command(), 0x01),
        other => panic!("unexpected {:?}", other),
    }
}

#[test]
fn faults_are_told_apart() {
    let good = frame_of(&Message::Touch { value: 3 });
    assert_eq!(Message::decode(&good), Ok(Message::Touch { value: 3 }));
    assert_eq!(Message::decode(&good[..good.len() - 1]), Err(DecodeError::Truncated));
    let mut bad = good.clone();
    bad[0] = b'B';
    assert_eq!(Message::decode(&bad), Err(DecodeError::BadDelimiter));
    let mut bad = good.clone();
    bad[4] = b'!';
    assert_eq!(Message::decode(&bad), Err(DecodeError::BadDelimiter));
    let mut bad = good.clone();
    bad[3] ^= 0x10;
    assert_eq!(Message::decode(&bad), Err(DecodeError::BadChecksum));
    let packer = ucpack::UcPack::new(b'A', b'#');
    let short = packer.serialize_vec(&b't').unwrap();
    assert_eq!(Message::decode(&short), Err(DecodeError::Truncated));
    let empty = packer.serialize_vec(&[0u8; 0]).unwrap();
    assert_eq!(Message::decode(&empty), Err(DecodeError::Truncated));
}

fn every_variant() -> Vec<Message> {
    vec![
        Message::WheelSpeed { left: 0.25f32.to_bits(), right: f32::MAX.to_bits() },
        Message::LineSensor { left_line: 0, center_line: 0x1234, right_line: u16::MAX },
        Message::ColorSensor { red: 255, green: 256, blue: 0xABCD },
        Message::Imu {
            ax: 0,
            ay: 1,
            az: 0x0102_0304,
            gx: u32::MAX,
            gy: f32::NAN.to_bits(),
            gz: (-0.0f32).to_bits(),
        },
        Message::Battery { value: 87.5f32.to_bits() },
        Message::Distance { left_tof: 1, center_tof: 2, right_tof: 3 },
        Message::Touch { value: 0 },
        Message::TiltShake { value: 0x80 },
        Message::Behaviour { value: 255 },
        Message::DistanceMatrix { matrix: [0, 1, 2, 253, 254, 255, 0x41] },
        Message::ImuPosition { roll: 1, pitch: 0x8000_0000, yaw: f32::INFINITY.to_bits() },
        Message::WheelsPosition { left_wheel: 360.0f32.to_bits(), right_wheel: 0 },
        Message::Velocity { linear: 0x0000_FF00, angular: 0x00FF_0000 },
        Message::AckU8 { ack: b'#' },
        Message::AckF32 { x: 1, y: 2, theta: 3 },
        Message::FirmwareVersion { value: [1, 4, 2] },
        Message::SetLed { value: 0x23 },
    ]
}

#[test]
fn every_variant_round_trips() {
    let sizes = [8, 6, 6, 24, 4, 6, 1, 1, 1, 7, 12, 8, 8, 1, 12, 3, 1];
    let tags = b"jlcipdtnbfqwvxz~L";
    for (index, message) in every_variant().into_iter().enumerate() {
        let frame = frame_of(&message);
        assert_eq!(frame.len(), sizes[index] + 5);
        assert_eq!(frame[0], b'A');
        assert_eq!(frame[1] as usize, sizes[index] + 1);
        assert_eq!(frame[2], tags[index]);
        assert_eq!(frame[frame.len() - 2], b'#');
        assert_eq!(frame[frame.len() - 1], ucpack::crc8_slice(&frame[2..frame.len() - 2]));
        assert_eq!(Message::decode(&frame), Ok(message));
        let mut followed = frame.clone();
        followed.extend_from_slice(&[b'A', 200, 1, 2]);
        assert_eq!(Message::decode(&followed), Ok(message));
    }
}

#[test]
fn fields_are_little_endian() {
    let frame = frame_of(&Message::LineSensor {
        left_line: 0x0102,
        center_line: 0x0304,
        right_line: 0xFFFE,
    });
    assert_eq!(&frame[2..9], &[b'l', 0x02, 0x01, 0x04, 0x03, 0xFE, 0xFF]);
    let frame = frame_of(&Message::Battery { value: 0x0A0B_0C0D });
    assert_eq!(&frame[2..7], &[b'p', 0x0D, 0x0C, 0x0B, 0x0A]);
    let frame = frame_of(&Message::DistanceMatrix { matrix: [7, 6, 5, 4, 3, 2, 1] });
    assert_eq!(&frame[2..10], &[b'f', 7, 6, 5, 4, 3, 2, 1]);
}

#[test]
fn encode_leaves_the_rest_of_the_buffer() {
    let mut buffer = [0xEEu8; 12];
    let written = Message::Touch { value: 1 }.encode(&mut buffer).unwrap();
    assert_eq!(written, 6);
    assert_eq!(&buffer[6..], &[0xEE; 6]);
}

#[test]
fn bytes_after_the_fields_are_passed_over() {
    let packer = ucpack::UcPack::new(b'A', b'#');
    let long = packer.serialize_vec(&(b't', 5u8, 99u8, 98u8)).unwrap();
    assert_eq!(Message::decode(&long), Ok(Message::Touch { value: 5 }));
    let unknown = packer.serialize_vec(&(0xFFu8, [1u8; 20])).unwrap();
    assert_eq!(Message::decode(&unknown), Ok(Message::Unknown(UnknownCommand::new(0xFF))));
}

#[test]
fn every_unlisted_tag_is_unknown() {
    let packer = ucpack::UcPack::new(b'A', b'#');
    let listed = b"jlcipdtnbfqwvxz~L";
    for tag in 0..=255u8 {
        let frame = packer.serialize_vec(&(tag, [0u8; 24])).unwrap();
        let message = Message::decode(&frame).unwrap();
        match message {
            Message::Unknown(unknown) => {
                assert!(!listed.contains(&tag));
                assert_eq!(unknown.command(), tag);
                assert_eq!(unknown, UnknownCommand::new(tag));
            }
            _ => assert!(listed.contains(&tag)),
        }
    }
}

#[test]
fn a_listed_tag_without_its_fields_is_truncated() {
    let packer = ucpack::UcPack::new(b'A', b'#');
    let frame = packer.serialize_vec(&(b'j', [0u8; 7])).unwrap();
    assert_eq!(Message::decode(&frame), Err(DecodeError::Truncated));
    let frame = packer.serialize_vec(&(b'j', [0u8; 8])).unwrap();
    assert_eq!(Message::decode(&frame), Ok(Message::WheelSpeed { left: 0, right: 0 }));
}

#[test]
fn too_short_for_a_frame() {
    assert_eq!(Message::decode(&[]), Err(DecodeError::Truncated));
    assert_eq!(Message::decode(&[b'A']), Err(DecodeError::Truncated));
    assert_eq!(Message::decode(&[b'A', 0, b'#']), Err(DecodeError::Truncated));
    assert_eq!(Message::decode(&[b'A', 1, b't', b'#']), Err(DecodeError::Truncated));
}
