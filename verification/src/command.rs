//! The messages of the protocol and their payloads.
//!
//! A payload is one tag byte followed by the fields of the variant that the
//! tag names, in declaration order: a `u8` as one byte, a `u16` or `u32` low
//! byte first, a byte array as it is. A `u32` field holds the bit pattern of
//! an IEEE 754 single-precision number, which is how the number travels.
use crate::frame::{
    framed, lemma_unframed_framed, lemma_unframed_short, pack, unframed, unpack, DecodeError, END,
    START,
};
use vstd::arithmetic::div_mod::lemma_fundamental_div_mod_converse;
use vstd::prelude::*;

verus! {

/// A tag byte that the schema table does not list.
#[derive(Debug, Clone, Copy, PartialEq, Eq)]
pub struct UnknownCommand {
    command: u8,
}

impl UnknownCommand {
    /// The value that stands for the unlisted tag `command`.
    pub closed spec fn of(command: u8) -> Self {
        UnknownCommand { command }
    }

    /// The raw tag byte.
    pub closed spec fn tag(self) -> u8 {
        self.command
    }

    /// The tag byte of a value made from `command` is `command`.
    pub proof fn lemma_of(command: u8)
        ensures
            Self::of(command).tag() == command,
    {
    }

    /// Wraps a raw tag byte. No message made of it can be encoded, so it
    /// never reaches the wire.
    pub fn new(command: u8) -> (unknown: Self)
        ensures
            unknown == Self::of(command),
    {
        Self { command }
    }

    /// The raw tag byte as it came off the wire.
    pub fn command(&self) -> (tag: u8)
        ensures
            tag == self.tag(),
    {
        self.command
    }
}

/// One message of the protocol. Every variant but `Unknown` is a row of the
/// schema table: its tag and its fields in wire order. A field that holds a
/// physical quantity is the bit pattern of an `f32` (`f32::to_bits`,
/// `f32::from_bits`).
#[allow(inconsistent_fields)]
#[derive(Debug, Clone, Copy, PartialEq, Eq)]
pub enum Message {
    /// A frame whose tag the table does not list; it is never sent.
    Unknown(UnknownCommand),
    /// From the board: speed of the two wheels, as floats.
    WheelSpeed { left: u32, right: u32 },
    /// From the board: the three line sensors.
    LineSensor { left_line: u16, center_line: u16, right_line: u16 },
    /// From the board: the colour sensor.
    ColorSensor { red: u16, green: u16, blue: u16 },
    /// From the board: raw acceleration and rotation rate, as floats.
    Imu { ax: u32, ay: u32, az: u32, gx: u32, gy: u32, gz: u32 },
    /// From the board: charge of the battery, as a float.
    Battery { value: u32 },
    /// From the board: the three distance sensors.
    Distance { left_tof: u16, center_tof: u16, right_tof: u16 },
    /// From the board: the touch pads.
    Touch { value: u8 },
    /// From the board: tilt and shake.
    TiltShake { value: u8 },
    /// From the board: the behaviour that is set.
    Behaviour { value: u8 },
    /// From the board: the distance sensors' matrix.
    DistanceMatrix { matrix: [u8; 7] },
    /// From the board: fused orientation, as floats.
    ImuPosition { roll: u32, pitch: u32, yaw: u32 },
    /// From the board: position of the two wheels, as floats.
    WheelsPosition { left_wheel: u32, right_wheel: u32 },
    /// From the board: linear and angular velocity, as floats.
    Velocity { linear: u32, angular: u32 },
    /// From the board: acknowledgement with a code.
    AckU8 { ack: u8 },
    /// From the board: acknowledgement with a pose, as floats.
    AckF32 { x: u32, y: u32, theta: u32 },
    /// From the board: version of its firmware.
    FirmwareVersion { value: [u8; 3] },
    /// To the board: sets the indicator lights.
    SetLed { value: u8 },
}

/// Why a message could not be framed.
#[derive(Debug, Clone, Copy, PartialEq, Eq)]
pub enum EncodeError {
    /// The message is `Unknown`, which has no row in the schema table.
    UnknownCommand,
    /// The output buffer is shorter than the frame.
    BufferFull,
}

/// Tag `'j'`.
pub const WHEEL_SPEED: u8 = 0x6A;

/// Tag `'l'`.
pub const LINE_SENSOR: u8 = 0x6C;

/// Tag `'c'`.
pub const COLOR_SENSOR: u8 = 0x63;

/// Tag `'i'`.
pub const IMU: u8 = 0x69;

/// Tag `'p'`.
pub const BATTERY: u8 = 0x70;

/// Tag `'d'`.
pub const DISTANCE: u8 = 0x64;

/// Tag `'t'`.
pub const TOUCH: u8 = 0x74;

/// Tag `'n'`.
pub const TILT_SHAKE: u8 = 0x6E;

/// Tag `'b'`.
pub const BEHAVIOUR: u8 = 0x62;

/// Tag `'f'`.
pub const DISTANCE_MATRIX: u8 = 0x66;

/// Tag `'q'`.
pub const IMU_POSITION: u8 = 0x71;

/// Tag `'w'`.
pub const WHEELS_POSITION: u8 = 0x77;

/// Tag `'v'`.
pub const VELOCITY: u8 = 0x76;

/// Tag `'x'`.
pub const ACK_U8: u8 = 0x78;

/// Tag `'z'`.
pub const ACK_F32: u8 = 0x7A;

/// Tag `'~'`.
pub const FIRMWARE_VERSION: u8 = 0x7E;

/// Tag `'L'`.
pub const SET_LED: u8 = 0x4C;

/// The two bytes of `value`, low byte first.
pub open spec fn le16(value: u16) -> Seq<u8> {
    seq![(value % 256) as u8, (value / 256) as u8]
}

/// The four bytes of `value`, low byte first.
pub open spec fn le32(value: u32) -> Seq<u8> {
    seq![
        (value % 256) as u8,
        (value / 256 % 256) as u8,
        (value / 65536 % 256) as u8,
        (value / 16777216) as u8,
    ]
}

/// The number whose low byte is `bytes[at]` and whose high byte is `bytes[at + 1]`.
pub open spec fn u16_at(bytes: Seq<u8>, at: int) -> u16 {
    (bytes[at] as int + bytes[at + 1] as int * 256) as u16
}

/// The number that the four bytes from `bytes[at]` on hold, low byte first.
pub open spec fn u32_at(bytes: Seq<u8>, at: int) -> u32 {
    (bytes[at] as int + bytes[at + 1] as int * 256 + bytes[at + 2] as int * 65536 + bytes[at
        + 3] as int * 16777216) as u32
}

/// The three bytes from `bytes[at]` on.
pub open spec fn array3_at(bytes: Seq<u8>, at: int) -> [u8; 3] {
    [bytes[at], bytes[at + 1], bytes[at + 2]]
}

/// The seven bytes from `bytes[at]` on.
pub open spec fn array7_at(bytes: Seq<u8>, at: int) -> [u8; 7] {
    [
        bytes[at],
        bytes[at + 1],
        bytes[at + 2],
        bytes[at + 3],
        bytes[at + 4],
        bytes[at + 5],
        bytes[at + 6],
    ]
}

/// The schema table by size: how many bytes of fields follow the tag, for
/// each tag that the table lists.
pub open spec fn field_bytes(tag: u8) -> Option<int> {
    if tag == TOUCH || tag == TILT_SHAKE || tag == BEHAVIOUR || tag == ACK_U8 || tag == SET_LED {
        Some(1)
    } else if tag == FIRMWARE_VERSION {
        Some(3)
    } else if tag == BATTERY {
        Some(4)
    } else if tag == LINE_SENSOR || tag == COLOR_SENSOR || tag == DISTANCE {
        Some(6)
    } else if tag == DISTANCE_MATRIX {
        Some(7)
    } else if tag == WHEEL_SPEED || tag == WHEELS_POSITION || tag == VELOCITY {
        Some(8)
    } else if tag == IMU_POSITION || tag == ACK_F32 {
        Some(12)
    } else if tag == IMU {
        Some(24)
    } else {
        None
    }
}

/// The message that a payload holds: the variant that its tag byte names,
/// with the fields read from the bytes after it, or `Unknown` with the tag
/// where the table does not list it.
pub open spec fn parsed(payload: Seq<u8>) -> Message
    recommends
        payload.len() >= 1,
        field_bytes(payload[0]) matches Some(n) ==> payload.len() >= 1 + n,
{
    let tag = payload[0];
    if tag == WHEEL_SPEED {
        Message::WheelSpeed { left: u32_at(payload, 1), right: u32_at(payload, 5) }
    } else if tag == LINE_SENSOR {
        Message::LineSensor {
            left_line: u16_at(payload, 1),
            center_line: u16_at(payload, 3),
            right_line: u16_at(payload, 5),
        }
    } else if tag == COLOR_SENSOR {
        Message::ColorSensor {
            red: u16_at(payload, 1),
            green: u16_at(payload, 3),
            blue: u16_at(payload, 5),
        }
    } else if tag == IMU {
        Message::Imu {
            ax: u32_at(payload, 1),
            ay: u32_at(payload, 5),
            az: u32_at(payload, 9),
            gx: u32_at(payload, 13),
            gy: u32_at(payload, 17),
            gz: u32_at(payload, 21),
        }
    } else if tag == BATTERY {
        Message::Battery { value: u32_at(payload, 1) }
    } else if tag == DISTANCE {
        Message::Distance {
            left_tof: u16_at(payload, 1),
            center_tof: u16_at(payload, 3),
            right_tof: u16_at(payload, 5),
        }
    } else if tag == TOUCH {
        Message::Touch { value: payload[1] }
    } else if tag == TILT_SHAKE {
        Message::TiltShake { value: payload[1] }
    } else if tag == BEHAVIOUR {
        Message::Behaviour { value: payload[1] }
    } else if tag == DISTANCE_MATRIX {
        Message::DistanceMatrix { matrix: array7_at(payload, 1) }
    } else if tag == IMU_POSITION {
        Message::ImuPosition {
            roll: u32_at(payload, 1),
            pitch: u32_at(payload, 5),
            yaw: u32_at(payload, 9),
        }
    } else if tag == WHEELS_POSITION {
        Message::WheelsPosition { left_wheel: u32_at(payload, 1), right_wheel: u32_at(payload, 5) }
    } else if tag == VELOCITY {
        Message::Velocity { linear: u32_at(payload, 1), angular: u32_at(payload, 5) }
    } else if tag == ACK_U8 {
        Message::AckU8 { ack: payload[1] }
    } else if tag == ACK_F32 {
        Message::AckF32 { x: u32_at(payload, 1), y: u32_at(payload, 5), theta: u32_at(payload, 9) }
    } else if tag == FIRMWARE_VERSION {
        Message::FirmwareVersion { value: array3_at(payload, 1) }
    } else if tag == SET_LED {
        Message::SetLed { value: payload[1] }
    } else {
        Message::Unknown(UnknownCommand::of(tag))
    }
}

/// What decoding makes of a buffer that begins with a frame. The frame must
/// be whole, delimited and checksummed, and hold a tag. A tag that the table
/// does not list gives `Unknown`, whatever follows it; a listed tag gives its
/// variant where the payload holds all its fields, and `Truncated` otherwise.
/// Payload bytes after the fields are passed over.
pub open spec fn decoded(buffer: Seq<u8>) -> Result<Message, DecodeError> {
    match unframed(START, END, buffer, 1) {
        Err(fault) => Err(fault),
        Ok(head) => match field_bytes(head[0]) {
            None => Ok(parsed(head)),
            Some(n) => match unframed(START, END, buffer, 1 + n) {
                Err(fault) => Err(fault),
                Ok(payload) => Ok(parsed(payload)),
            },
        },
    }
}

impl Message {
    /// The tag byte of the message.
    pub open spec fn tag(self) -> u8 {
        match self {
            Message::Unknown(unknown) => unknown.tag(),
            Message::WheelSpeed { .. } => WHEEL_SPEED,
            Message::LineSensor { .. } => LINE_SENSOR,
            Message::ColorSensor { .. } => COLOR_SENSOR,
            Message::Imu { .. } => IMU,
            Message::Battery { .. } => BATTERY,
            Message::Distance { .. } => DISTANCE,
            Message::Touch { .. } => TOUCH,
            Message::TiltShake { .. } => TILT_SHAKE,
            Message::Behaviour { .. } => BEHAVIOUR,
            Message::DistanceMatrix { .. } => DISTANCE_MATRIX,
            Message::ImuPosition { .. } => IMU_POSITION,
            Message::WheelsPosition { .. } => WHEELS_POSITION,
            Message::Velocity { .. } => VELOCITY,
            Message::AckU8 { .. } => ACK_U8,
            Message::AckF32 { .. } => ACK_F32,
            Message::FirmwareVersion { .. } => FIRMWARE_VERSION,
            Message::SetLed { .. } => SET_LED,
        }
    }

    /// The bytes of the fields, in declaration order.
    pub open spec fn fields(self) -> Seq<u8> {
        match self {
            Message::Unknown(_) => Seq::empty(),
            Message::WheelSpeed { left, right } => le32(left) + le32(right),
            Message::LineSensor { left_line, center_line, right_line } => le16(left_line) + le16(
                center_line,
            ) + le16(right_line),
            Message::ColorSensor { red, green, blue } => le16(red) + le16(green) + le16(blue),
            Message::Imu { ax, ay, az, gx, gy, gz } => le32(ax) + le32(ay) + le32(az) + le32(gx)
                + le32(gy) + le32(gz),
            Message::Battery { value } => le32(value),
            Message::Distance { left_tof, center_tof, right_tof } => le16(left_tof) + le16(
                center_tof,
            ) + le16(right_tof),
            Message::Touch { value } => seq![value],
            Message::TiltShake { value } => seq![value],
            Message::Behaviour { value } => seq![value],
            Message::DistanceMatrix { matrix } => matrix@,
            Message::ImuPosition { roll, pitch, yaw } => le32(roll) + le32(pitch) + le32(yaw),
            Message::WheelsPosition { left_wheel, right_wheel } => le32(left_wheel) + le32(
                right_wheel,
            ),
            Message::Velocity { linear, angular } => le32(linear) + le32(angular),
            Message::AckU8 { ack } => seq![ack],
            Message::AckF32 { x, y, theta } => le32(x) + le32(y) + le32(theta),
            Message::FirmwareVersion { value } => value@,
            Message::SetLed { value } => seq![value],
        }
    }

    /// The payload: the tag, then the fields.
    pub open spec fn payload(self) -> Seq<u8> {
        seq![self.tag()] + self.fields()
    }

    /// The frame that carries the message.
    pub open spec fn frame(self) -> Seq<u8> {
        framed(START, END, self.payload())
    }
}

fn u16_bytes(value: u16) -> (bytes: [u8; 2])
    ensures
        bytes@ == le16(value),
{
    let bytes: [u8; 2] = [(value % 256) as u8, (value / 256) as u8];
    assert(bytes@ =~= le16(value));
    bytes
}

fn u32_bytes(value: u32) -> (bytes: [u8; 4])
    ensures
        bytes@ == le32(value),
{
    let bytes: [u8; 4] = [
        (value % 256) as u8,
        (value / 256 % 256) as u8,
        (value / 65536 % 256) as u8,
        (value / 16777216) as u8,
    ];
    assert(bytes@ =~= le32(value));
    bytes
}

fn read_u16<const K: usize>(bytes: &[u8; K], at: usize) -> (value: u16)
    requires
        at + 2 <= K,
    ensures
        value == u16_at(bytes@, at as int),
{
    bytes[at] as u16 + bytes[at + 1] as u16 * 256
}

fn read_u32<const K: usize>(bytes: &[u8; K], at: usize) -> (value: u32)
    requires
        at + 4 <= K,
    ensures
        value == u32_at(bytes@, at as int),
{
    bytes[at] as u32 + bytes[at + 1] as u32 * 256 + bytes[at + 2] as u32 * 65536 + bytes[at
        + 3] as u32 * 16777216
}

/// The payload of a tag and one byte.
fn payload_u8(tag: u8, a: u8) -> (payload: [u8; 2])
    ensures
        payload@ == seq![tag] + seq![a],
{
    let payload: [u8; 2] = [tag, a];
    assert(payload@ =~= seq![tag] + seq![a]);
    payload
}

/// The payload of a tag and three bytes.
fn payload_bytes3(tag: u8, a: &[u8; 3]) -> (payload: [u8; 4])
    ensures
        payload@ == seq![tag] + a@,
{
    let payload: [u8; 4] = [tag, a[0], a[1], a[2]];
    assert(payload@ =~= seq![tag] + a@);
    payload
}

/// The payload of a tag and seven bytes.
fn payload_bytes7(tag: u8, a: &[u8; 7]) -> (payload: [u8; 8])
    ensures
        payload@ == seq![tag] + a@,
{
    let payload: [u8; 8] = [tag, a[0], a[1], a[2], a[3], a[4], a[5], a[6]];
    assert(payload@ =~= seq![tag] + a@);
    payload
}

/// The payload of a tag and three `u16` fields.
fn payload_3u16(tag: u8, a: u16, b: u16, c: u16) -> (payload: [u8; 7])
    ensures
        payload@ == seq![tag] + (le16(a) + le16(b) + le16(c)),
{
    let a = u16_bytes(a);
    let b = u16_bytes(b);
    let c = u16_bytes(c);
    let payload: [u8; 7] = [tag, a[0], a[1], b[0], b[1], c[0], c[1]];
    assert(payload@ =~= seq![tag] + (a@ + b@ + c@));
    payload
}

/// The payload of a tag and one `u32` field.
fn payload_u32(tag: u8, a: u32) -> (payload: [u8; 5])
    ensures
        payload@ == seq![tag] + le32(a),
{
    let a = u32_bytes(a);
    let payload: [u8; 5] = [tag, a[0], a[1], a[2], a[3]];
    assert(payload@ =~= seq![tag] + a@);
    payload
}

/// The payload of a tag and two `u32` fields.
fn payload_2u32(tag: u8, a: u32, b: u32) -> (payload: [u8; 9])
    ensures
        payload@ == seq![tag] + (le32(a) + le32(b)),
{
    let a = u32_bytes(a);
    let b = u32_bytes(b);
    let payload: [u8; 9] = [tag, a[0], a[1], a[2], a[3], b[0], b[1], b[2], b[3]];
    assert(payload@ =~= seq![tag] + (a@ + b@));
    payload
}

/// The payload of a tag and three `u32` fields.
fn payload_3u32(tag: u8, a: u32, b: u32, c: u32) -> (payload: [u8; 13])
    ensures
        payload@ == seq![tag] + (le32(a) + le32(b) + le32(c)),
{
    let a = u32_bytes(a);
    let b = u32_bytes(b);
    let c = u32_bytes(c);
    let payload: [u8; 13] = [
        tag,
        a[0],
        a[1],
        a[2],
        a[3],
        b[0],
        b[1],
        b[2],
        b[3],
        c[0],
        c[1],
        c[2],
        c[3],
    ];
    assert(payload@ =~= seq![tag] + (a@ + b@ + c@));
    payload
}

/// The payload of a tag and six `u32` fields.
fn payload_6u32(tag: u8, a: u32, b: u32, c: u32, d: u32, e: u32, f: u32) -> (payload: [u8; 25])
    ensures
        payload@ == seq![tag] + (le32(a) + le32(b) + le32(c) + le32(d) + le32(e) + le32(f)),
{
    let a = u32_bytes(a);
    let b = u32_bytes(b);
    let c = u32_bytes(c);
    let d = u32_bytes(d);
    let e = u32_bytes(e);
    let f = u32_bytes(f);
    let payload: [u8; 25] = [
        tag,
        a[0],
        a[1],
        a[2],
        a[3],
        b[0],
        b[1],
        b[2],
        b[3],
        c[0],
        c[1],
        c[2],
        c[3],
        d[0],
        d[1],
        d[2],
        d[3],
        e[0],
        e[1],
        e[2],
        e[3],
        f[0],
        f[1],
        f[2],
        f[3],
    ];
    assert(payload@ =~= seq![tag] + (a@ + b@ + c@ + d@ + e@ + f@));
    payload
}

impl Message {
    /// Writes the frame of the message to the front of `out` and returns its
    /// length. An `Unknown` message is refused and `out` left as it was; where
    /// `out` is too short for the frame, nothing is promised of what it holds
    /// afterwards.
    pub fn encode(&self, out: &mut [u8]) -> (written: Result<usize, EncodeError>)
        ensures
            final(out)@.len() == old(out)@.len(),
            match written {
                Ok(n) => {
                    &&& !(self is Unknown)
                    &&& n == self.frame().len()
                    &&& n <= old(out)@.len()
                    &&& final(out)@ == self.frame() + old(out)@.subrange(
                        n as int,
                        old(out)@.len() as int,
                    )
                },
                Err(EncodeError::UnknownCommand) => self is Unknown && final(out)@ == old(out)@,
                Err(EncodeError::BufferFull) => !(self is Unknown) && old(out)@.len()
                    < self.frame().len(),
            },
    {
        let written = match self {
            Message::Unknown(_) => {
                return Err(EncodeError::UnknownCommand);
            },
            Message::WheelSpeed { left, right } => pack(
                START,
                END,
                &payload_2u32(WHEEL_SPEED, *left, *right),
                out,
            ),
            Message::LineSensor { left_line, center_line, right_line } => pack(
                START,
                END,
                &payload_3u16(LINE_SENSOR, *left_line, *center_line, *right_line),
                out,
            ),
            Message::ColorSensor { red, green, blue } => pack(
                START,
                END,
                &payload_3u16(COLOR_SENSOR, *red, *green, *blue),
                out,
            ),
            Message::Imu { ax, ay, az, gx, gy, gz } => pack(
                START,
                END,
                &payload_6u32(IMU, *ax, *ay, *az, *gx, *gy, *gz),
                out,
            ),
            Message::Battery { value } => pack(START, END, &payload_u32(BATTERY, *value), out),
            Message::Distance { left_tof, center_tof, right_tof } => pack(
                START,
                END,
                &payload_3u16(DISTANCE, *left_tof, *center_tof, *right_tof),
                out,
            ),
            Message::Touch { value } => pack(START, END, &payload_u8(TOUCH, *value), out),
            Message::TiltShake { value } => pack(START, END, &payload_u8(TILT_SHAKE, *value), out),
            Message::Behaviour { value } => pack(START, END, &payload_u8(BEHAVIOUR, *value), out),
            Message::DistanceMatrix { matrix } => pack(
                START,
                END,
                &payload_bytes7(DISTANCE_MATRIX, matrix),
                out,
            ),
            Message::ImuPosition { roll, pitch, yaw } => pack(
                START,
                END,
                &payload_3u32(IMU_POSITION, *roll, *pitch, *yaw),
                out,
            ),
            Message::WheelsPosition { left_wheel, right_wheel } => pack(
                START,
                END,
                &payload_2u32(WHEELS_POSITION, *left_wheel, *right_wheel),
                out,
            ),
            Message::Velocity { linear, angular } => pack(
                START,
                END,
                &payload_2u32(VELOCITY, *linear, *angular),
                out,
            ),
            Message::AckU8 { ack } => pack(START, END, &payload_u8(ACK_U8, *ack), out),
            Message::AckF32 { x, y, theta } => pack(
                START,
                END,
                &payload_3u32(ACK_F32, *x, *y, *theta),
                out,
            ),
            Message::FirmwareVersion { value } => pack(
                START,
                END,
                &payload_bytes3(FIRMWARE_VERSION, value),
                out,
            ),
            Message::SetLed { value } => pack(START, END, &payload_u8(SET_LED, *value), out),
        };
        match written {
            Some(n) => Ok(n),
            None => Err(EncodeError::BufferFull),
        }
    }

    /// Reads the message from a buffer that begins with its frame.
    pub fn decode(buffer: &[u8]) -> (message: Result<Message, DecodeError>)
        ensures
            message == decoded(buffer@),
    {
        let tag = match unpack::<1>(START, END, buffer) {
            Ok(head) => head[0],
            Err(fault) => {
                return Err(fault);
            },
        };
        proof {
            lemma_decoded_by_tag(buffer@);
        }
        if tag == WHEEL_SPEED {
            match unpack::<9>(START, END, buffer) {
                Ok(p) => Ok(Message::WheelSpeed { left: read_u32(&p, 1), right: read_u32(&p, 5) }),
                Err(fault) => Err(fault),
            }
        } else if tag == LINE_SENSOR {
            match unpack::<7>(START, END, buffer) {
                Ok(p) => Ok(
                    Message::LineSensor {
                        left_line: read_u16(&p, 1),
                        center_line: read_u16(&p, 3),
                        right_line: read_u16(&p, 5),
                    },
                ),
                Err(fault) => Err(fault),
            }
        } else if tag == COLOR_SENSOR {
            match unpack::<7>(START, END, buffer) {
                Ok(p) => Ok(
                    Message::ColorSensor {
                        red: read_u16(&p, 1),
                        green: read_u16(&p, 3),
                        blue: read_u16(&p, 5),
                    },
                ),
                Err(fault) => Err(fault),
            }
        } else if tag == IMU {
            match unpack::<25>(START, END, buffer) {
                Ok(p) => Ok(
                    Message::Imu {
                        ax: read_u32(&p, 1),
                        ay: read_u32(&p, 5),
                        az: read_u32(&p, 9),
                        gx: read_u32(&p, 13),
                        gy: read_u32(&p, 17),
                        gz: read_u32(&p, 21),
                    },
                ),
                Err(fault) => Err(fault),
            }
        } else if tag == BATTERY {
            match unpack::<5>(START, END, buffer) {
                Ok(p) => Ok(Message::Battery { value: read_u32(&p, 1) }),
                Err(fault) => Err(fault),
            }
        } else if tag == DISTANCE {
            match unpack::<7>(START, END, buffer) {
                Ok(p) => Ok(
                    Message::Distance {
                        left_tof: read_u16(&p, 1),
                        center_tof: read_u16(&p, 3),
                        right_tof: read_u16(&p, 5),
                    },
                ),
                Err(fault) => Err(fault),
            }
        } else if tag == TOUCH {
            match unpack::<2>(START, END, buffer) {
                Ok(p) => Ok(Message::Touch { value: p[1] }),
                Err(fault) => Err(fault),
            }
        } else if tag == TILT_SHAKE {
            match unpack::<2>(START, END, buffer) {
                Ok(p) => Ok(Message::TiltShake { value: p[1] }),
                Err(fault) => Err(fault),
            }
        } else if tag == BEHAVIOUR {
            match unpack::<2>(START, END, buffer) {
                Ok(p) => Ok(Message::Behaviour { value: p[1] }),
                Err(fault) => Err(fault),
            }
        } else if tag == DISTANCE_MATRIX {
            match unpack::<8>(START, END, buffer) {
                Ok(p) => {
                    let matrix: [u8; 7] = [p[1], p[2], p[3], p[4], p[5], p[6], p[7]];
                    assert(matrix =~= array7_at(p@, 1));
                    Ok(Message::DistanceMatrix { matrix })
                },
                Err(fault) => Err(fault),
            }
        } else if tag == IMU_POSITION {
            match unpack::<13>(START, END, buffer) {
                Ok(p) => Ok(
                    Message::ImuPosition {
                        roll: read_u32(&p, 1),
                        pitch: read_u32(&p, 5),
                        yaw: read_u32(&p, 9),
                    },
                ),
                Err(fault) => Err(fault),
            }
        } else if tag == WHEELS_POSITION {
            match unpack::<9>(START, END, buffer) {
                Ok(p) => Ok(
                    Message::WheelsPosition {
                        left_wheel: read_u32(&p, 1),
                        right_wheel: read_u32(&p, 5),
                    },
                ),
                Err(fault) => Err(fault),
            }
        } else if tag == VELOCITY {
            match unpack::<9>(START, END, buffer) {
                Ok(p) => Ok(Message::Velocity { linear: read_u32(&p, 1), angular: read_u32(&p, 5) }),
                Err(fault) => Err(fault),
            }
        } else if tag == ACK_U8 {
            match unpack::<2>(START, END, buffer) {
                Ok(p) => Ok(Message::AckU8 { ack: p[1] }),
                Err(fault) => Err(fault),
            }
        } else if tag == ACK_F32 {
            match unpack::<13>(START, END, buffer) {
                Ok(p) => Ok(
                    Message::AckF32 {
                        x: read_u32(&p, 1),
                        y: read_u32(&p, 5),
                        theta: read_u32(&p, 9),
                    },
                ),
                Err(fault) => Err(fault),
            }
        } else if tag == FIRMWARE_VERSION {
            match unpack::<4>(START, END, buffer) {
                Ok(p) => {
                    let value: [u8; 3] = [p[1], p[2], p[3]];
                    assert(value =~= array3_at(p@, 1));
                    Ok(Message::FirmwareVersion { value })
                },
                Err(fault) => Err(fault),
            }
        } else if tag == SET_LED {
            match unpack::<2>(START, END, buffer) {
                Ok(p) => Ok(Message::SetLed { value: p[1] }),
                Err(fault) => Err(fault),
            }
        } else {
            Ok(Message::Unknown(UnknownCommand::new(tag)))
        }
    }
}

/// Decoding goes by the first payload byte. Where the frame of a buffer is
/// sound and has a payload, that byte is the tag, every longer reading of the
/// payload begins with it, and what the buffer decodes to is decided by the
/// table's entry for it.
pub proof fn lemma_decoded_by_tag(buffer: Seq<u8>)
    requires
        unframed(START, END, buffer, 1) is Ok,
    ensures
        unframed(START, END, buffer, 1) == Ok::<Seq<u8>, DecodeError>(seq![buffer[2]]),
        forall|count: int|
            1 <= count ==> (#[trigger] unframed(START, END, buffer, count) matches Ok(payload)
                ==> payload.len() == count && payload[0] == buffer[2]),
        decoded(buffer) == match field_bytes(buffer[2]) {
            None => Ok::<Message, DecodeError>(Message::Unknown(UnknownCommand::of(buffer[2]))),
            Some(n) => match unframed(START, END, buffer, 1 + n) {
                Err(fault) => Err(fault),
                Ok(payload) => Ok(parsed(payload)),
            },
        },
{
    assert(buffer.subrange(2, 3) =~= seq![buffer[2]]);
}

/// Reading back the bytes that `le16` wrote gives the number, wherever the
/// two bytes stand in a longer sequence.
proof fn lemma_u16_at(bytes: Seq<u8>, at: int, value: u16)
    requires
        0 <= at,
        at + 2 <= bytes.len(),
        bytes.subrange(at, at + 2) == le16(value),
    ensures
        u16_at(bytes, at) == value,
{
    let part = bytes.subrange(at, at + 2);
    assert(bytes[at] == part[0]);
    assert(bytes[at + 1] == part[1]);
}

/// Reading back the bytes that `le32` wrote gives the number, wherever the
/// four bytes stand in a longer sequence.
proof fn lemma_u32_at(bytes: Seq<u8>, at: int, value: u32)
    requires
        0 <= at,
        at + 4 <= bytes.len(),
        bytes.subrange(at, at + 4) == le32(value),
    ensures
        u32_at(bytes, at) == value,
{
    let part = bytes.subrange(at, at + 4);
    assert(bytes[at] == part[0]);
    assert(bytes[at + 1] == part[1]);
    assert(bytes[at + 2] == part[2]);
    assert(bytes[at + 3] == part[3]);
}

/// Three `u16` fields behind a tag read back as they were written.
proof fn lemma_three_u16(tag: u8, a: u16, b: u16, c: u16)
    ensures
        ({
            let p = seq![tag] + (le16(a) + le16(b) + le16(c));
            p.len() == 7 && p[0] == tag && u16_at(p, 1) == a && u16_at(p, 3) == b && u16_at(p, 5)
                == c
        }),
{
    let p = seq![tag] + (le16(a) + le16(b) + le16(c));
    assert(p.subrange(1, 3) =~= le16(a));
    assert(p.subrange(3, 5) =~= le16(b));
    assert(p.subrange(5, 7) =~= le16(c));
    lemma_u16_at(p, 1, a);
    lemma_u16_at(p, 3, b);
    lemma_u16_at(p, 5, c);
}

/// One `u32` field behind a tag reads back as it was written.
proof fn lemma_one_u32(tag: u8, a: u32)
    ensures
        ({
            let p = seq![tag] + le32(a);
            p.len() == 5 && p[0] == tag && u32_at(p, 1) == a
        }),
{
    let p = seq![tag] + le32(a);
    assert(p.subrange(1, 5) =~= le32(a));
    lemma_u32_at(p, 1, a);
}

/// Two `u32` fields behind a tag read back as they were written.
proof fn lemma_two_u32(tag: u8, a: u32, b: u32)
    ensures
        ({
            let p = seq![tag] + (le32(a) + le32(b));
            p.len() == 9 && p[0] == tag && u32_at(p, 1) == a && u32_at(p, 5) == b
        }),
{
    let p = seq![tag] + (le32(a) + le32(b));
    assert(p.subrange(1, 5) =~= le32(a));
    assert(p.subrange(5, 9) =~= le32(b));
    lemma_u32_at(p, 1, a);
    lemma_u32_at(p, 5, b);
}

/// Three `u32` fields behind a tag read back as they were written.
proof fn lemma_three_u32(tag: u8, a: u32, b: u32, c: u32)
    ensures
        ({
            let p = seq![tag] + (le32(a) + le32(b) + le32(c));
            p.len() == 13 && p[0] == tag && u32_at(p, 1) == a && u32_at(p, 5) == b && u32_at(p, 9)
                == c
        }),
{
    let p = seq![tag] + (le32(a) + le32(b) + le32(c));
    assert(p.subrange(1, 5) =~= le32(a));
    assert(p.subrange(5, 9) =~= le32(b));
    assert(p.subrange(9, 13) =~= le32(c));
    lemma_u32_at(p, 1, a);
    lemma_u32_at(p, 5, b);
    lemma_u32_at(p, 9, c);
}

/// Six `u32` fields behind a tag read back as they were written.
proof fn lemma_six_u32(tag: u8, a: u32, b: u32, c: u32, d: u32, e: u32, f: u32)
    ensures
        ({
            let p = seq![tag] + (le32(a) + le32(b) + le32(c) + le32(d) + le32(e) + le32(f));
            &&& p.len() == 25
            &&& p[0] == tag
            &&& u32_at(p, 1) == a
            &&& u32_at(p, 5) == b
            &&& u32_at(p, 9) == c
            &&& u32_at(p, 13) == d
            &&& u32_at(p, 17) == e
            &&& u32_at(p, 21) == f
        }),
{
    let p = seq![tag] + (le32(a) + le32(b) + le32(c) + le32(d) + le32(e) + le32(f));
    assert(p.subrange(1, 5) =~= le32(a));
    assert(p.subrange(5, 9) =~= le32(b));
    assert(p.subrange(9, 13) =~= le32(c));
    assert(p.subrange(13, 17) =~= le32(d));
    assert(p.subrange(17, 21) =~= le32(e));
    assert(p.subrange(21, 25) =~= le32(f));
    lemma_u32_at(p, 1, a);
    lemma_u32_at(p, 5, b);
    lemma_u32_at(p, 9, c);
    lemma_u32_at(p, 13, d);
    lemma_u32_at(p, 17, e);
    lemma_u32_at(p, 21, f);
}

/// The payload of a message of the schema table is as long as the table says
/// for its tag, and parsing it gives the message back.
pub proof fn lemma_parsed_payload(message: Message)
    requires
        !(message is Unknown),
    ensures
        field_bytes(message.tag()) == Some(message.fields().len() as int),
        parsed(message.payload()) == message,
{
    let p = message.payload();
    match message {
        Message::Unknown(_) => {},
        Message::WheelSpeed { left, right } => {
            lemma_two_u32(WHEEL_SPEED, left, right);
        },
        Message::LineSensor { left_line, center_line, right_line } => {
            lemma_three_u16(LINE_SENSOR, left_line, center_line, right_line);
        },
        Message::ColorSensor { red, green, blue } => {
            lemma_three_u16(COLOR_SENSOR, red, green, blue);
        },
        Message::Imu { ax, ay, az, gx, gy, gz } => {
            lemma_six_u32(IMU, ax, ay, az, gx, gy, gz);
        },
        Message::Battery { value } => {
            lemma_one_u32(BATTERY, value);
        },
        Message::Distance { left_tof, center_tof, right_tof } => {
            lemma_three_u16(DISTANCE, left_tof, center_tof, right_tof);
        },
        Message::Touch { value } => {},
        Message::TiltShake { value } => {},
        Message::Behaviour { value } => {},
        Message::DistanceMatrix { matrix } => {
            assert(array7_at(p, 1) =~= matrix);
        },
        Message::ImuPosition { roll, pitch, yaw } => {
            lemma_three_u32(IMU_POSITION, roll, pitch, yaw);
        },
        Message::WheelsPosition { left_wheel, right_wheel } => {
            lemma_two_u32(WHEELS_POSITION, left_wheel, right_wheel);
        },
        Message::Velocity { linear, angular } => {
            lemma_two_u32(VELOCITY, linear, angular);
        },
        Message::AckU8 { ack } => {},
        Message::AckF32 { x, y, theta } => {
            lemma_three_u32(ACK_F32, x, y, theta);
        },
        Message::FirmwareVersion { value } => {
            assert(array3_at(p, 1) =~= value);
        },
        Message::SetLed { value } => {},
    }
}

/// Decoding undoes encoding. For every message of the schema table, with any
/// field values, a buffer that begins with the frame of the message decodes to
/// that message, whatever follows the frame.
pub proof fn lemma_decode_encode(message: Message, rest: Seq<u8>)
    requires
        !(message is Unknown),
    ensures
        decoded(message.frame() + rest) == Ok::<Message, DecodeError>(message),
{
    let payload = message.payload();
    lemma_parsed_payload(message);
    lemma_unframed_framed(START, END, payload, rest, 1);
    lemma_unframed_framed(START, END, payload, rest, payload.len() as int);
    assert(payload.subrange(0, payload.len() as int) =~= payload);
}

/// A tag outside the schema table is no error. A buffer that begins with the
/// frame of a payload of 1 to 255 bytes whose tag the table does not list
/// decodes to `Unknown` with that tag, whatever the payload holds after the
/// tag and whatever follows the frame.
pub proof fn lemma_decode_unknown(payload: Seq<u8>, rest: Seq<u8>)
    requires
        1 <= payload.len() <= 255,
        field_bytes(payload[0]) is None,
    ensures
        decoded(framed(START, END, payload) + rest) == Ok::<Message, DecodeError>(
            Message::Unknown(UnknownCommand::of(payload[0])),
        ),
{
    lemma_unframed_framed(START, END, payload, rest, 1);
}

/// A listed tag with too few bytes after it is an error. A buffer that begins
/// with the frame of a payload whose tag the table lists, and which is shorter
/// than the tag and its fields, decodes to `Truncated`.
pub proof fn lemma_decode_short(payload: Seq<u8>, rest: Seq<u8>)
    requires
        1 <= payload.len() <= 255,
        field_bytes(payload[0]) matches Some(n) && payload.len() < 1 + n,
    ensures
        decoded(framed(START, END, payload) + rest) == Err::<Message, DecodeError>(
            DecodeError::Truncated,
        ),
{
    lemma_unframed_framed(START, END, payload, rest, 1);
    lemma_unframed_short(START, END, payload, rest, 1 + field_bytes(payload[0]).unwrap());
}

/// Writing a number that was read from two bytes gives those bytes.
proof fn lemma_le16_at(bytes: Seq<u8>, at: int)
    requires
        0 <= at,
        at + 2 <= bytes.len(),
    ensures
        le16(u16_at(bytes, at)) == bytes.subrange(at, at + 2),
{
    let low = bytes[at] as int;
    let high = bytes[at + 1] as int;
    let value = u16_at(bytes, at);
    assert(value == high * 256 + low);
    lemma_fundamental_div_mod_converse(value as int, 256, high, low);
    assert(le16(value) =~= bytes.subrange(at, at + 2));
}

/// Writing a number that was read from four bytes gives those bytes.
proof fn lemma_le32_at(bytes: Seq<u8>, at: int)
    requires
        0 <= at,
        at + 4 <= bytes.len(),
    ensures
        le32(u32_at(bytes, at)) == bytes.subrange(at, at + 4),
{
    let b0 = bytes[at] as int;
    let b1 = bytes[at + 1] as int;
    let b2 = bytes[at + 2] as int;
    let b3 = bytes[at + 3] as int;
    let value = u32_at(bytes, at);
    assert(value == b0 + b1 * 256 + b2 * 65536 + b3 * 16777216);
    lemma_fundamental_div_mod_converse(value as int, 256, b1 + b2 * 256 + b3 * 65536, b0);
    lemma_fundamental_div_mod_converse(value as int / 256, 256, b2 + b3 * 256, b1);
    lemma_fundamental_div_mod_converse(value as int, 65536, b2 + b3 * 256, b0 + b1 * 256);
    lemma_fundamental_div_mod_converse(value as int / 65536, 256, b3, b2);
    lemma_fundamental_div_mod_converse(
        value as int,
        16777216,
        b3,
        b0 + b1 * 256 + b2 * 65536,
    );
    assert(le32(value) =~= bytes.subrange(at, at + 4));
}

/// Parsing loses nothing. The payload of the message that a payload parses to
/// is the tag and the field bytes that were parsed: for a listed tag the
/// payload up to the end of its fields, for an unlisted tag the tag alone.
pub proof fn lemma_payload_parsed(payload: Seq<u8>)
    requires
        payload.len() >= 1,
        field_bytes(payload[0]) matches Some(n) ==> payload.len() >= 1 + n,
    ensures
        parsed(payload).tag() == payload[0],
        parsed(payload) is Unknown <==> field_bytes(payload[0]) is None,
        parsed(payload).payload() == match field_bytes(payload[0]) {
            Some(n) => payload.subrange(0, 1 + n),
            None => payload.subrange(0, 1),
        },
{
    let tag = payload[0];
    let message = parsed(payload);
    UnknownCommand::lemma_of(tag);
    match field_bytes(tag) {
        None => {
            assert(message.payload() =~= payload.subrange(0, 1));
        },
        Some(n) => {
            if n == 6 {
                lemma_le16_at(payload, 1);
                lemma_le16_at(payload, 3);
                lemma_le16_at(payload, 5);
            } else if n == 4 || n == 8 || n == 12 {
                lemma_le32_at(payload, 1);
                if n >= 8 {
                    lemma_le32_at(payload, 5);
                }
                if n >= 12 {
                    lemma_le32_at(payload, 9);
                }
            } else if n == 24 {
                lemma_le32_at(payload, 1);
                lemma_le32_at(payload, 5);
                lemma_le32_at(payload, 9);
                lemma_le32_at(payload, 13);
                lemma_le32_at(payload, 17);
                lemma_le32_at(payload, 21);
            }
            assert(message.payload() =~= payload.subrange(0, 1 + n));
        },
    }
}

/// Decoding makes nothing up. A message that a buffer decodes to has the tag
/// byte of the frame as its tag, is `Unknown` exactly where the table does not
/// list that byte, and has as its payload the bytes that the frame's payload
/// begins with: encoding it again gives those bytes back.
pub proof fn lemma_encode_decode(buffer: Seq<u8>)
    requires
        decoded(buffer) is Ok,
    ensures
        ({
            let message = decoded(buffer).unwrap();
            &&& message.tag() == buffer[2]
            &&& message is Unknown <==> field_bytes(buffer[2]) is None
            &&& 2 + message.payload().len() <= buffer.len()
            &&& message.payload() == buffer.subrange(2, 2 + message.payload().len() as int)
        }),
{
    lemma_decoded_by_tag(buffer);
    match field_bytes(buffer[2]) {
        None => {
            lemma_payload_parsed(seq![buffer[2]]);
            assert(seq![buffer[2]].subrange(0, 1) =~= buffer.subrange(2, 3));
        },
        Some(n) => {
            let payload = unframed(START, END, buffer, 1 + n).unwrap();
            lemma_payload_parsed(payload);
            assert(payload.subrange(0, 1 + n) =~= buffer.subrange(2, 3 + n));
        },
    }
}

} // verus!
