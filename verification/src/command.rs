//! Messages to the MCU.
use vstd::prelude::*;

use crate::bytes::u32_to_le;
use crate::frame::encode_frame;

verus! {

// Message type ids (to MCU).
/// `<flag, linear, rotational>`
pub const TX_MOTOR_CTRL: u8 = 0x00;

/// Six actuator-level bytes.
pub const TX_SET_CLEANING: u8 = 0x01;

/// Button LED state; also a heartbeat.
pub const TX_SET_LED: u8 = 0x02;

/// The payload of a MotorCtrl message: the flag, then both speeds low byte first.
pub open spec fn motor_payload(flag: u8, linear: u32, rotational: u32) -> Seq<u8> {
    seq![flag] + crate::bytes::le_bytes(linear) + crate::bytes::le_bytes(rotational)
}

/// What an encoder leaves in `out` and returns for a message.
pub open spec fn encodes(
    typ: u8,
    payload: Seq<u8>,
    before: Seq<u8>,
    after: Seq<u8>,
    r: Option<usize>,
) -> bool {
    let frame = crate::frame::frame_wire(typ, payload);
    &&& after == crate::frame::overwrite(before, frame)
    &&& r == (if frame.len() <= before.len() {
        Some(frame.len() as usize)
    } else {
        None
    })
}

/// The payload of a MotorCtrl message. `linear` is in mm/s and `rotational` in rad/s (negative
/// is clockwise), each as the bit pattern of a binary32 value.
pub fn motor_ctrl_payload(flag: u8, linear: u32, rotational: u32) -> (p: [u8; 9])
    ensures
        p@ == motor_payload(flag, linear, rotational),
{
    let l: [u8; 4] = u32_to_le(linear);
    let r: [u8; 4] = u32_to_le(rotational);
    let p: [u8; 9] = [flag, l[0], l[1], l[2], l[3], r[0], r[1], r[2], r[3]];
    assert(p@ =~= seq![flag] + l@ + r@);
    p
}

/// `0x00` MotorCtrl: `linear` is in mm/s and `rotational` in rad/s (negative is clockwise),
/// each as the bit pattern of a binary32 value.
pub fn encode_motor_ctrl(flag: u8, linear: u32, rotational: u32, out: &mut [u8]) -> (r: Option<
    usize,
>)
    ensures
        encodes(
            TX_MOTOR_CTRL,
            motor_payload(flag, linear, rotational),
            old(out)@,
            final(out)@,
            r,
        ),
{
    let p: [u8; 9] = motor_ctrl_payload(flag, linear, rotational);
    encode_frame(TX_MOTOR_CTRL, &p, out)
}

/// `0x01` SetCleaning: side brush, main brush, fan and mop levels, then the mode (3 vacuum,
/// 0 mop, 1 nav) and a zero.
pub fn encode_set_cleaning(f: [u8; 6], out: &mut [u8]) -> (r: Option<usize>)
    ensures
        encodes(TX_SET_CLEANING, f@, old(out)@, final(out)@, r),
{
    encode_frame(TX_SET_CLEANING, &f, out)
}

/// `0x02` SetButtonLED: LED state; also serves as the MCU heartbeat.
pub fn encode_set_led(state: u8, out: &mut [u8]) -> (r: Option<usize>)
    ensures
        encodes(TX_SET_LED, seq![state], old(out)@, final(out)@, r),
{
    let p: [u8; 1] = [state];
    assert(p@ =~= seq![state]);
    encode_frame(TX_SET_LED, &p, out)
}

/// Longest packet that is sent.
pub const MAX_PACKET: usize = 64;

/// The bytes that are sent for a message, or none where they would be too many.
pub open spec fn packet_of(typ: u8, payload: Seq<u8>) -> Option<Seq<u8>> {
    if payload.len() <= 255 && crate::frame::frame_wire(typ, payload).len() <= MAX_PACKET {
        Some(crate::frame::frame_wire(typ, payload))
    } else {
        None
    }
}

/// The packet that sends a message. `None` where it is longer than `MAX_PACKET`, and the
/// message is then not sent.
pub fn packet(typ: u8, payload: &[u8]) -> (r: Option<Vec<u8>>)
    ensures
        (match r {
            Some(bytes) => Some(bytes@),
            None => None,
        }) == packet_of(typ, payload@),
{
    let mut buf: [u8; MAX_PACKET] = [0u8; MAX_PACKET];
    match encode_frame(typ, payload, &mut buf) {
        Some(n) => {
            assert(buf@.subrange(0, n as int) =~= crate::frame::frame_wire(typ, payload@));
            Some(vstd::slice::slice_to_vec(&buf[0..n]))
        },
        None => None,
    }
}

/// A message with at most 27 payload bytes is always sent.
pub proof fn law_short_message_is_sent(typ: u8, payload: Seq<u8>)
    requires
        payload.len() <= 27,
    ensures
        packet_of(typ, payload) == Some(crate::frame::frame_wire(typ, payload)),
{
    crate::frame::law_packet_length(typ, payload);
}

/// The speeds of a MotorCtrl message can be read back from its payload.
pub proof fn law_motor_payload_carries_the_speeds(flag: u8, linear: u32, rotational: u32)
    ensures
        motor_payload(flag, linear, rotational).len() == 9,
        motor_payload(flag, linear, rotational)[0] == flag,
        crate::bytes::u32_at(motor_payload(flag, linear, rotational), 1) == linear,
        crate::bytes::u32_at(motor_payload(flag, linear, rotational), 5) == rotational,
{
    let p = motor_payload(flag, linear, rotational);
    crate::bytes::law_le_bytes_read_back(linear);
    crate::bytes::law_le_bytes_read_back(rotational);
    assert(p.subrange(1, 5) =~= crate::bytes::le_bytes(linear));
    assert(p.subrange(5, 9) =~= crate::bytes::le_bytes(rotational));
}

/// A MotorCtrl payload is the flag, then the bytes of the linear and of the rotational speed,
/// each low byte first.
pub proof fn law_motor_payload_layout(flag: u8, linear: u32, rotational: u32)
    ensures
        ({
            let p = motor_payload(flag, linear, rotational);
            &&& p.len() == 9
            &&& p[0] == flag
            &&& p[1] + 256 * p[2] + 65536 * p[3] + 16777216 * p[4] == linear
            &&& p[5] + 256 * p[6] + 65536 * p[7] + 16777216 * p[8] == rotational
        }),
{
    crate::bytes::law_numbers_stand_low_byte_first(Seq::empty(), 0, linear);
    crate::bytes::law_numbers_stand_low_byte_first(Seq::empty(), 0, rotational);
}

/// A message is sent as its packet if that has at most 64 bytes, and else not at all.
pub proof fn law_packet_is_sent_whole_or_not(typ: u8, payload: Seq<u8>)
    requires
        payload.len() <= 255,
    ensures
        packet_of(typ, payload) is Some <==> crate::frame::frame_wire(typ, payload).len() <= 64,
        packet_of(typ, payload) matches Some(bytes) ==> bytes == crate::frame::frame_wire(
            typ,
            payload,
        ),
{
}

/// The encoders put their own type and payload on the wire: `00` with the flag and both speeds,
/// `01` with the six levels, `02` with the LED state. A packet is the frame of its message, where
/// that has at most 64 bytes.
pub proof fn law_encoders_send_their_message(
    flag: u8,
    linear: u32,
    rot: u32,
    levels: [u8; 6],
    state: u8,
)
    ensures
        forall|out: &mut [u8], r: Option<usize>| #[trigger]
            call_ensures(encode_motor_ctrl, (flag, linear, rot, out), r) ==> (r matches Some(n)
                ==> n <= out@.len() && final(out)@.take(n as int) == crate::frame::frame_wire(
                0x00,
                motor_payload(flag, linear, rot),
            )),
        forall|out: &mut [u8], r: Option<usize>| #[trigger]
            call_ensures(encode_set_cleaning, (levels, out), r) ==> (r matches Some(n) ==> n
                <= out@.len() && final(out)@.take(n as int) == crate::frame::frame_wire(
                0x01,
                levels@,
            )),
        forall|out: &mut [u8], r: Option<usize>| #[trigger]
            call_ensures(encode_set_led, (state, out), r) ==> (r matches Some(n) ==> n <= out@.len()
                && final(out)@.take(n as int) == crate::frame::frame_wire(0x02, seq![state])),
        forall|out: &mut [u8], r: Option<usize>| #[trigger]
            call_ensures(encode_motor_ctrl, (flag, linear, rot, out), r) ==> (r is Some
                <==> crate::frame::frame_wire(0x00, motor_payload(flag, linear, rot)).len()
                <= out@.len()),
        forall|out: &mut [u8], r: Option<usize>| #[trigger]
            call_ensures(encode_set_cleaning, (levels, out), r) ==> (r is Some
                <==> crate::frame::frame_wire(0x01, levels@).len() <= out@.len()),
        forall|out: &mut [u8], r: Option<usize>| #[trigger]
            call_ensures(encode_set_led, (state, out), r) ==> (r is Some
                <==> crate::frame::frame_wire(0x02, seq![state]).len() <= out@.len()),
        forall|p: [u8; 9]| #[trigger]
            call_ensures(motor_ctrl_payload, (flag, linear, rot), p) ==> p@ == motor_payload(
                flag,
                linear,
                rot,
            ),
{
    crate::frame::law_packet_length(0x00, motor_payload(flag, linear, rot));
    crate::frame::law_packet_length(0x01, levels@);
    crate::frame::law_packet_length(0x02, seq![state]);
    assert forall|before: Seq<u8>, frame: Seq<u8>| frame.len() <= before.len() implies (
    #[trigger] crate::frame::overwrite(before, frame)).take(frame.len() as int) == frame by {
        assert(crate::frame::overwrite(before, frame).take(frame.len() as int) =~= frame);
    }
}

/// A packet is the frame of its message, where the payload has at most 255 bytes and the frame at
/// most 64, and there is none else.
pub proof fn law_packet_is_the_frame(typ: u8, payload: &[u8], r: Option<Vec<u8>>)
    requires
        call_ensures(packet, (typ, payload), r),
    ensures
        r is Some <==> payload@.len() <= 255 && crate::frame::frame_wire(typ, payload@).len() <= 64,
        r matches Some(bytes) ==> bytes@ == crate::frame::frame_wire(typ, payload@),
{
}

} // verus!
