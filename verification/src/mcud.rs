//! A minimal driver of the MCU for teleoperation and probing: it keeps the protocol alive,
//! drives as a text client says, and stops at any hazard.
use vstd::prelude::*;

use crate::binary32::{clampf, finite, is_zero};
use crate::control::{parse_control, Control};
use crate::command::{motor_ctrl_payload, TX_MOTOR_CTRL, TX_SET_CLEANING, TX_SET_LED};
use crate::driver::{
    send, TxFrame, MAX_LINEAR, MAX_ROT, MIN_LINEAR, MIN_ROT, TX_CAMERA, TX_DOCK, TX_REGISTER,
    WATCHDOG_MS,
};
use crate::frame::{parse_body, FrameScanner};
use crate::message::{T_PING, T_TRIGGERS};

verus! {

/// State of the minimal driver.
#[derive(Debug, Clone, Copy, PartialEq, Eq)]
pub struct Mcud {
    /// A client is driving.
    pub enabled: bool,
    pub linear_bits: u32,
    pub rot_bits: u32,
    /// When the last drive command came.
    pub last_cmd_ms: u64,
    /// A bumper, a lift or a cliff sensor is set.
    pub hazard: bool,
    /// The periodic frames carry the values that keep the turret spinning.
    pub lidar_on: bool,
    /// MotorCtrl messages sent (diagnostic).
    pub overrides: u64,
    /// Pings answered (diagnostic).
    pub pongs: u64,
    pub tick: u64,
}

// ---------------------------------------------------------------------------------------
// Commands
// ---------------------------------------------------------------------------------------
impl Mcud {
    pub fn new() -> (m: Self)
        ensures
            m == (Mcud {
                enabled: false,
                linear_bits: 0,
                rot_bits: 0,
                last_cmd_ms: 0,
                hazard: false,
                lidar_on: false,
                overrides: 0,
                pongs: 0,
                tick: 0,
            }),
    {
        Mcud {
            enabled: false,
            linear_bits: 0,
            rot_bits: 0,
            last_cmd_ms: 0,
            hazard: false,
            lidar_on: false,
            overrides: 0,
            pongs: 0,
            tick: 0,
        }
    }

    /// Stop driving: on request, or because the client is gone.
    pub fn stop(&mut self)
        ensures
            *final(self) == (Mcud { enabled: false, ..*old(self) }),
    {
        self.enabled = false;
    }

    pub fn set_lidar(&mut self, on: bool)
        ensures
            *final(self) == (Mcud { lidar_on: on, ..*old(self) }),
    {
        self.lidar_on = on;
    }

    /// Drive, where both speeds could be read and are finite.
    pub fn set_drive(&mut self, linear: Option<u32>, rot: Option<u32>, now_ms: u64)
        ensures
            *final(self) == (match (linear, rot) {
                (Some(l), Some(r)) => if crate::binary32::is_finite(l)
                    && crate::binary32::is_finite(r) {
                    Mcud {
                        linear_bits: l,
                        rot_bits: r,
                        last_cmd_ms: now_ms,
                        enabled: true,
                        ..*old(self)
                    }
                } else {
                    *old(self)
                },
                _ => *old(self),
            }),
    {
        if let (Some(l), Some(r)) = (linear, rot) {
            if finite(l) && finite(r) {
                self.linear_bits = l;
                self.rot_bits = r;
                self.last_cmd_ms = now_ms;
                self.enabled = true;
            }
        }
    }
}

impl Mcud {
    /// After what a line asks for, as far as this state alone is concerned.
    pub open spec fn told(self, c: crate::control::ControlView) -> Mcud {
        match c {
            crate::control::ControlView::Stop => Mcud { enabled: false, ..self },
            crate::control::ControlView::Lidar(on) => Mcud { lidar_on: on, ..self },
            _ => self,
        }
    }

    /// Take in a line from the client. What it asks for is given back: a message is yet to be
    /// sent, and speeds are yet to be read as numbers and set.
    pub fn control(&mut self, line: &str) -> (c: Control)
        ensures
            c@ == crate::control::command_of(crate::control::words(line@)),
            *final(self) == old(self).told(c@),
    {
        let c: Control = parse_control(line);
        match &c {
            Control::Stop => {
                self.stop();
            },
            Control::Lidar(on) => {
                self.set_lidar(*on);
            },
            _ => {},
        }
        c
    }
}

// ---------------------------------------------------------------------------------------
// Receiving
// ---------------------------------------------------------------------------------------
impl Mcud {
    /// After a message from the MCU.
    pub open spec fn after(self, typ: u8, p: Seq<u8>) -> Mcud {
        if typ == T_PING && p.len() >= 4 {
            Mcud { pongs: self.pongs.wrapping_add(1), ..self }
        } else if typ == T_TRIGGERS && p.len() >= 2 {
            // the upper half of the first byte: bumpers and lifts
            Mcud { hazard: p[0] >= 0x10 || p[1] != 0, ..self }
        } else {
            self
        }
    }

    /// After the message in `body`; a body that cannot be parsed is ignored.
    pub open spec fn after_body(self, body: Seq<u8>) -> Mcud {
        match crate::frame::parsed_body(body) {
            Ok((typ, p)) => self.after(typ, p),
            Err(_) => self,
        }
    }

    /// After all of `bodies`.
    pub open spec fn after_all(self, bodies: Seq<Seq<u8>>) -> Mcud
        decreases bodies.len(),
    {
        if bodies.len() == 0 {
            self
        } else {
            self.after_all(bodies.drop_last()).after_body(bodies.last())
        }
    }
}

/// The pings among `bodies`, by their first four bytes.
pub open spec fn pings(bodies: Seq<Seq<u8>>) -> Seq<Seq<u8>>
    decreases bodies.len(),
{
    if bodies.len() == 0 {
        Seq::empty()
    } else {
        let front = pings(bodies.drop_last());
        match crate::frame::parsed_body(bodies.last()) {
            Ok((typ, p)) => if typ == T_PING && p.len() >= 4 {
                front.push(p.take(4))
            } else {
                front
            },
            Err(_) => front,
        }
    }
}

/// Answers by their bytes.
pub open spec fn answers(pongs: Seq<[u8; 4]>) -> Seq<Seq<u8>> {
    pongs.map_values(|p: [u8; 4]| p@)
}

/// Receives the MCU's stream for the minimal driver.
pub struct McudReceiver {
    pub scanner: FrameScanner,
}

impl McudReceiver {
    pub fn new() -> (r: Self)
        ensures
            r.scanner.wf(),
            r.scanner@ == crate::frame::ScanState::Idle,
    {
        McudReceiver { scanner: FrameScanner::new() }
    }

    /// Take in the next bytes of the stream: the pings to answer, by their first four bytes.
    pub fn receive(&mut self, bytes: &[u8], st: &mut Mcud) -> (pongs: Vec<[u8; 4]>)
        requires
            old(self).scanner.wf(),
        ensures
            final(self).scanner.wf(),
            final(self).scanner@ == crate::frame::scan_all(old(self).scanner@, bytes@),
            *final(st) == old(st).after_all(
                crate::frame::bodies_in(old(self).scanner@, bytes@),
            ),
            answers(pongs@) == pings(crate::frame::bodies_in(old(self).scanner@, bytes@)),
    {
        let mut pongs: Vec<[u8; 4]> = Vec::new();
        let ghost start = self.scanner@;
        let ghost before = *st;
        assert(bytes@.take(0) =~= Seq::<u8>::empty());
        assert(answers(pongs@) =~= Seq::<Seq<u8>>::empty());
        for i in 0..bytes.len()
            invariant
                start == old(self).scanner@,
                before == *old(st),
                self.scanner.wf(),
                self.scanner@ == crate::frame::scan_all(start, bytes@.take(i as int)),
                *st == before.after_all(
                    crate::frame::bodies_in(start, bytes@.take(i as int)),
                ),
                answers(pongs@) == pings(
                    crate::frame::bodies_in(start, bytes@.take(i as int)),
                ),
        {
            let b: u8 = bytes[i];
            let ghost bodies = crate::frame::bodies_in(start, bytes@.take(i as int));
            proof {
                assert(bytes@.take(i + 1) =~= bytes@.take(i as int).push(b));
                crate::frame::lemma_scan_one_more(start, bytes@.take(i as int), b);
            }
            if let Some(body) = self.scanner.push(b) {
                assert(bodies.push(body@).drop_last() =~= bodies);
                if let Ok((typ, payload)) = parse_body(body) {
                    if typ == T_PING && payload.len() >= 4 {
                        let pong: [u8; 4] = [payload[0], payload[1], payload[2], payload[3]];
                        let ghost so_far = answers(pongs@);
                        pongs.push(pong);
                        st.pongs = st.pongs.wrapping_add(1);
                        assert(pong@ =~= payload@.take(4));
                        assert(answers(pongs@) =~= so_far.push(payload@.take(4)));
                    } else if typ == T_TRIGGERS && payload.len() >= 2 {
                        let a: u8 = payload[0];
                        assert((a & 0xF0 != 0) == (a >= 0x10)) by (bit_vector);
                        st.hazard = (a & 0xF0) != 0 || payload[1] != 0;
                    }
                }
            }
        }
        assert(bytes@.take(bytes@.len() as int) =~= bytes@);
        pongs
    }
}

// ---------------------------------------------------------------------------------------
// Sending
// ---------------------------------------------------------------------------------------
impl Mcud {
    /// The speeds (linear, rotational) to send: the command while it is fresh, within the
    /// limits, and no linear speed at a hazard.
    pub open spec fn motion(self, now_ms: u64) -> (u32, u32) {
        if self.enabled && now_ms.wrapping_sub(self.last_cmd_ms) < WATCHDOG_MS {
            let linear = crate::binary32::clamped(self.linear_bits, MIN_LINEAR, MAX_LINEAR);
            (
                if self.hazard && crate::binary32::magnitude(linear) != 0 {
                    0
                } else {
                    linear
                },
                crate::binary32::clamped(self.rot_bits, MIN_ROT, MAX_ROT),
            )
        } else {
            (0, 0)
        }
    }

    /// What is sent at this tick, in order.
    pub open spec fn frames(self, now_ms: u64) -> Seq<(u8, Seq<u8>)> {
        let (linear, rot) = self.motion(now_ms);
        crate::driver::due(true, TX_MOTOR_CTRL, crate::command::motor_payload(1, linear, rot))
            + crate::driver::due(self.tick % 25 == 5, TX_SET_LED, seq![0x21u8])
            + crate::driver::due(
            self.tick % 50 == 10,
            TX_SET_CLEANING,
            seq![0u8, 1, 0, 0, 0, 0],
        ) + crate::driver::due(
            self.tick % 50 == 20,
            TX_REGISTER,
            seq![
                4u8,
                if self.lidar_on {
                    1u8
                } else {
                    0u8
                },
            ],
        ) + crate::driver::due(
            self.tick % 50 == 30,
            TX_DOCK,
            crate::driver::nav_payload(self.lidar_on),
        ) + crate::driver::due(
            self.lidar_on && self.tick % 200 == 40,
            TX_CAMERA,
            seq![5u8, 1u8],
        )
    }

    fn speeds(&self, now_ms: u64) -> (r: (u32, u32))
        ensures
            r == self.motion(now_ms),
    {
        let fresh: bool = now_ms.wrapping_sub(self.last_cmd_ms) < WATCHDOG_MS;
        if !self.enabled || !fresh {
            return (0, 0);
        }
        let mut lin: u32 = clampf(self.linear_bits, MIN_LINEAR, MAX_LINEAR);
        let rot: u32 = clampf(self.rot_bits, MIN_ROT, MAX_ROT);
        if self.hazard && !is_zero(lin) {
            lin = 0;  // never drive into a detected cliff or bump
        }
        (lin, rot)
    }

    /// One tick: the messages to send, in order.
    pub fn tick(&mut self, now_ms: u64) -> (out: Vec<TxFrame>)
        ensures
            crate::driver::sent(out@) == old(self).frames(now_ms),
            *final(self) == (Mcud {
                overrides: old(self).overrides.wrapping_add(1),
                tick: old(self).tick.wrapping_add(1),
                ..*old(self)
            }),
    {
        let mut out: Vec<TxFrame> = Vec::new();
        assert(crate::driver::sent(out@) =~= Seq::<(u8, Seq<u8>)>::empty());
        let (lin, rot): (u32, u32) = self.speeds(now_ms);
        send(&mut out, TX_MOTOR_CTRL, vstd::slice::slice_to_vec(&motor_ctrl_payload(1, lin, rot)));
        self.overrides = self.overrides.wrapping_add(1);
        let lidar: bool = self.lidar_on;
        let tick: u64 = self.tick;
        if tick % 25 == 5 {
            send(&mut out, TX_SET_LED, vec![0x21]);
        }
        if tick % 50 == 10 {
            send(&mut out, TX_SET_CLEANING, vec![0, 1, 0, 0, 0, 0]);
        }
        if tick % 50 == 20 {
            let v: u8 = if lidar {
                1
            } else {
                0
            };
            send(&mut out, TX_REGISTER, vec![0x04, v]);
        }
        if tick % 50 == 30 {
            let screen: u8 = if lidar {
                0x14
            } else {
                0x64
            };
            send(&mut out, TX_DOCK, vec![screen, 0, 0, 0, 0, 0, 0, 4]);
        }
        if lidar && tick % 200 == 40 {
            send(&mut out, TX_CAMERA, vec![0x05, 0x01]);
        }
        self.tick = tick.wrapping_add(1);
        assert(crate::driver::sent(out@) =~~= old(self).frames(now_ms));
        out
    }
}

// ---------------------------------------------------------------------------------------
// What holds of every state
// ---------------------------------------------------------------------------------------
/// At a hazard the robot is sent neither forward nor backward.
pub proof fn law_no_linear_speed_at_a_hazard(m: Mcud, now_ms: u64)
    requires
        m.hazard,
    ensures
        crate::binary32::magnitude(m.motion(now_ms).0) == 0,
{
}

/// The speeds that are sent are numbers within the limits, whatever was commanded.
pub proof fn law_speeds_are_limited(m: Mcud, now_ms: u64)
    ensures
        ({
            let (linear, rot) = m.motion(now_ms);
            &&& !crate::binary32::less(linear, MIN_LINEAR)
            &&& !crate::binary32::less(MAX_LINEAR, linear)
            &&& !crate::binary32::less(rot, MIN_ROT)
            &&& !crate::binary32::less(MAX_ROT, rot)
            &&& crate::binary32::is_finite(linear)
            &&& crate::binary32::is_finite(rot)
        }),
{
}

/// Without a client, or without a command in the last `WATCHDOG_MS`, the motors are off.
pub proof fn law_stale_or_released_stops(m: Mcud, now_ms: u64)
    requires
        !m.enabled || now_ms - m.last_cmd_ms >= WATCHDOG_MS,
    ensures
        m.frames(now_ms)[0] == (TX_MOTOR_CTRL, crate::command::motor_payload(1, 0, 0)),
{
}

/// A ping on the wire is answered with its first four bytes, and counted.
pub proof fn law_ping_is_answered(m: Mcud, s: crate::frame::ScanState, p: Seq<u8>)
    requires
        4 <= p.len() <= 255,
        s !is Escaped,
    ensures
        pings(crate::frame::bodies_in(s, crate::frame::frame_wire(T_PING, p))) == seq![p.take(4)],
        m.after_all(crate::frame::bodies_in(s, crate::frame::frame_wire(T_PING, p))).pongs
            == m.pongs.wrapping_add(1),
{
    crate::frame::law_message_survives_the_wire(s, T_PING, p);
    let bodies = seq![crate::frame::body_of(T_PING, p)];
    assert(bodies.drop_last() =~= Seq::<Seq<u8>>::empty());
    assert(m.after_all(bodies.drop_last()) == m);
    assert(pings(bodies.drop_last()) =~= Seq::<Seq<u8>>::empty());
    assert(pings(bodies) =~= seq![p.take(4)]);
}

/// Every message of a tick is short enough to be sent.
pub proof fn law_every_message_is_sent(m: Mcud, now_ms: u64, i: int)
    requires
        0 <= i < m.frames(now_ms).len(),
    ensures
        ({
            let (typ, p) = m.frames(now_ms)[i];
            crate::command::packet_of(typ, p) == Some(crate::frame::frame_wire(typ, p))
        }),
{
    let (typ, p) = m.frames(now_ms)[i];
    assert(p.len() <= 9);
    crate::command::law_short_message_is_sent(typ, p);
}

/// After a trigger message with at least two bytes the hazard is set exactly where one of the
/// trigger bits 4 to 15 is, each of them alone: bits 4 to 7 are the upper four binary digits of
/// the first byte, bits 8 to 15 the digits of the second. Nothing else of the state changes.
pub proof fn law_any_bit_from_4_to_15_is_a_hazard(m: Mcud, p: Seq<u8>)
    requires
        p.len() >= 2,
    ensures
        ({
            let a = p[0] as int;
            let c = p[1] as int;
            let after = m.after(0x00, p);
            &&& after.hazard <==> a / 16 % 2 == 1 || a / 32 % 2 == 1 || a / 64 % 2 == 1 || a / 128
                % 2 == 1 || c % 2 == 1 || c / 2 % 2 == 1 || c / 4 % 2 == 1 || c / 8 % 2 == 1 || c
                / 16 % 2 == 1 || c / 32 % 2 == 1 || c / 64 % 2 == 1 || c / 128 % 2 == 1
            &&& after == (Mcud { hazard: after.hazard, ..m })
        }),
{
}

/// The same on the wire, whatever the receiver was in the midst of.
pub proof fn law_hazard_follows_the_triggers(
    m: Mcud,
    s: crate::frame::ScanState,
    p: Seq<u8>,
    k: int,
)
    requires
        2 <= p.len() <= 255,
        s !is Escaped,
        4 <= k < 16,
    ensures
        ({
            let after = m.after_all(
                crate::frame::bodies_in(s, crate::frame::frame_wire(0x00, p)),
            );
            &&& p[k / 8] as int / crate::triggers::weight(k % 8) % 2 == 1 ==> after.hazard
            &&& p[0] < 16 && p[1] == 0 ==> !after.hazard
            &&& after == m.after(0x00, p)
        }),
{
    crate::frame::law_message_survives_the_wire(s, 0x00, p);
    let bodies = seq![crate::frame::body_of(0x00, p)];
    assert(bodies.drop_last() =~= Seq::<Seq<u8>>::empty());
    assert(m.after_all(bodies.drop_last()) == m);
    assert(m.after_all(bodies) == m.after(0x00, p));
    law_any_bit_from_4_to_15_is_a_hazard(m, p);
    assert(crate::triggers::weight(k % 8) == 1 || crate::triggers::weight(k % 8) == 2
        || crate::triggers::weight(k % 8) == 4 || crate::triggers::weight(k % 8) == 8
        || crate::triggers::weight(k % 8) == 16 || crate::triggers::weight(k % 8) == 32
        || crate::triggers::weight(k % 8) == 64 || crate::triggers::weight(k % 8) == 128);
}

/// Only a ping with at least four bytes is counted, once, and other messages change nothing.
pub proof fn law_other_messages_change_nothing(m: Mcud, typ: u8, p: Seq<u8>)
    ensures
        typ == 0x0f && p.len() >= 4 ==> {
            &&& m.after(typ, p) == (Mcud { pongs: m.after(typ, p).pongs, ..m })
            &&& m.pongs < u64::MAX ==> m.after(typ, p).pongs == m.pongs + 1
            &&& m.pongs == u64::MAX ==> m.after(typ, p).pongs == 0
        },
        !(typ == 0x0f && p.len() >= 4) && !(typ == 0x00 && p.len() >= 2) ==> m.after(typ, p) == m,
{
}

/// Messages are taken in one after the other: what a stream of them does is what its first part
/// and then its second part do, and the pings of both parts are answered in order.
pub proof fn law_messages_are_taken_in_order(m: Mcud, a: Seq<Seq<u8>>, b: Seq<Seq<u8>>)
    ensures
        m.after_all(a + b) == m.after_all(a).after_all(b),
        pings(a + b) == pings(a) + pings(b),
    decreases b.len(),
{
    if b.len() == 0 {
        assert(a + b =~= a);
        assert(pings(a) + pings(b) =~= pings(a));
    } else {
        law_messages_are_taken_in_order(m, a, b.drop_last());
        assert((a + b).drop_last() =~= a + b.drop_last());
        assert((a + b).last() == b.last());
        assert(pings(a + b) =~= pings(a) + pings(b));
    }
}

/// What one body does: a ping of at least four bytes is answered with the first four of them, a
/// body that is no message does nothing.
pub proof fn law_one_message(m: Mcud, body: Seq<u8>)
    ensures
        match crate::frame::parsed_body(body) {
            Ok((typ, p)) => {
                &&& m.after_all(seq![body]) == m.after(typ, p)
                &&& typ == 0x0f && p.len() >= 4 ==> pings(seq![body]) == seq![
                    seq![p[0], p[1], p[2], p[3]],
                ]
                &&& typ != 0x0f || p.len() < 4 ==> pings(seq![body]) == Seq::<Seq<u8>>::empty()
            },
            Err(_) => m.after_all(seq![body]) == m && pings(seq![body]) == Seq::<
                Seq<u8>,
            >::empty(),
        },
{
    let bodies = seq![body];
    assert(bodies.drop_last() =~= Seq::<Seq<u8>>::empty());
    assert(m.after_all(bodies.drop_last()) == m);
    assert(pings(bodies.drop_last()) =~= Seq::<Seq<u8>>::empty());
    if let Ok((typ, p)) = crate::frame::parsed_body(body) {
        if typ == 0x0f && p.len() >= 4 {
            assert(p.take(4) =~= seq![p[0], p[1], p[2], p[3]]);
            assert(pings(bodies) =~= seq![p.take(4)]);
        }
    }
}

/// A fresh command is sent at the nearest speed within the limits, 150 mm/s and 1.5 rad/s either
/// way, and without linear speed at a hazard. What is no number counts as the lower limit.
pub proof fn law_command_is_sent_at_the_nearest_speed(m: Mcud, now_ms: u64)
    requires
        m.enabled,
        0 <= now_ms - m.last_cmd_ms < 500 || m.last_cmd_ms - now_ms > 0xffff_ffff_ffff_fe0c,
    ensures
        ({
            let (linear, rot) = m.motion(now_ms);
            let one = vstd::arithmetic::power2::pow2(149) as int;
            let v = crate::binary32::value(m.linear_bits);
            let w = crate::binary32::value(m.rot_bits);
            let number = !crate::binary32::is_nan(m.linear_bits);
            let turn = !crate::binary32::is_nan(m.rot_bits);
            &&& !m.hazard && (!number || v < -150 * one) ==> linear == 0xc316_0000
            &&& !m.hazard && number && v > 150 * one ==> linear == 0x4316_0000
            &&& !m.hazard && number && -150 * one <= v <= 150 * one ==> linear == m.linear_bits
            &&& m.hazard && (!number || v != 0) ==> linear == 0
            &&& m.hazard && number && v == 0 ==> linear == m.linear_bits
            &&& !turn || 2 * w < -3 * one ==> rot == 0xbfc0_0000
            &&& turn && 2 * w > 3 * one ==> rot == 0x3fc0_0000
            &&& turn && -3 * one <= 2 * w <= 3 * one ==> rot == m.rot_bits
        }),
{
    crate::driver::law_limits_are_150_and_1_5();
    crate::binary32::law_clamped_is_nearest(m.linear_bits, 0xc316_0000, 0x4316_0000, 0);
    crate::binary32::law_clamped_is_nearest(m.rot_bits, 0xbfc0_0000, 0x3fc0_0000, 0);
    let c = crate::binary32::clamped(m.linear_bits, 0xc316_0000, 0x4316_0000);
    crate::binary32::law_patterns_order_as_values(c, 0);
    assert(now_ms.wrapping_sub(m.last_cmd_ms) < 500);
}

/// A command that is 500 ms old, or that was never given or lies in the future, moves nothing.
pub proof fn law_old_command_moves_nothing(m: Mcud, now_ms: u64)
    requires
        !m.enabled || now_ms - m.last_cmd_ms >= 500 || 0 < m.last_cmd_ms - now_ms
            <= 0xffff_ffff_ffff_fe0c,
    ensures
        m.motion(now_ms) == (0u32, 0u32),
{
}

/// What is sent, slot by slot. Every tick starts with one MotorCtrl message; a round of 50 ticks
/// has a slot for each of the others, and the laser is switched on in every fourth round while
/// the turret is on.
pub proof fn law_slots_of_a_round(m: Mcud, now_ms: u64)
    ensures
        ({
            let slot = m.tick % 50;
            let (linear, rot) = m.motion(now_ms);
            let motor = seq![(0x00u8, crate::command::motor_payload(1, linear, rot))];
            let led = seq![(0x02u8, seq![0x21u8])];
            let frames = m.frames(now_ms);
            let turret = if m.lidar_on {
                1u8
            } else {
                0u8
            };
            let screen = if m.lidar_on {
                0x14u8
            } else {
                0x64u8
            };
            &&& slot == 5 ==> frames =~= motor + led
            &&& slot == 10 ==> frames =~~= motor + seq![(0x01u8, seq![0u8, 1, 0, 0, 0, 0])]
            &&& slot == 20 ==> frames =~~= motor + seq![(0x14u8, seq![4u8, turret])]
            &&& slot == 30 ==> frames =~~= motor + led + seq![
                (0x26u8, seq![screen, 0, 0, 0, 0, 0, 0, 4]),
            ]
            &&& slot == 40 && m.lidar_on && m.tick / 50 % 4 == 0 ==> frames =~~= motor + seq![
                (0x1du8, seq![5u8, 1u8]),
            ]
            &&& slot == 40 && !(m.lidar_on && m.tick / 50 % 4 == 0) ==> frames =~= motor
            &&& slot != 5 && slot != 10 && slot != 20 && slot != 30 && slot != 40 ==> frames
                =~= motor
        }),
{
    let t = m.tick as int;
    assert(t % 25 == 5 <==> t % 50 == 5 || t % 50 == 30);
    assert(t % 200 == 40 <==> t % 50 == 40 && t / 50 % 4 == 0);
}

/// A line that says stop ends driving, one that speaks of the turret sets it, and no other line
/// changes the state.
pub proof fn law_lines_that_change_the_state(m: Mcud, c: crate::control::ControlView)
    ensures
        c is Stop ==> m.told(c) == (Mcud { enabled: false, ..m }),
        c matches crate::control::ControlView::Lidar(on) ==> m.told(c) == (Mcud {
            lidar_on: on,
            ..m
        }),
        c !is Stop && c !is Lidar ==> m.told(c) == m,
{
}

/// What `receive` makes of a trigger message on the wire with at least two payload bytes: the
/// hazard is set exactly where one of the bits 4 to 15 is, each of them alone, and nothing else
/// changes; the message is not answered.
pub proof fn law_receive_sets_the_hazard(bytes: &[u8], p: Seq<u8>)
    requires
        2 <= p.len() <= 255,
        bytes@ == crate::frame::frame_wire(0x00, p),
    ensures
        forall|rx: &mut McudReceiver, m: &mut Mcud, pongs: Vec<[u8; 4]>|
            rx.scanner@ !is Escaped && #[trigger] call_ensures(
                McudReceiver::receive,
                (rx, bytes, m),
                pongs,
            ) ==> {
                let a = p[0] as int;
                let c = p[1] as int;
                &&& final(m).hazard <==> a / 16 % 2 == 1 || a / 32 % 2 == 1 || a / 64 % 2 == 1 || a
                    / 128 % 2 == 1 || c % 2 == 1 || c / 2 % 2 == 1 || c / 4 % 2 == 1 || c / 8 % 2
                    == 1 || c / 16 % 2 == 1 || c / 32 % 2 == 1 || c / 64 % 2 == 1 || c / 128 % 2
                    == 1
                &&& *final(m) == (Mcud { hazard: final(m).hazard, ..*m })
                &&& pongs@.len() == 0
            },
{
    assert forall|rx: &mut McudReceiver, m: &mut Mcud, pongs: Vec<[u8; 4]>|
        rx.scanner@ !is Escaped && #[trigger] call_ensures(
            McudReceiver::receive,
            (rx, bytes, m),
            pongs,
        ) implies *final(m) == m.after(0x00, p) && pongs@.len() == 0 by {
        let body = crate::frame::body_of(0x00, p);
        crate::frame::law_message_survives_the_wire(rx.scanner@, 0x00, p);
        law_one_message(*m, body);
        assert(answers(pongs@).len() == pongs@.len());
    }
    assert forall|m: Mcud| true implies {
        let a = p[0] as int;
        let c = p[1] as int;
        let after = #[trigger] m.after(0x00, p);
        &&& after.hazard <==> a / 16 % 2 == 1 || a / 32 % 2 == 1 || a / 64 % 2 == 1 || a / 128 % 2
            == 1 || c % 2 == 1 || c / 2 % 2 == 1 || c / 4 % 2 == 1 || c / 8 % 2 == 1 || c / 16 % 2
            == 1 || c / 32 % 2 == 1 || c / 64 % 2 == 1 || c / 128 % 2 == 1
        &&& after == (Mcud { hazard: after.hazard, ..m })
    } by {
        law_any_bit_from_4_to_15_is_a_hazard(m, p);
    }
}

/// What a drive command leaves: its speeds and time, and enabled, where both speeds could be read
/// and neither has all its exponent bits set; else nothing changes.
pub proof fn law_finite_speeds_are_latched(linear: Option<u32>, rot: Option<u32>, now_ms: u64)
    ensures
        forall|m: &mut Mcud| #[trigger]
            call_ensures(Mcud::set_drive, (m, linear, rot, now_ms), ()) ==> {
                let good = linear is Some && rot is Some && linear->0 as int / 0x80_0000 % 256
                    != 255 && rot->0 as int / 0x80_0000 % 256 != 255;
                &&& good ==> *final(m) == (Mcud {
                    linear_bits: linear->0,
                    rot_bits: rot->0,
                    last_cmd_ms: now_ms,
                    enabled: true,
                    ..*m
                })
                &&& !good ==> *final(m) == *m
            },
{
    if linear is Some {
        crate::binary32::law_patterns_order_as_values(linear->0, 0);
    }
    if rot is Some {
        crate::binary32::law_patterns_order_as_values(rot->0, 0);
    }
}

/// What a tick sends is what the laws on `frames` speak of, and it counts itself; a line does
/// what the laws on `told` say; stopping and the turret change their own field.
pub proof fn law_tick_sends_the_frames(now_ms: u64, line: &str, on: bool)
    ensures
        forall|m: &mut Mcud, out: Vec<TxFrame>| #[trigger]
            call_ensures(Mcud::tick, (m, now_ms), out) ==> {
                &&& out@.len() == m.frames(now_ms).len()
                &&& forall|i: int|
                    0 <= i < out@.len() ==> (#[trigger] out@[i].typ, out@[i].payload@) == m.frames(
                        now_ms,
                    )[i]
                &&& *final(m) == (Mcud {
                    overrides: final(m).overrides,
                    tick: final(m).tick,
                    ..*m
                })
                &&& m.tick < u64::MAX ==> final(m).tick == m.tick + 1
                &&& m.tick == u64::MAX ==> final(m).tick == 0
                &&& m.overrides < u64::MAX ==> final(m).overrides == m.overrides + 1
            },
        forall|m: &mut Mcud, c: Control| #[trigger]
            call_ensures(Mcud::control, (m, line), c) ==> {
                &&& *final(m) == m.told(c@)
                &&& c@ == crate::control::command_of(crate::control::words(line@))
            },
        forall|m: &mut Mcud| #[trigger]
            call_ensures(Mcud::stop, (m,), ()) ==> *final(m) == (Mcud { enabled: false, ..*m }),
        forall|m: &mut Mcud| #[trigger]
            call_ensures(Mcud::set_lidar, (m, on), ()) ==> *final(m) == (Mcud {
                lidar_on: on,
                ..*m
            }),
        forall|m: Mcud| #[trigger]
            call_ensures(Mcud::new, (), m) ==> !m.enabled && !m.hazard && !m.lidar_on && m.tick
                == 0 && m.overrides == 0 && m.pongs == 0,
{
    assert forall|m: &mut Mcud, out: Vec<TxFrame>| #[trigger]
        call_ensures(Mcud::tick, (m, now_ms), out) implies {
        &&& out@.len() == m.frames(now_ms).len()
        &&& forall|i: int|
            0 <= i < out@.len() ==> (#[trigger] out@[i].typ, out@[i].payload@) == m.frames(
                now_ms,
            )[i]
    } by {
        assert forall|i: int| 0 <= i < out@.len() implies (#[trigger] out@[i].typ, out@[i].payload@)
            == m.frames(now_ms)[i] by {
            assert(crate::driver::sent(out@)[i] == out@[i]@);
        }
    }
}

/// What `receive` does with any bytes is what their messages do, in order.
pub proof fn law_receive_takes_in_every_message(bytes: &[u8])
    ensures
        forall|rx: &mut McudReceiver, m: &mut Mcud, pongs: Vec<[u8; 4]>| #[trigger]
            call_ensures(McudReceiver::receive, (rx, bytes, m), pongs) ==> {
                let bodies = crate::frame::bodies_in(rx.scanner@, bytes@);
                &&& *final(m) == m.after_all(bodies)
                &&& pongs@.len() == pings(bodies).len()
                &&& forall|i: int|
                    0 <= i < pongs@.len() ==> (#[trigger] pongs@[i])@ == pings(bodies)[i]
                &&& final(rx).scanner@ == crate::frame::scan_all(rx.scanner@, bytes@)
            },
{
    assert forall|rx: &mut McudReceiver, m: &mut Mcud, pongs: Vec<[u8; 4]>| #[trigger]
        call_ensures(McudReceiver::receive, (rx, bytes, m), pongs) implies {
        let bodies = crate::frame::bodies_in(rx.scanner@, bytes@);
        &&& pongs@.len() == pings(bodies).len()
        &&& forall|i: int| 0 <= i < pongs@.len() ==> (#[trigger] pongs@[i])@ == pings(bodies)[i]
    } by {
        assert forall|i: int| 0 <= i < pongs@.len() implies (#[trigger] pongs@[i])@ == pings(
            crate::frame::bodies_in(rx.scanner@, bytes@),
        )[i] by {
            assert(answers(pongs@)[i] == pongs@[i]@);
        }
    }
}

} // verus!
