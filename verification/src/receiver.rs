//! What is made of the MCU's stream: telemetry for the publisher, hazards for the drive gate,
//! and answers to the MCU's pings.
use std::collections::HashMap;
use vstd::prelude::*;

use crate::frame::{parse_body, FrameScanner};
use crate::message::{Msg, T_PING};
use crate::msg::CompressedImage;
use crate::shared::Shared;
use crate::status::{Battery, Status10ms, Status20ms};
use crate::sweep::SweepPoint;

verus! {

/// The dock status message, whose first byte holds the dock's buttons.
pub const T_DOCK_STATUS: u8 = 0x23;

/// A decoded reading, ready to publish.
#[derive(Debug)]
pub enum Tap {
    /// Pose and velocity, with the latest yaw rate in centi-degrees per second.
    Odom { status: Status20ms, gyro_z_cdeg_s: i16 },
    /// One sweep of the LDS.
    Scan(Vec<SweepPoint>),
    Image(CompressedImage),
    Imu(Status10ms),
    Battery(Battery),
    /// Bit 0 of `bumper_bits` and `wheel_bits` is left, bit 1 right.
    Triggers { dock: bool, bumper_bits: u8, cliff_bits: u8, wheel_bits: u8, fan_oc: bool },
    /// [wheel_left, wheel_right, main_brush, side_brush, load] raw currents.
    Currents([i16; 5]),
    /// The base station's buttons, true while held.
    DockButton { home: bool, start: bool },
    /// Commanded turret and actuator levels.
    State { turret: bool, fan: u8, side_brush: u8, main_brush: u8, mop: u8 },
}

/// The latest values that a later message is published with.
#[derive(Debug, Clone, Copy, PartialEq, Eq)]
pub struct Readings {
    pub gyro_z_cdeg_s: i16,
    pub wheel_left: i16,
    pub wheel_right: i16,
    pub load: i16,
}

/// Two flags as bits 0 and 1.
pub open spec fn two_bits(left: bool, right: bool) -> u8 {
    ((if left {
        1int
    } else {
        0
    }) + (if right {
        2int
    } else {
        0
    })) as u8
}

impl Readings {
    /// The readings after a message.
    pub open spec fn after(self, m: Msg) -> Readings {
        match m {
            Msg::Status10ms(s) => Readings { gyro_z_cdeg_s: s.gyro_cdeg_s[2], ..self },
            Msg::Status100ms(s) => Readings {
                wheel_left: s.left_current,
                wheel_right: s.right_current,
                load: s.load,
                ..self
            },
            _ => self,
        }
    }

    /// What a message gives to publish.
    pub open spec fn taps(self, m: Msg) -> Seq<Tap> {
        match m {
            Msg::Status10ms(s) => seq![Tap::Imu(s)],
            Msg::Status20ms(s) => seq![
                Tap::Currents(
                    [
                        self.wheel_left,
                        self.wheel_right,
                        s.roller_current,
                        s.sidebrush_current,
                        self.load,
                    ],
                ),
                Tap::Odom { status: s, gyro_z_cdeg_s: self.gyro_z_cdeg_s },
            ],
            Msg::Triggers(t) => seq![
                Tap::Triggers {
                    dock: t.has(32),
                    bumper_bits: two_bits(t.has(4), t.has(5)),
                    cliff_bits: (t.raw[1] % 64) as u8,
                    wheel_bits: two_bits(t.has(6), t.has(7)),
                    fan_oc: t.has(42),
                },
            ],
            Msg::Battery(b) => seq![Tap::Battery(b)],
            _ => Seq::empty(),
        }
    }

    pub fn new() -> (r: Self)
        ensures
            r == (Readings { gyro_z_cdeg_s: 0, wheel_left: 0, wheel_right: 0, load: 0 }),
    {
        Readings { gyro_z_cdeg_s: 0, wheel_left: 0, wheel_right: 0, load: 0 }
    }

    /// Take note of a message, and append what it gives to publish.
    pub fn note(&mut self, m: &Msg, out: &mut Vec<Tap>)
        ensures
            *final(self) == old(self).after(*m),
            final(out)@ == old(out)@ + old(self).taps(*m),
    {
        match m {
            Msg::Status10ms(s) => {
                self.gyro_z_cdeg_s = s.gyro_cdeg_s[2];
                out.push(Tap::Imu(*s));
            },
            Msg::Status20ms(s) => {
                out.push(
                    Tap::Currents(
                        [
                            self.wheel_left,
                            self.wheel_right,
                            s.roller_current,
                            s.sidebrush_current,
                            self.load,
                        ],
                    ),
                );
                out.push(Tap::Odom { status: *s, gyro_z_cdeg_s: self.gyro_z_cdeg_s });
            },
            Msg::Status100ms(s) => {
                self.wheel_left = s.left_current;
                self.wheel_right = s.right_current;
                self.load = s.load;
            },
            Msg::Triggers(t) => {
                let cliff: u8 = t.cliff_flags();
                assert(cliff & 0x3f == cliff % 64) by (bit_vector);
                out.push(
                    Tap::Triggers {
                        dock: t.dock_sta(),
                        bumper_bits: bits(t.left_bumper(), t.right_bumper()),
                        cliff_bits: cliff & 0x3f,
                        wheel_bits: bits(t.left_wheel_floating(), t.right_wheel_floating()),
                        fan_oc: t.fan_overcurrent(),
                    },
                );
            },
            Msg::Battery(b) => {
                out.push(Tap::Battery(*b));
            },
            _ => {},
        }
        assert(out@ =~= old(out)@ + old(self).taps(*m));
    }
}

fn bits(left: bool, right: bool) -> (r: u8)
    ensures
        r == two_bits(left, right),
{
    let l: u8 = if left {
        1
    } else {
        0
    };
    let r: u8 = if right {
        2
    } else {
        0
    };
    l + r
}

// ---------------------------------------------------------------------------------------
// Reading along
// ---------------------------------------------------------------------------------------
/// The readings after the message in `body`; a body that cannot be parsed is ignored.
pub open spec fn body_readings(rd: Readings, body: Seq<u8>) -> Readings {
    match crate::frame::parsed_body(body) {
        Ok((typ, p)) => rd.after(crate::message::decoded(typ, p)),
        Err(_) => rd,
    }
}

/// What the message in `body` gives to publish.
pub open spec fn body_taps(rd: Readings, body: Seq<u8>) -> Seq<Tap> {
    match crate::frame::parsed_body(body) {
        Ok((typ, p)) => rd.taps(crate::message::decoded(typ, p)),
        Err(_) => Seq::empty(),
    }
}

/// The readings after all of `bodies`.
pub open spec fn stream_readings(rd: Readings, bodies: Seq<Seq<u8>>) -> Readings
    decreases bodies.len(),
{
    if bodies.len() == 0 {
        rd
    } else {
        body_readings(stream_readings(rd, bodies.drop_last()), bodies.last())
    }
}

/// What all of `bodies` give to publish, in order.
pub open spec fn stream_taps(rd: Readings, bodies: Seq<Seq<u8>>) -> Seq<Tap>
    decreases bodies.len(),
{
    if bodies.len() == 0 {
        Seq::empty()
    } else {
        stream_taps(rd, bodies.drop_last()) + body_taps(
            stream_readings(rd, bodies.drop_last()),
            bodies.last(),
        )
    }
}

/// Reads a mirror of the MCU's stream, without taking part in it.
pub struct McuReader {
    pub scanner: FrameScanner,
    pub readings: Readings,
}

impl McuReader {
    pub fn new() -> (r: Self)
        ensures
            r.scanner.wf(),
            r.scanner@ == crate::frame::ScanState::Idle,
            r.readings == (Readings {
                gyro_z_cdeg_s: 0,
                wheel_left: 0,
                wheel_right: 0,
                load: 0,
            }),
    {
        McuReader { scanner: FrameScanner::new(), readings: Readings::new() }
    }

    /// Take in the next bytes of the stream, and say what they give to publish.
    pub fn receive(&mut self, bytes: &[u8]) -> (out: Vec<Tap>)
        requires
            old(self).scanner.wf(),
        ensures
            final(self).scanner.wf(),
            final(self).scanner@ == crate::frame::scan_all(old(self).scanner@, bytes@),
            final(self).readings == stream_readings(
                old(self).readings,
                crate::frame::bodies_in(old(self).scanner@, bytes@),
            ),
            out@ == stream_taps(
                old(self).readings,
                crate::frame::bodies_in(old(self).scanner@, bytes@),
            ),
    {
        let mut out: Vec<Tap> = Vec::new();
        let ghost start = self.scanner@;
        let ghost rd = self.readings;
        assert(bytes@.take(0) =~= Seq::<u8>::empty());
        for i in 0..bytes.len()
            invariant
                start == old(self).scanner@,
                rd == old(self).readings,
                self.scanner.wf(),
                self.scanner@ == crate::frame::scan_all(start, bytes@.take(i as int)),
                self.readings == stream_readings(
                    rd,
                    crate::frame::bodies_in(start, bytes@.take(i as int)),
                ),
                out@ == stream_taps(rd, crate::frame::bodies_in(start, bytes@.take(i as int))),
        {
            let b: u8 = bytes[i];
            proof {
                assert(bytes@.take(i + 1) =~= bytes@.take(i as int).push(b));
                crate::frame::lemma_scan_one_more(start, bytes@.take(i as int), b);
            }
            let ghost bodies = crate::frame::bodies_in(start, bytes@.take(i as int));
            if let Some(body) = self.scanner.push(b) {
                assert(bodies.push(body@).drop_last() =~= bodies);
                if let Ok((typ, payload)) = parse_body(body) {
                    let m = Msg::decode(typ, payload);
                    self.readings.note(&m, &mut out);
                }
            }
        }
        assert(bytes@.take(bytes@.len() as int) =~= bytes@);
        out
    }
}

// ---------------------------------------------------------------------------------------
// Taking part
// ---------------------------------------------------------------------------------------
/// Types whose payload changes with every message.
pub open spec fn is_high_rate(typ: u8) -> bool {
    typ == 0x01 || typ == 0x02 || typ == 0x03 || typ == 0x05 || typ == 0x12 || typ == 0x2c
}

/// The last payload of each type, to find out which message a button or a sensor changes.
pub struct ChangeLog {
    last: HashMap<u8, Vec<u8>>,
}

impl View for ChangeLog {
    type V = Map<u8, Seq<u8>>;

    closed spec fn view(&self) -> Map<u8, Seq<u8>> {
        self.last@.map_values(|p: Vec<u8>| p@)
    }
}

/// A payload that differs from the last of its type, or is the first, and is not of a type
/// that always changes.
pub open spec fn is_change(seen: Map<u8, Seq<u8>>, typ: u8, p: Seq<u8>) -> bool {
    !is_high_rate(typ) && !(seen.dom().contains(typ) && seen[typ] == p)
}

fn same_bytes(a: &[u8], b: &[u8]) -> (r: bool)
    ensures
        r == (a@ == b@),
{
    if a.len() != b.len() {
        return false;
    }
    for i in 0..a.len()
        invariant
            a@.len() == b@.len(),
            forall|j: int| 0 <= j < i ==> a@[j] == b@[j],
    {
        if a[i] != b[i] {
            return false;
        }
    }
    assert(a@ =~= b@);
    true
}

impl ChangeLog {
    pub fn new() -> (c: Self)
        ensures
            c@ == Map::<u8, Seq<u8>>::empty(),
    {
        broadcast use vstd::std_specs::hash::group_hash_axioms;

        let c = ChangeLog { last: HashMap::new() };
        assert(c@ =~= Map::<u8, Seq<u8>>::empty());
        c
    }

    /// Whether the message is a change, which is then remembered.
    pub fn changed(&mut self, typ: u8, payload: &[u8]) -> (r: bool)
        ensures
            r == is_change(old(self)@, typ, payload@),
            final(self)@ == (if r {
                old(self)@.insert(typ, payload@)
            } else {
                old(self)@
            }),
    {
        broadcast use vstd::std_specs::hash::group_hash_axioms;

        if typ == 0x01 || typ == 0x02 || typ == 0x03 || typ == 0x05 || typ == 0x12 || typ == 0x2c {
            return false;
        }
        if let Some(p) = self.last.get(&typ) {
            if same_bytes(p, payload) {
                return false;
            }
        }
        self.last.insert(typ, vstd::slice::slice_to_vec(payload));
        assert(self@ =~= old(self)@.insert(typ, payload@));
        true
    }
}

/// All that a receiver has come to, and all that it has given out.
pub struct RxModel {
    pub readings: Readings,
    pub shared: Shared,
    pub seen: Map<u8, Seq<u8>>,
    pub taps: Seq<Tap>,
    pub pongs: Seq<Seq<u8>>,
    pub changes: Seq<(u8, Seq<u8>)>,
}

/// A ping that is to be answered with its first four bytes, its timestamp.
pub open spec fn is_ping(typ: u8, p: Seq<u8>) -> bool {
    typ == T_PING && p.len() >= 4
}

/// The dock's buttons, where a message holds them.
pub open spec fn button_taps(typ: u8, p: Seq<u8>) -> Seq<Tap> {
    if typ == T_DOCK_STATUS && p.len() > 0 {
        seq![
            Tap::DockButton {
                home: crate::triggers::byte_bit(p[0], 0),
                start: crate::triggers::byte_bit(p[0], 2),
            },
        ]
    } else {
        Seq::empty()
    }
}

impl RxModel {
    /// After a message. `debug` asks for the changes.
    pub open spec fn after(self, debug: bool, typ: u8, p: Seq<u8>) -> RxModel {
        let m = crate::message::decoded(typ, p);
        let change = debug && is_change(self.seen, typ, p);
        RxModel {
            readings: self.readings.after(m),
            shared: match m {
                Msg::Triggers(t) => self.shared.with_triggers(t),
                _ => self.shared,
            },
            seen: if change {
                self.seen.insert(typ, p)
            } else {
                self.seen
            },
            taps: self.taps + button_taps(typ, p) + self.readings.taps(m),
            pongs: if is_ping(typ, p) {
                self.pongs.push(p.take(4))
            } else {
                self.pongs
            },
            changes: if change {
                self.changes.push((typ, p))
            } else {
                self.changes
            },
        }
    }

    /// After the message in `body`; a body that cannot be parsed is ignored.
    pub open spec fn after_body(self, debug: bool, body: Seq<u8>) -> RxModel {
        match crate::frame::parsed_body(body) {
            Ok((typ, p)) => self.after(debug, typ, p),
            Err(_) => self,
        }
    }

    /// After all of `bodies`.
    pub open spec fn after_all(self, debug: bool, bodies: Seq<Seq<u8>>) -> RxModel
        decreases bodies.len(),
    {
        if bodies.len() == 0 {
            self
        } else {
            self.after_all(debug, bodies.drop_last()).after_body(debug, bodies.last())
        }
    }
}

/// What a receiver gives out: readings to publish, pings to answer (by their first four
/// bytes), and the changes that were asked for.
pub struct RxOutput {
    pub taps: Vec<Tap>,
    pub pongs: Vec<[u8; 4]>,
    pub changes: Vec<(u8, Vec<u8>)>,
}

impl RxOutput {
    /// The answers by their bytes.
    pub open spec fn answers(self) -> Seq<Seq<u8>> {
        self.pongs@.map_values(|p: [u8; 4]| p@)
    }

    /// The changes by type and payload.
    pub open spec fn changed(self) -> Seq<(u8, Seq<u8>)> {
        self.changes@.map_values(|c: (u8, Vec<u8>)| (c.0, c.1@))
    }
}

/// Receives the MCU's stream and takes part in it: keeps the hazards of the shared state and
/// has pings answered.
pub struct Receiver {
    pub scanner: FrameScanner,
    pub readings: Readings,
    pub log: ChangeLog,
    /// Whether changes are asked for.
    pub debug: bool,
}

impl Receiver {
    /// This receiver with nothing given out yet.
    pub open spec fn model(self, sh: Shared) -> RxModel {
        RxModel {
            readings: self.readings,
            shared: sh,
            seen: self.log@,
            taps: Seq::empty(),
            pongs: Seq::empty(),
            changes: Seq::empty(),
        }
    }

    pub fn new(debug: bool) -> (r: Self)
        ensures
            r.scanner.wf(),
            r.scanner@ == crate::frame::ScanState::Idle,
            r.debug == debug,
            r.log@ == Map::<u8, Seq<u8>>::empty(),
            r.readings == (Readings {
                gyro_z_cdeg_s: 0,
                wheel_left: 0,
                wheel_right: 0,
                load: 0,
            }),
    {
        Receiver {
            scanner: FrameScanner::new(),
            readings: Readings::new(),
            log: ChangeLog::new(),
            debug,
        }
    }

    /// Take in the next bytes of the stream.
    pub fn receive(&mut self, bytes: &[u8], sh: &mut Shared) -> (out: RxOutput)
        requires
            old(self).scanner.wf(),
        ensures
            final(self).scanner.wf(),
            final(self).scanner@ == crate::frame::scan_all(old(self).scanner@, bytes@),
            final(self).debug == old(self).debug,
            ({
                let end = old(self).model(*old(sh)).after_all(
                    old(self).debug,
                    crate::frame::bodies_in(old(self).scanner@, bytes@),
                );
                &&& final(self).readings == end.readings
                &&& final(self).log@ == end.seen
                &&& *final(sh) == end.shared
                &&& out.taps@ == end.taps
                &&& out.answers() == end.pongs
                &&& out.changed() == end.changes
            }),
    {
        let mut taps: Vec<Tap> = Vec::new();
        let mut pongs: Vec<[u8; 4]> = Vec::new();
        let mut changes: Vec<(u8, Vec<u8>)> = Vec::new();
        let ghost start = self.scanner@;
        let ghost model = self.model(*sh);
        proof {
            assert(bytes@.take(0) =~= Seq::<u8>::empty());
            assert(pongs@.map_values(|p: [u8; 4]| p@) =~= Seq::<Seq<u8>>::empty());
            assert(changes@.map_values(|c: (u8, Vec<u8>)| (c.0, c.1@)) =~= Seq::<
                (u8, Seq<u8>),
            >::empty());
        }
        for i in 0..bytes.len()
            invariant
                start == old(self).scanner@,
                model == old(self).model(*old(sh)),
                self.debug == old(self).debug,
                self.scanner.wf(),
                self.scanner@ == crate::frame::scan_all(start, bytes@.take(i as int)),
                ({
                    let end = model.after_all(
                        self.debug,
                        crate::frame::bodies_in(start, bytes@.take(i as int)),
                    );
                    &&& self.readings == end.readings
                    &&& self.log@ == end.seen
                    &&& *sh == end.shared
                    &&& taps@ == end.taps
                    &&& pongs@.map_values(|p: [u8; 4]| p@) == end.pongs
                    &&& changes@.map_values(|c: (u8, Vec<u8>)| (c.0, c.1@)) == end.changes
                }),
        {
            let b: u8 = bytes[i];
            let ghost bodies = crate::frame::bodies_in(start, bytes@.take(i as int));
            let ghost now = model.after_all(self.debug, bodies);
            proof {
                assert(bytes@.take(i + 1) =~= bytes@.take(i as int).push(b));
                crate::frame::lemma_scan_one_more(start, bytes@.take(i as int), b);
            }
            if let Some(body) = self.scanner.push(b) {
                assert(bodies.push(body@).drop_last() =~= bodies);
                if let Ok((typ, payload)) = parse_body(body) {
                    let ghost next = now.after(self.debug, typ, payload@);
                    if self.debug {
                        if self.log.changed(typ, payload) {
                            changes.push((typ, vstd::slice::slice_to_vec(payload)));
                            assert(changes@.map_values(|c: (u8, Vec<u8>)| (c.0, c.1@))
                                =~= now.changes.push((typ, payload@)));
                        }
                    }
                    if typ == T_DOCK_STATUS && payload.len() > 0 {
                        let b0: u8 = payload[0];
                        assert((b0 & 0x01 != 0) == ((b0 >> 0u8) & 1 == 1) && (b0 & 0x04 != 0) == ((
                        b0 >> 2u8) & 1 == 1)) by (bit_vector);
                        taps.push(
                            Tap::DockButton { home: b0 & 0x01 != 0, start: b0 & 0x04 != 0 },
                        );
                    }
                    assert(taps@ =~= now.taps + button_taps(typ, payload@));
                    if typ == T_PING && payload.len() >= 4 {
                        let pong: [u8; 4] = [payload[0], payload[1], payload[2], payload[3]];
                        pongs.push(pong);
                        assert(pong@ =~= payload@.take(4));
                        assert(pongs@.map_values(|p: [u8; 4]| p@) =~= now.pongs.push(
                            payload@.take(4),
                        ));
                    }
                    let m = Msg::decode(typ, payload);
                    if let Msg::Triggers(t) = &m {
                        sh.note_triggers(t);
                    }
                    self.readings.note(&m, &mut taps);
                    assert(taps@ == next.taps);
                }
            }
        }
        assert(bytes@.take(bytes@.len() as int) =~= bytes@);
        RxOutput { taps, pongs, changes }
    }
}

// ---------------------------------------------------------------------------------------
// What holds of every stream
// ---------------------------------------------------------------------------------------
/// A message on the wire is taken note of, once, whatever came before it.
pub proof fn law_message_on_the_wire_is_noted(
    model: RxModel,
    debug: bool,
    s: crate::frame::ScanState,
    typ: u8,
    p: Seq<u8>,
)
    requires
        p.len() <= 255,
        s !is Escaped,
    ensures
        model.after_all(debug, crate::frame::bodies_in(s, crate::frame::frame_wire(typ, p)))
            == model.after(debug, typ, p),
{
    crate::frame::law_message_survives_the_wire(s, typ, p);
    let bodies = seq![crate::frame::body_of(typ, p)];
    assert(bodies.drop_last() =~= Seq::<Seq<u8>>::empty());
    assert(model.after_all(debug, bodies.drop_last()) == model);
}

/// A ping on the wire is answered with its first four bytes, and the answer can be sent.
pub proof fn law_ping_is_answered(
    model: RxModel,
    debug: bool,
    s: crate::frame::ScanState,
    p: Seq<u8>,
)
    requires
        4 <= p.len() <= 255,
        s !is Escaped,
    ensures
        model.after_all(
            debug,
            crate::frame::bodies_in(s, crate::frame::frame_wire(T_PING, p)),
        ).pongs == model.pongs.push(p.take(4)),
        crate::command::packet_of(T_PING, p.take(4)) is Some,
{
    law_message_on_the_wire_is_noted(model, debug, s, T_PING, p);
    crate::command::law_short_message_is_sent(T_PING, p.take(4));
}

/// A trigger message on the wire sets the drive gate.
pub proof fn law_triggers_set_the_drive_gate(
    model: RxModel,
    debug: bool,
    s: crate::frame::ScanState,
    p: Seq<u8>,
)
    requires
        7 <= p.len() <= 255,
        s !is Escaped,
    ensures
        model.after_all(
            debug,
            crate::frame::bodies_in(s, crate::frame::frame_wire(crate::message::T_TRIGGERS, p)),
        ).shared == model.shared.with_triggers(crate::triggers::Triggers::at(p)),
{
    law_message_on_the_wire_is_noted(model, debug, s, crate::message::T_TRIGGERS, p);
}

/// A message with one byte damaged changes nothing.
pub proof fn law_damaged_message_is_ignored(
    model: RxModel,
    debug: bool,
    typ: u8,
    p: Seq<u8>,
    k: int,
    b: u8,
)
    requires
        p.len() <= 255,
        0 <= k < p.len() + 4,
        b != crate::frame::body_of(typ, p)[k],
    ensures
        model.after_body(debug, crate::frame::body_of(typ, p).update(k, b)) == model,
{
    crate::frame::law_body_says_its_message(typ, p);
    crate::frame::law_one_changed_byte_is_rejected(crate::frame::body_of(typ, p), k, b);
}

/// All but the dock's buttons.
pub open spec fn without_buttons(taps: Seq<Tap>) -> Seq<Tap> {
    taps.filter(|t: Tap| t !is DockButton)
}

proof fn lemma_without_buttons_of_concat(a: Seq<Tap>, b: Seq<Tap>)
    ensures
        without_buttons(a + b) == without_buttons(a) + without_buttons(b),
{
    Seq::filter_distributes_over_add(a, b, |t: Tap| t !is DockButton);
}

proof fn lemma_no_buttons(taps: Seq<Tap>)
    requires
        forall|i: int| 0 <= i < taps.len() ==> (#[trigger] taps[i]) !is DockButton,
    ensures
        without_buttons(taps) == taps,
    decreases taps.len(),
{
    reveal(Seq::filter);
    if taps.len() > 0 {
        lemma_no_buttons(taps.drop_last());
        assert(taps.drop_last().push(taps.last()) =~= taps);
    } else {
        assert(without_buttons(taps) =~= taps);
    }
}

proof fn lemma_only_buttons(typ: u8, p: Seq<u8>)
    ensures
        without_buttons(button_taps(typ, p)) == Seq::<Tap>::empty(),
{
    reveal(Seq::filter);
    let taps = button_taps(typ, p);
    if taps.len() > 0 {
        assert(taps.drop_last() =~= Seq::<Tap>::empty());
        lemma_no_buttons(taps.drop_last());
    } else {
        lemma_no_buttons(taps);
    }
}

/// Reading along and taking part publish the same telemetry, but for the dock's buttons.
pub proof fn law_both_sources_publish_alike(model: RxModel, debug: bool, bodies: Seq<Seq<u8>>)
    ensures
        model.after_all(debug, bodies).readings == stream_readings(model.readings, bodies),
        without_buttons(model.after_all(debug, bodies).taps) == without_buttons(model.taps)
            + stream_taps(model.readings, bodies),
    decreases bodies.len(),
{
    if bodies.len() == 0 {
        assert(without_buttons(model.taps) + Seq::<Tap>::empty() =~= without_buttons(model.taps));
    } else {
        let front = bodies.drop_last();
        law_both_sources_publish_alike(model, debug, front);
        let before = model.after_all(debug, front);
        let all = without_buttons(model.taps) + stream_taps(model.readings, front);
        match crate::frame::parsed_body(bodies.last()) {
            Ok((typ, p)) => {
                let buttons = button_taps(typ, p);
                let more = before.readings.taps(crate::message::decoded(typ, p));
                lemma_without_buttons_of_concat(before.taps + buttons, more);
                lemma_without_buttons_of_concat(before.taps, buttons);
                lemma_only_buttons(typ, p);
                lemma_no_buttons(more);
                assert(all + Seq::<Tap>::empty() + more =~= without_buttons(model.taps)
                    + stream_taps(model.readings, bodies));
            },
            Err(_) => {
                assert(all + Seq::<Tap>::empty() =~= all);
                assert(stream_taps(model.readings, bodies) =~= stream_taps(model.readings, front));
            },
        }
    }
}

/// What each message gives to publish. The yaw rate and the wheel and load currents of earlier
/// messages go out with the pose; a message of any other kind gives nothing.
pub proof fn law_what_is_published(rd: Readings, m: Msg)
    ensures
        m matches Msg::Status10ms(s) ==> rd.taps(m) == seq![Tap::Imu(s)],
        m matches Msg::Status20ms(s) ==> {
            &&& rd.taps(m).len() == 2
            &&& (rd.taps(m)[0] matches Tap::Currents(c) && c[0] == rd.wheel_left && c[1]
                == rd.wheel_right && c[2] == s.roller_current && c[3] == s.sidebrush_current && c[4]
                == rd.load)
            &&& rd.taps(m)[1] == (Tap::Odom { status: s, gyro_z_cdeg_s: rd.gyro_z_cdeg_s })
        },
        m matches Msg::Battery(b) ==> rd.taps(m) == seq![Tap::Battery(b)],
        m matches Msg::Triggers(t) ==> {
            let a = t.raw[0] as int;
            rd.taps(m) == seq![
                Tap::Triggers {
                    dock: t.raw[4] % 2 == 1,
                    bumper_bits: (a / 16 % 4) as u8,
                    cliff_bits: (t.raw[1] % 64) as u8,
                    wheel_bits: (a / 64) as u8,
                    fan_oc: t.raw[5] / 4 % 2 == 1,
                },
            ]
        },
        m is Status100ms || m is Ping || m is Raw ==> rd.taps(m) == Seq::<Tap>::empty(),
{
    if let Msg::Triggers(t) = m {
        let a = t.raw[0];
        crate::triggers::law_bits_are_binary_digits(a);
        crate::triggers::law_bits_are_binary_digits(t.raw[4]);
        crate::triggers::law_bits_are_binary_digits(t.raw[5]);
        assert(a / 16 % 4 == a / 16 % 2 + 2 * (a / 32 % 2));
        assert(a / 64 == a / 64 % 2 + 2 * (a / 128));
    }
}

/// What is kept of a message for later ones, and that nothing else is.
pub proof fn law_what_is_kept(rd: Readings, m: Msg)
    ensures
        m matches Msg::Status10ms(s) ==> rd.after(m) == (Readings {
            gyro_z_cdeg_s: s.gyro_cdeg_s[2],
            ..rd
        }),
        m matches Msg::Status100ms(s) ==> rd.after(m) == (Readings {
            gyro_z_cdeg_s: rd.gyro_z_cdeg_s,
            wheel_left: s.left_current,
            wheel_right: s.right_current,
            load: s.load,
        }),
        m !is Status10ms && m !is Status100ms ==> rd.after(m) == rd,
{
}

/// What a message does, by its type. A ping `0f` of at least four bytes is answered with the
/// first four of them, once. A trigger message `00` of at least seven bytes sets the hazards. A
/// dock status `23` gives the dock's buttons, bits 0 and 2 of its first byte, ahead of any
/// other telemetry. Nothing else does any of this.
pub proof fn law_what_a_message_does(model: RxModel, debug: bool, typ: u8, p: Seq<u8>)
    requires
        p.len() <= 255,
    ensures
        ({
            let after = model.after(debug, typ, p);
            let m = crate::message::decoded(typ, p);
            &&& typ == 0x0f && p.len() >= 4 ==> after.pongs == model.pongs.push(
                seq![p[0], p[1], p[2], p[3]],
            )
            &&& typ != 0x0f || p.len() < 4 ==> after.pongs == model.pongs
            &&& typ == 0x00 && p.len() >= 7 ==> after.shared == model.shared.with_triggers(
                crate::triggers::Triggers::at(p),
            )
            &&& typ != 0x00 || p.len() < 7 ==> after.shared == model.shared
            &&& typ == 0x23 && p.len() >= 1 ==> after.taps == model.taps.push(
                Tap::DockButton { home: p[0] % 2 == 1, start: p[0] / 4 % 2 == 1 },
            )
            &&& typ != 0x23 || p.len() == 0 ==> after.taps == model.taps + model.readings.taps(m)
            &&& after.readings == model.readings.after(m)
        }),
{
    assert(p.len() >= 4 ==> p.take(4) =~= seq![p[0], p[1], p[2], p[3]]);
    if p.len() > 0 {
        crate::triggers::law_bits_are_binary_digits(p[0]);
    }
    let after = model.after(debug, typ, p);
    let m = crate::message::decoded(typ, p);
    if typ == 0x23 {
        assert(model.readings.taps(m) =~= Seq::<Tap>::empty());
        assert(p.len() >= 1 ==> after.taps =~= model.taps.push(
            Tap::DockButton { home: p[0] % 2 == 1, start: p[0] / 4 % 2 == 1 },
        ));
    }
    assert(typ != 0x23 || p.len() == 0 ==> after.taps =~= model.taps + model.readings.taps(m));
}

/// Changes are noted only where they are asked for, never for the types `01`, `02`, `03`, `05`,
/// `12` and `2c`, and else for the first message of a type and for each that differs from the
/// one noted last. The same message again is no change.
pub proof fn law_changes_are_noted_once(model: RxModel, debug: bool, typ: u8, p: Seq<u8>)
    ensures
        ({
            let after = model.after(debug, typ, p);
            let silent = !debug || typ == 0x01 || typ == 0x02 || typ == 0x03 || typ == 0x05 || typ
                == 0x12 || typ == 0x2c;
            let known = model.seen.dom().contains(typ) && model.seen[typ] == p;
            &&& silent || known ==> after.changes == model.changes && after.seen == model.seen
            &&& !silent && !known ==> after.changes == model.changes.push((typ, p)) && after.seen
                == model.seen.insert(typ, p)
            &&& after.after(debug, typ, p).changes == after.changes
            &&& after.after(debug, typ, p).seen == after.seen
        }),
{
}

/// Messages are taken in one after the other: what a stream of them does is what its first part
/// and then its second part do. A body that is no message does nothing.
pub proof fn law_messages_are_taken_in_order(
    model: RxModel,
    debug: bool,
    a: Seq<Seq<u8>>,
    b: Seq<Seq<u8>>,
    body: Seq<u8>,
)
    ensures
        model.after_all(debug, a + b) == model.after_all(debug, a).after_all(debug, b),
        model.after_all(debug, seq![body]) == (match crate::frame::parsed_body(body) {
            Ok((typ, p)) => model.after(debug, typ, p),
            Err(_) => model,
        }),
        model.after_all(debug, Seq::empty()) == model,
    decreases b.len(),
{
    assert(seq![body].drop_last() =~= Seq::<Seq<u8>>::empty());
    assert(model.after_all(debug, Seq::empty()) == model);
    if b.len() == 0 {
        assert(a + b =~= a);
    } else {
        law_messages_are_taken_in_order(model, debug, a, b.drop_last(), body);
        assert((a + b).drop_last() =~= a + b.drop_last());
        assert((a + b).last() == b.last());
    }
}

/// The same for reading along: what is published is what the first part gives, and then what the
/// second part gives with what was kept of the first.
pub proof fn law_telemetry_is_published_in_order(
    rd: Readings,
    a: Seq<Seq<u8>>,
    b: Seq<Seq<u8>>,
    body: Seq<u8>,
)
    ensures
        stream_readings(rd, a + b) == stream_readings(stream_readings(rd, a), b),
        stream_taps(rd, a + b) == stream_taps(rd, a) + stream_taps(stream_readings(rd, a), b),
        stream_readings(rd, seq![body]) == (match crate::frame::parsed_body(body) {
            Ok((typ, p)) => rd.after(crate::message::decoded(typ, p)),
            Err(_) => rd,
        }),
        stream_taps(rd, seq![body]) == (match crate::frame::parsed_body(body) {
            Ok((typ, p)) => rd.taps(crate::message::decoded(typ, p)),
            Err(_) => Seq::empty(),
        }),
    decreases b.len(),
{
    assert(seq![body].drop_last() =~= Seq::<Seq<u8>>::empty());
    assert(stream_readings(rd, Seq::empty()) == rd);
    assert(stream_taps(rd, Seq::empty()) == Seq::<Tap>::empty());
    assert(stream_taps(rd, seq![body]) =~= body_taps(rd, body));
    if b.len() == 0 {
        assert(a + b =~= a);
        assert(stream_taps(rd, a) + Seq::<Tap>::empty() =~= stream_taps(rd, a));
    } else {
        law_telemetry_is_published_in_order(rd, a, b.drop_last(), body);
        assert((a + b).drop_last() =~= a + b.drop_last());
        assert((a + b).last() == b.last());
        assert(stream_taps(rd, a + b) =~= stream_taps(rd, a) + stream_taps(
            stream_readings(rd, a),
            b,
        ));
    }
}

/// What a reader and a receiver give out is what the laws on their streams speak of.
pub proof fn law_receive_takes_in_every_message(bytes: &[u8], typ: u8, payload: &[u8])
    ensures
        forall|rx: &mut McuReader, out: Vec<Tap>| #[trigger]
            call_ensures(McuReader::receive, (rx, bytes), out) ==> {
                let bodies = crate::frame::bodies_in(rx.scanner@, bytes@);
                &&& out@ == stream_taps(rx.readings, bodies)
                &&& final(rx).readings == stream_readings(rx.readings, bodies)
                &&& final(rx).scanner@ == crate::frame::scan_all(rx.scanner@, bytes@)
            },
        forall|rx: &mut Receiver, sh: &mut Shared, out: RxOutput| #[trigger]
            call_ensures(Receiver::receive, (rx, bytes, sh), out) ==> {
                let start = RxModel {
                    readings: rx.readings,
                    shared: *sh,
                    seen: rx.log@,
                    taps: Seq::empty(),
                    pongs: Seq::empty(),
                    changes: Seq::empty(),
                };
                let end = start.after_all(
                    rx.debug,
                    crate::frame::bodies_in(rx.scanner@, bytes@),
                );
                &&& final(rx).readings == end.readings
                &&& final(rx).log@ == end.seen
                &&& final(rx).debug == rx.debug
                &&& final(rx).scanner@ == crate::frame::scan_all(rx.scanner@, bytes@)
                &&& *final(sh) == end.shared
                &&& out.taps@ == end.taps
                &&& out.pongs@.len() == end.pongs.len()
                &&& forall|i: int|
                    0 <= i < out.pongs@.len() ==> (#[trigger] out.pongs@[i])@ == end.pongs[i]
                &&& out.changes@.len() == end.changes.len()
                &&& forall|i: int|
                    0 <= i < out.changes@.len() ==> (
                        #[trigger] out.changes@[i].0,
                        out.changes@[i].1@,
                    ) == end.changes[i]
            },
        forall|log: &mut ChangeLog, r: bool| #[trigger]
            call_ensures(ChangeLog::changed, (log, typ, payload), r) ==> {
                let silent = typ == 0x01 || typ == 0x02 || typ == 0x03 || typ == 0x05 || typ == 0x12
                    || typ == 0x2c;
                let known = log@.dom().contains(typ) && log@[typ] == payload@;
                &&& r <==> !silent && !known
                &&& r ==> final(log)@ == log@.insert(typ, payload@)
                &&& !r ==> final(log)@ == log@
            },
        forall|rd: &mut Readings, m: Msg, out: &mut Vec<Tap>| #[trigger]
            call_ensures(Readings::note, (rd, &m, out), ()) ==> *final(rd) == rd.after(m)
                && final(out)@ == out@ + rd.taps(m),
{
    assert forall|rx: &mut Receiver, sh: &mut Shared, out: RxOutput| #[trigger]
        call_ensures(Receiver::receive, (rx, bytes, sh), out) implies {
        let end = rx.model(*sh).after_all(
            rx.debug,
            crate::frame::bodies_in(rx.scanner@, bytes@),
        );
        &&& out.pongs@.len() == end.pongs.len()
        &&& forall|i: int|
            0 <= i < out.pongs@.len() ==> (#[trigger] out.pongs@[i])@ == end.pongs[i]
        &&& out.changes@.len() == end.changes.len()
        &&& forall|i: int|
            0 <= i < out.changes@.len() ==> (#[trigger] out.changes@[i].0, out.changes@[i].1@)
                == end.changes[i]
    } by {
        let end = rx.model(*sh).after_all(
            rx.debug,
            crate::frame::bodies_in(rx.scanner@, bytes@),
        );
        assert forall|i: int| 0 <= i < out.pongs@.len() implies (#[trigger] out.pongs@[i])@
            == end.pongs[i] by {
            assert(out.answers()[i] == out.pongs@[i]@);
        }
        assert forall|i: int| 0 <= i < out.changes@.len() implies (
            #[trigger] out.changes@[i].0,
            out.changes@[i].1@,
        ) == end.changes[i] by {
            assert(out.changed()[i] == (out.changes@[i].0, out.changes@[i].1@));
        }
    }
}

/// How readers and receivers start: outside any packet, with no readings and nothing seen.
pub proof fn law_receivers_start_empty(debug: bool, a: McuReader, b: Receiver)
    requires
        call_ensures(McuReader::new, (), a),
        call_ensures(Receiver::new, (debug,), b),
    ensures
        a.scanner@ is Idle && b.scanner@ is Idle,
        b.debug == debug,
        b.log@ == Map::<u8, Seq<u8>>::empty(),
        a.readings == b.readings,
        a.readings.gyro_z_cdeg_s == 0 && a.readings.load == 0,
        a.readings.wheel_left == 0 && a.readings.wheel_right == 0,
{
}

} // verus!
