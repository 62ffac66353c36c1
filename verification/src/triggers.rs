//! The `0x00` trigger message: bumpers, wheel float, cliff sensors, dock and fault flags.
use vstd::prelude::*;

verus! {

/// `0x00`: a 7-byte bitfield, sent at about 10 Hz.
///
/// Global bit `k` is `(raw[k/8] >> (k%8)) & 1` (least significant bit first). Bits 4/5 are
/// the front bumpers, bits 6/7 the wheel-float switches, bits 8-13 the six downward floor
/// sensors, bit 32 the dock contact; 40-45 are overcurrents and 48-55 faults.
#[derive(Debug, Clone, Copy, Default)]
pub struct Triggers {
    pub raw: [u8; 7],
}

/// Bit `k` (0..8) of the byte `b`, least significant first.
pub open spec fn byte_bit(b: u8, k: int) -> bool {
    (b >> (k as u8)) & 1 == 1
}

impl Triggers {
    pub const LEN: usize = 7;

    /// Global bit `k`.
    pub open spec fn has(self, k: int) -> bool {
        byte_bit(self.raw[k / 8], k % 8)
    }

    /// The 3-bit field that starts at global bit `k`, most significant bit first.
    pub open spec fn field3(self, k: int) -> u8 {
        ((if self.has(k) {
            4int
        } else {
            0
        }) + (if self.has(k + 1) {
            2int
        } else {
            0
        }) + (if self.has(k + 2) {
            1int
        } else {
            0
        })) as u8
    }

    /// The message in the payload `p`.
    pub open spec fn at(p: Seq<u8>) -> Triggers {
        Triggers { raw: [p[0], p[1], p[2], p[3], p[4], p[5], p[6]] }
    }

    pub fn parse(p: &[u8]) -> (r: Option<Self>)
        ensures
            r == (if p@.len() < 7 {
                None
            } else {
                Some(Triggers::at(p@))
            }),
    {
        if p.len() < Self::LEN {
            return None;
        }
        Some(Triggers { raw: [p[0], p[1], p[2], p[3], p[4], p[5], p[6]] })
    }

    /// Global bit `k`.
    pub fn bit(&self, k: usize) -> (r: bool)
        requires
            k < 56,
        ensures
            r == self.has(k as int),
    {
        let b: u8 = self.raw[k / 8];
        let n: u8 = (k % 8) as u8;
        assert(((b >> n) & 1 != 0) == ((b >> n) & 1 == 1)) by (bit_vector);
        (b >> n) & 1 != 0
    }

    /// 3-bit dock-IR field starting at global bit `k` (most significant bit first, as the
    /// MCU packs it).
    fn ir3(&self, k: usize) -> (r: u8)
        requires
            k < 54,
        ensures
            r == self.field3(k as int),
    {
        let a: u8 = if self.bit(k) { 4 } else { 0 };
        let b: u8 = if self.bit(k + 1) { 2 } else { 0 };
        let c: u8 = if self.bit(k + 2) { 1 } else { 0 };
        a + b + c
    }

    /// Left front bumper pressed.
    pub fn left_bumper(&self) -> (r: bool)
        ensures
            r == self.has(4),
    {
        self.bit(4)
    }

    /// Right front bumper pressed.
    pub fn right_bumper(&self) -> (r: bool)
        ensures
            r == self.has(5),
    {
        self.bit(5)
    }

    /// Left drive wheel dropped/floating (no ground).
    pub fn left_wheel_floating(&self) -> (r: bool)
        ensures
            r == self.has(6),
    {
        self.bit(6)
    }

    /// Right drive wheel dropped/floating.
    pub fn right_wheel_floating(&self) -> (r: bool)
        ensures
            r == self.has(7),
    {
        self.bit(7)
    }

    /// Cliff / floor-sensor bits (`raw[1]`): six downward sensors at bits 8-13, each set when
    /// its sensor sees no floor (a fall edge, or a lift).
    pub fn cliff_flags(&self) -> (r: u8)
        ensures
            r == self.raw[1],
    {
        self.raw[1]
    }

    /// True if any cliff / floor sensor reports no floor.
    pub fn any_cliff(&self) -> (r: bool)
        ensures
            r == (self.raw[1] != 0),
    {
        self.raw[1] != 0
    }

    /// Front-left floor sensor sees no floor.
    pub fn cliff_front_left(&self) -> (r: bool)
        ensures
            r == self.has(8),
    {
        self.bit(8)
    }

    /// Front-right floor sensor sees no floor.
    pub fn cliff_front_right(&self) -> (r: bool)
        ensures
            r == self.has(11),
    {
        self.bit(11)
    }

    /// Rear-left floor sensor sees no floor.
    pub fn cliff_rear_left(&self) -> (r: bool)
        ensures
            r == self.has(12),
    {
        self.bit(12)
    }

    /// Rear-right floor sensor sees no floor.
    pub fn cliff_rear_right(&self) -> (r: bool)
        ensures
            r == self.has(13),
    {
        self.bit(13)
    }

    /// Dock-IR field, left front.
    pub fn ir_dock_lf(&self) -> (r: u8)
        ensures
            r == self.field3(16),
    {
        self.ir3(16)
    }

    /// Dock-IR field, left mid front.
    pub fn ir_dock_lmf(&self) -> (r: u8)
        ensures
            r == self.field3(20),
    {
        self.ir3(20)
    }

    /// Dock-IR field, right mid front.
    pub fn ir_dock_rmf(&self) -> (r: u8)
        ensures
            r == self.field3(24),
    {
        self.ir3(24)
    }

    /// Dock-IR field, right front.
    pub fn ir_dock_rf(&self) -> (r: u8)
        ensures
            r == self.field3(28),
    {
        self.ir3(28)
    }

    /// On the dock.
    pub fn dock_sta(&self) -> (r: bool)
        ensures
            r == self.has(32),
    {
        self.bit(32)
    }

    /// First LDS cover button.
    pub fn lds_button1(&self) -> (r: bool)
        ensures
            r == self.has(33),
    {
        self.bit(33)
    }

    /// Second LDS cover button.
    pub fn lds_button2(&self) -> (r: bool)
        ensures
            r == self.has(34),
    {
        self.bit(34)
    }

    /// Side brush overcurrent.
    pub fn side_overcurrent(&self) -> (r: bool)
        ensures
            r == self.has(40),
    {
        self.bit(40)
    }

    /// Main brush overcurrent.
    pub fn roll_overcurrent(&self) -> (r: bool)
        ensures
            r == self.has(41),
    {
        self.bit(41)
    }

    /// Fan overcurrent.
    pub fn fan_overcurrent(&self) -> (r: bool)
        ensures
            r == self.has(42),
    {
        self.bit(42)
    }

    /// Pump overcurrent.
    pub fn pump_overcurrent(&self) -> (r: bool)
        ensures
            r == self.has(43),
    {
        self.bit(43)
    }

    /// Left wheel overcurrent.
    pub fn left_wheel_overcurrent(&self) -> (r: bool)
        ensures
            r == self.has(44),
    {
        self.bit(44)
    }

    /// Right wheel overcurrent.
    pub fn right_wheel_overcurrent(&self) -> (r: bool)
        ensures
            r == self.has(45),
    {
        self.bit(45)
    }

    /// LDS fault.
    pub fn lidar_error(&self) -> (r: bool)
        ensures
            r == self.has(48),
    {
        self.bit(48)
    }

    /// Fan fault.
    pub fn fan_error(&self) -> (r: bool)
        ensures
            r == self.has(49),
    {
        self.bit(49)
    }

    /// Left wheel speed fault.
    pub fn left_vel_error(&self) -> (r: bool)
        ensures
            r == self.has(50),
    {
        self.bit(50)
    }

    /// Right wheel speed fault.
    pub fn right_vel_error(&self) -> (r: bool)
        ensures
            r == self.has(51),
    {
        self.bit(51)
    }

    /// IMU fault.
    pub fn imu_error(&self) -> (r: bool)
        ensures
            r == self.has(54),
    {
        self.bit(54)
    }

    /// Charging fault.
    pub fn charge_error(&self) -> (r: bool)
        ensures
            r == self.has(55),
    {
        self.bit(55)
    }
}

/// Bit `k` of a byte is its binary digit of weight `2^k`.
pub proof fn law_bits_are_binary_digits(b: u8)
    ensures
        byte_bit(b, 0) == (b % 2 == 1),
        byte_bit(b, 1) == (b / 2 % 2 == 1),
        byte_bit(b, 2) == (b / 4 % 2 == 1),
        byte_bit(b, 3) == (b / 8 % 2 == 1),
        byte_bit(b, 4) == (b / 16 % 2 == 1),
        byte_bit(b, 5) == (b / 32 % 2 == 1),
        byte_bit(b, 6) == (b / 64 % 2 == 1),
        byte_bit(b, 7) == (b / 128 == 1),
{
    assert((b >> 0u8) & 1 == b % 2 && (b >> 1u8) & 1 == b / 2 % 2 && (b >> 2u8) & 1 == b / 4 % 2
        && (b >> 3u8) & 1 == b / 8 % 2 && (b >> 4u8) & 1 == b / 16 % 2 && (b >> 5u8) & 1 == b / 32
        % 2 && (b >> 6u8) & 1 == b / 64 % 2 && (b >> 7u8) & 1 == b / 128) by (bit_vector);
}

/// The weight of bit `k` of a byte.
pub open spec fn weight(k: int) -> int {
    seq![1int, 2, 4, 8, 16, 32, 64, 128][k]
}

/// Global bit `k` of a trigger message is the binary digit of weight `2^(k % 8)` of byte `k / 8`
/// of its payload, and a 3-bit field has its first bit weigh most.
pub proof fn law_trigger_bits_stand_in_the_payload(p: Seq<u8>, k: int)
    requires
        p.len() >= 7,
        0 <= k < 56,
    ensures
        Triggers::at(p).has(k) == (p[k / 8] as int / weight(k % 8) % 2 == 1),
        k + 2 < 56 ==> Triggers::at(p).field3(k) == 4 * (p[k / 8] as int / weight(k % 8) % 2) + 2
            * (p[(k + 1) / 8] as int / weight((k + 1) % 8) % 2) + p[(k + 2) / 8] as int / weight(
            (k + 2) % 8,
        ) % 2,
{
    lemma_trigger_bit(p, k);
    if k + 2 < 56 {
        lemma_trigger_bit(p, k + 1);
        lemma_trigger_bit(p, k + 2);
    }
}

proof fn lemma_trigger_bit(p: Seq<u8>, k: int)
    requires
        p.len() >= 7,
        0 <= k < 56,
    ensures
        Triggers::at(p).has(k) == (p[k / 8] as int / weight(k % 8) % 2 == 1),
        0 <= p[k / 8] as int / weight(k % 8) % 2 <= 1,
{
    law_bits_are_binary_digits(p[k / 8]);
    let raw = Triggers::at(p).raw;
    assert(raw@ =~= p.take(7));
    assert(raw[k / 8] == p[k / 8]);
    let b = p[k / 8] as int;
    assert(weight(0) == 1 && weight(1) == 2 && weight(2) == 4 && weight(3) == 8 && weight(4) == 16
        && weight(5) == 32 && weight(6) == 64 && weight(7) == 128);
    assert(b / 1 == b && b / 128 % 2 == b / 128);
    if k % 8 < 4 {
        assert(k % 8 == 0 || k % 8 == 1 || k % 8 == 2 || k % 8 == 3);
    } else {
        assert(k % 8 == 4 || k % 8 == 5 || k % 8 == 6 || k % 8 == 7);
    }
}

/// A cliff is reported exactly when one of the global bits 8..16 is set.
pub proof fn law_any_cliff_is_some_bit(t: Triggers)
    ensures
        t.raw[1] != 0 <==> exists|k: int| 8 <= k < 16 && #[trigger] t.has(k),
{
    let b = t.raw[1];
    assert(b != 0 <==> (b >> 0u8) & 1 == 1 || (b >> 1u8) & 1 == 1 || (b >> 2u8) & 1 == 1 || (b
        >> 3u8) & 1 == 1 || (b >> 4u8) & 1 == 1 || (b >> 5u8) & 1 == 1 || (b >> 6u8) & 1 == 1 || (b
        >> 7u8) & 1 == 1) by (bit_vector);
    assert(t.has(8) == ((b >> 0u8) & 1 == 1));
    assert(t.has(9) == ((b >> 1u8) & 1 == 1));
    assert(t.has(10) == ((b >> 2u8) & 1 == 1));
    assert(t.has(11) == ((b >> 3u8) & 1 == 1));
    assert(t.has(12) == ((b >> 4u8) & 1 == 1));
    assert(t.has(13) == ((b >> 5u8) & 1 == 1));
    assert(t.has(14) == ((b >> 6u8) & 1 == 1));
    assert(t.has(15) == ((b >> 7u8) & 1 == 1));
}

/// Which binary digit each contact and floor sensor is.
pub proof fn law_sensors_have_their_digits(t: Triggers)
    ensures
        forall|r: bool| #[trigger]
            call_ensures(Triggers::left_bumper, (&t,), r) ==> r == (t.raw[0] / 16 % 2 == 1),
        forall|r: bool| #[trigger]
            call_ensures(Triggers::right_bumper, (&t,), r) ==> r == (t.raw[0] / 32 % 2 == 1),
        forall|r: bool| #[trigger]
            call_ensures(Triggers::left_wheel_floating, (&t,), r) ==> r == (t.raw[0] / 64 % 2 == 1),
        forall|r: bool| #[trigger]
            call_ensures(Triggers::right_wheel_floating, (&t,), r) ==> r
                == (t.raw[0] / 128 % 2 == 1),
        forall|r: bool| #[trigger]
            call_ensures(Triggers::cliff_front_left, (&t,), r) ==> r == (t.raw[1] % 2 == 1),
        forall|r: bool| #[trigger]
            call_ensures(Triggers::cliff_front_right, (&t,), r) ==> r == (t.raw[1] / 8 % 2 == 1),
        forall|r: bool| #[trigger]
            call_ensures(Triggers::cliff_rear_left, (&t,), r) ==> r == (t.raw[1] / 16 % 2 == 1),
        forall|r: bool| #[trigger]
            call_ensures(Triggers::cliff_rear_right, (&t,), r) ==> r == (t.raw[1] / 32 % 2 == 1),
        forall|r: bool| #[trigger]
            call_ensures(Triggers::dock_sta, (&t,), r) ==> r == (t.raw[4] % 2 == 1),
        forall|r: bool| #[trigger]
            call_ensures(Triggers::lds_button1, (&t,), r) ==> r == (t.raw[4] / 2 % 2 == 1),
        forall|r: bool| #[trigger]
            call_ensures(Triggers::lds_button2, (&t,), r) ==> r == (t.raw[4] / 4 % 2 == 1),
        forall|r: u8| #[trigger]
            call_ensures(Triggers::cliff_flags, (&t,), r) ==> r == t.raw[1],
        forall|r: bool| #[trigger]
            call_ensures(Triggers::any_cliff, (&t,), r) ==> r == (t.raw[1] > 0),
{
    law_bits_are_binary_digits(t.raw[0]);
    law_bits_are_binary_digits(t.raw[1]);
    law_bits_are_binary_digits(t.raw[4]);
}

/// Which binary digit each overcurrent and fault is.
pub proof fn law_faults_have_their_digits(t: Triggers)
    ensures
        forall|r: bool| #[trigger]
            call_ensures(Triggers::side_overcurrent, (&t,), r) ==> r == (t.raw[5] % 2 == 1),
        forall|r: bool| #[trigger]
            call_ensures(Triggers::roll_overcurrent, (&t,), r) ==> r == (t.raw[5] / 2 % 2 == 1),
        forall|r: bool| #[trigger]
            call_ensures(Triggers::fan_overcurrent, (&t,), r) ==> r == (t.raw[5] / 4 % 2 == 1),
        forall|r: bool| #[trigger]
            call_ensures(Triggers::pump_overcurrent, (&t,), r) ==> r == (t.raw[5] / 8 % 2 == 1),
        forall|r: bool| #[trigger]
            call_ensures(Triggers::left_wheel_overcurrent, (&t,), r) ==> r
                == (t.raw[5] / 16 % 2 == 1),
        forall|r: bool| #[trigger]
            call_ensures(Triggers::right_wheel_overcurrent, (&t,), r) ==> r
                == (t.raw[5] / 32 % 2 == 1),
        forall|r: bool| #[trigger]
            call_ensures(Triggers::lidar_error, (&t,), r) ==> r == (t.raw[6] % 2 == 1),
        forall|r: bool| #[trigger]
            call_ensures(Triggers::fan_error, (&t,), r) ==> r == (t.raw[6] / 2 % 2 == 1),
        forall|r: bool| #[trigger]
            call_ensures(Triggers::left_vel_error, (&t,), r) ==> r == (t.raw[6] / 4 % 2 == 1),
        forall|r: bool| #[trigger]
            call_ensures(Triggers::right_vel_error, (&t,), r) ==> r == (t.raw[6] / 8 % 2 == 1),
        forall|r: bool| #[trigger]
            call_ensures(Triggers::imu_error, (&t,), r) ==> r == (t.raw[6] / 64 % 2 == 1),
        forall|r: bool| #[trigger]
            call_ensures(Triggers::charge_error, (&t,), r) ==> r == (t.raw[6] / 128 % 2 == 1),
{
    law_bits_are_binary_digits(t.raw[5]);
    law_bits_are_binary_digits(t.raw[6]);
}

/// Which three binary digits each field of the dock's infrared signals is, the first of which
/// weighs most.
pub proof fn law_dock_signals_have_their_digits(t: Triggers)
    ensures
        forall|r: u8| #[trigger]
            call_ensures(Triggers::ir_dock_lf, (&t,), r) ==> r
                == 4 * (t.raw[2] % 2) + 2 * (t.raw[2] / 2 % 2) + t.raw[2] / 4 % 2,
        forall|r: u8| #[trigger]
            call_ensures(Triggers::ir_dock_lmf, (&t,), r) ==> r
                == 4 * (t.raw[2] / 16 % 2) + 2 * (t.raw[2] / 32 % 2) + t.raw[2] / 64 % 2,
        forall|r: u8| #[trigger]
            call_ensures(Triggers::ir_dock_rmf, (&t,), r) ==> r
                == 4 * (t.raw[3] % 2) + 2 * (t.raw[3] / 2 % 2) + t.raw[3] / 4 % 2,
        forall|r: u8| #[trigger]
            call_ensures(Triggers::ir_dock_rf, (&t,), r) ==> r
                == 4 * (t.raw[3] / 16 % 2) + 2 * (t.raw[3] / 32 % 2) + t.raw[3] / 64 % 2,
{
    law_bits_are_binary_digits(t.raw[2]);
    law_bits_are_binary_digits(t.raw[3]);
}

/// A trigger message is the first seven bytes of its payload, where there are as many.
pub proof fn law_triggers_are_seven_bytes(p: &[u8], r: Option<Triggers>)
    requires
        call_ensures(Triggers::parse, (p,), r),
    ensures
        p@.len() < 7 ==> r is None,
        p@.len() >= 7 ==> (r matches Some(t) && t.raw@ == p@.take(7)),
{
    if p@.len() >= 7 {
        assert(Triggers::at(p@).raw@ =~= p@.take(7));
    }
}

/// `bit` reads any of the 56 binary digits, byte by byte and the lowest first.
pub proof fn law_bit_reads_any_digit(t: Triggers, k: usize, r: bool)
    requires
        call_ensures(Triggers::bit, (&t, k), r),
        k < 56,
    ensures
        r == (t.raw@[k as int / 8] as int / weight(k as int % 8) % 2 == 1),
{
    assert(Triggers::at(t.raw@).raw =~= t.raw);
    lemma_trigger_bit(t.raw@, k as int);
}

} // verus!
