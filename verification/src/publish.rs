//! What is published of the triggers and of the commanded state.
use vstd::prelude::*;

use crate::receiver::Tap;
use crate::shared::Shared;

verus! {

/// The topics of a trigger message.
#[derive(Debug, Clone, Copy, PartialEq, Eq)]
pub struct TriggerReport {
    pub dock: bool,
    /// Either bumper.
    pub bumper: bool,
    /// Bit 0 = left, bit 1 = right.
    pub bumper_flags: u8,
    /// Any floor sensor.
    pub cliff: bool,
    pub cliff_flags: u8,
    /// Front left, mid left, mid right, front right, rear left, rear right.
    pub cliffs: [bool; 6],
    /// Bit 0 = left, bit 1 = right.
    pub wheel_drop_flags: u8,
    pub fan_overcurrent: bool,
}

fn bit(b: u8, k: u8) -> (r: bool)
    requires
        k < 8,
    ensures
        r == crate::triggers::byte_bit(b, k as int),
{
    assert(((b >> k) & 1 != 0) == ((b >> k) & 1 == 1)) by (bit_vector);
    (b >> k) & 1 != 0
}

/// The topics of a trigger message, from its flags.
pub fn trigger_report(
    dock: bool,
    bumper_bits: u8,
    cliff_bits: u8,
    wheel_bits: u8,
    fan_oc: bool,
) -> (r: TriggerReport)
    ensures
        r.dock == dock,
        r.bumper == (bumper_bits != 0),
        r.bumper_flags == bumper_bits,
        r.cliff == (cliff_bits != 0),
        r.cliff_flags == cliff_bits,
        forall|k: int| 0 <= k < 6 ==> #[trigger] r.cliffs@[k] == crate::triggers::byte_bit(cliff_bits, k),
        r.wheel_drop_flags == wheel_bits,
        r.fan_overcurrent == fan_oc,
{
    TriggerReport {
        dock,
        bumper: bumper_bits != 0,
        bumper_flags: bumper_bits,
        cliff: cliff_bits != 0,
        cliff_flags: cliff_bits,
        cliffs: [
            bit(cliff_bits, 0),
            bit(cliff_bits, 1),
            bit(cliff_bits, 2),
            bit(cliff_bits, 3),
            bit(cliff_bits, 4),
            bit(cliff_bits, 5),
        ],
        wheel_drop_flags: wheel_bits,
        fan_overcurrent: fan_oc,
    }
}

/// The mode that is published: the robot drives with the turret on, and parks with it off.
pub fn mode_name(turret: bool) -> (r: &'static str)
    ensures
        r@ == (if turret {
            "DRIVING"@
        } else {
            "PARKED"@
        }),
{
    if turret {
        "DRIVING"
    } else {
        "PARKED"
    }
}

/// The commanded turret and actuator levels, to be published.
pub fn state_tap(sh: &Shared) -> (t: Tap)
    ensures
        t == (Tap::State {
            turret: sh.lidar_on,
            fan: sh.fan,
            side_brush: sh.side_brush,
            main_brush: sh.main_brush,
            mop: sh.mop,
        }),
{
    let (fan, side_brush, main_brush, mop): (u8, u8, u8, u8) = sh.levels();
    Tap::State { turret: sh.turret_on(), fan, side_brush, main_brush, mop }
}

/// The six floor sensors are published as the trigger message has them: flag `k` is its global
/// bit `8 + k`, and the aggregate is set exactly if one of the six is.
pub proof fn law_cliff_flags_follow_the_sensors(t: crate::triggers::Triggers, k: int)
    requires
        0 <= k < 6,
    ensures
        crate::triggers::byte_bit((t.raw[1] % 64) as u8, k) == t.has(8 + k),
        (t.raw[1] % 64) as u8 != 0 <==> t.has(8) || t.has(9) || t.has(10) || t.has(11) || t.has(12)
            || t.has(13),
{
    let b = t.raw[1];
    let n = k as u8;
    assert(((b % 64) >> n) & 1 == (b >> n) & 1 && (b % 64 != 0) == ((b >> 0u8) & 1 == 1 || (b
        >> 1u8) & 1 == 1 || (b >> 2u8) & 1 == 1 || (b >> 3u8) & 1 == 1 || (b >> 4u8) & 1 == 1 || (b
        >> 5u8) & 1 == 1)) by (bit_vector)
        requires
            n < 6,
    ;
}

/// What is published of a trigger message is what its flags say, each by itself.
pub proof fn law_report_says_each_flag(
    dock: bool,
    bumper_bits: u8,
    cliff_bits: u8,
    wheel_bits: u8,
    fan_oc: bool,
    r: TriggerReport,
)
    requires
        call_ensures(trigger_report, (dock, bumper_bits, cliff_bits, wheel_bits, fan_oc), r),
    ensures
        r.dock == dock && r.fan_overcurrent == fan_oc,
        r.bumper_flags == bumper_bits && r.cliff_flags == cliff_bits && r.wheel_drop_flags
            == wheel_bits,
        r.bumper <==> bumper_bits > 0,
        r.cliff <==> cliff_bits > 0,
        r.cliffs[0] == (cliff_bits % 2 == 1),
        r.cliffs[1] == (cliff_bits / 2 % 2 == 1),
        r.cliffs[2] == (cliff_bits / 4 % 2 == 1),
        r.cliffs[3] == (cliff_bits / 8 % 2 == 1),
        r.cliffs[4] == (cliff_bits / 16 % 2 == 1),
        r.cliffs[5] == (cliff_bits / 32 % 2 == 1),
{
    crate::triggers::law_bits_are_binary_digits(cliff_bits);
    assert(r.cliffs@[0] == r.cliffs[0] && r.cliffs@[1] == r.cliffs[1] && r.cliffs@[2]
        == r.cliffs[2]);
    assert(r.cliffs@[3] == r.cliffs[3] && r.cliffs@[4] == r.cliffs[4] && r.cliffs@[5]
        == r.cliffs[5]);
}

/// The published mode and levels are those of the shared state.
pub proof fn law_published_state(sh: Shared, t: Tap, on: &'static str, off: &'static str)
    requires
        call_ensures(state_tap, (&sh,), t),
        call_ensures(mode_name, (true,), on),
        call_ensures(mode_name, (false,), off),
    ensures
        t matches Tap::State { turret, fan, side_brush, main_brush, mop } && turret == sh.lidar_on
            && fan == sh.fan && side_brush == sh.side_brush && main_brush == sh.main_brush && mop
            == sh.mop,
        on@ == seq!['D', 'R', 'I', 'V', 'I', 'N', 'G'],
        off@ == seq!['P', 'A', 'R', 'K', 'E', 'D'],
{
    reveal_strlit("DRIVING");
    reveal_strlit("PARKED");
    assert("DRIVING"@ =~= seq!['D', 'R', 'I', 'V', 'I', 'N', 'G']);
    assert("PARKED"@ =~= seq!['P', 'A', 'R', 'K', 'E', 'D']);
}

} // verus!
