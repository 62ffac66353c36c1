//! The state that the drive, dock and camera commands and the telemetry share.
//!
//! Times are in milliseconds since the driver started; speeds are bit patterns of binary32
//! values (mm/s and rad/s).
use vstd::prelude::*;

use crate::binary32::is_zero;
use crate::triggers::Triggers;

verus! {

/// Automatic switching parks this long after the last motion.
pub const HOLD_MS: u64 = 3000;

/// Shared driver state.
#[derive(Debug, Clone, Copy)]
pub struct Shared {
    /// Blocks forward motion: front bumper, front/mid cliff, or a wheel drop.
    pub hazard_fwd: bool,
    /// Blocks reverse: rear/mid cliff, or a wheel drop. Split from `hazard_fwd` so the robot
    /// can back away from a front bump.
    pub hazard_rev: bool,
    /// Front bumper contact; starts the bump-escape reflex.
    pub bumper: bool,
    /// Bit 0 = left, bit 1 = right.
    pub bump_bits: u8,
    /// Turret (LDS) on.
    pub lidar_on: bool,
    /// Parked: no drive and no nav frames, turret off. The RGB camera can stream only so.
    pub observe: bool,
    /// A drive command has been given.
    pub enabled: bool,
    /// Motion-based switching is paused by a manual turret choice.
    pub auto_paused: bool,
    pub linear_bits: u32,
    pub rot_bits: u32,
    /// When the last drive command came (the drive watchdog).
    pub last_cmd_ms: u64,
    /// When the last non-zero drive command came; 0 before the first.
    pub last_move_ms: u64,
    /// Actuator levels (0..~150), sent in the periodic SetCleaning frame.
    pub side_brush: u8,
    pub main_brush: u8,
    pub fan: u8,
    pub mop: u8,
    /// Base-station function: 0 = idle, 1 = dry, 2 = wash.
    pub station: u8,
    /// Dock LCD screen code; 0 leaves the dock alone.
    pub dock_screen: u8,
    /// Raw `0x26` payload override; all-zero is none.
    pub dock_frame: [u8; 8],
}

/// The front bumpers of a trigger message.
pub open spec fn bumped(t: Triggers) -> bool {
    t.has(4) || t.has(5)
}

/// A drive wheel of a trigger message is off the ground.
pub open spec fn lifted(t: Triggers) -> bool {
    t.has(6) || t.has(7)
}

/// Nothing may drive forward: a front bump, a lift, or a front or mid cliff.
pub open spec fn blocks_forward(t: Triggers) -> bool {
    bumped(t) || lifted(t) || t.has(8) || t.has(9) || t.has(10) || t.has(11)
}

/// Nothing may drive backward: a lift, or a mid or rear cliff.
pub open spec fn blocks_reverse(t: Triggers) -> bool {
    lifted(t) || t.has(9) || t.has(10) || t.has(12) || t.has(13)
}

/// The bumpers as two bits: bit 0 = left, bit 1 = right.
pub open spec fn bump_bits_of(t: Triggers) -> u8 {
    ((if t.has(4) {
        1int
    } else {
        0
    }) + (if t.has(5) {
        2int
    } else {
        0
    })) as u8
}

/// `a - b`, or 0 where that would be negative.
pub open spec fn since(a: u64, b: u64) -> u64 {
    if a >= b {
        (a - b) as u64
    } else {
        0
    }
}

impl Shared {
    /// The state at startup. The turret spins for `/scan` unless parked, or forced off; drive
    /// is disabled until the first command.
    pub fn new(observe: bool, no_turret: bool) -> (s: Self)
        ensures
            s == (Shared {
                hazard_fwd: false,
                hazard_rev: false,
                bumper: false,
                bump_bits: 0,
                lidar_on: !observe && !no_turret,
                observe,
                enabled: false,
                auto_paused: false,
                linear_bits: 0,
                rot_bits: 0,
                last_cmd_ms: 0,
                last_move_ms: 0,
                side_brush: 0,
                main_brush: 0,
                fan: 0,
                mop: 0,
                station: 0,
                dock_screen: 0,
                dock_frame: [0, 0, 0, 0, 0, 0, 0, 0],
            }),
    {
        Shared {
            hazard_fwd: false,
            hazard_rev: false,
            bumper: false,
            bump_bits: 0,
            lidar_on: !observe && !no_turret,
            observe,
            enabled: false,
            auto_paused: false,
            linear_bits: 0,
            rot_bits: 0,
            last_cmd_ms: 0,
            last_move_ms: 0,
            side_brush: 0,
            main_brush: 0,
            fan: 0,
            mop: 0,
            station: 0,
            dock_screen: 0,
            dock_frame: [0, 0, 0, 0, 0, 0, 0, 0],
        }
    }

    /// Set a drive command (mm/s, rad/s). Latches the watchdog.
    pub fn set_drive(&mut self, now_ms: u64, linear_mm_s: u32, rot_rad_s: u32)
        ensures
            *final(self) == (Shared {
                linear_bits: linear_mm_s,
                rot_bits: rot_rad_s,
                last_cmd_ms: now_ms,
                last_move_ms: if crate::binary32::magnitude(linear_mm_s) != 0
                    || crate::binary32::magnitude(rot_rad_s) != 0 {
                    now_ms
                } else {
                    old(self).last_move_ms
                },
                enabled: true,
                ..*old(self)
            }),
    {
        self.linear_bits = linear_mm_s;
        self.rot_bits = rot_rad_s;
        self.last_cmd_ms = now_ms;
        if !is_zero(linear_mm_s) || !is_zero(rot_rad_s) {
            self.last_move_ms = now_ms;
        }
        self.enabled = true;
    }

    /// How long the robot has been without a motion command, forever before the first.
    pub open spec fn idle_for(self, now_ms: u64) -> u64 {
        if self.last_move_ms == 0 {
            u64::MAX
        } else {
            since(now_ms, self.last_move_ms)
        }
    }

    /// ms since the last non-zero drive command. `u64::MAX` before the first, so that the
    /// robot starts and stays parked.
    pub fn idle_move_ms(&self, now_ms: u64) -> (r: u64)
        ensures
            r == self.idle_for(now_ms),
    {
        let last: u64 = self.last_move_ms;
        if last == 0 {
            return u64::MAX;
        }
        now_ms.saturating_sub(last)
    }

    pub fn is_parked(&self) -> (r: bool)
        ensures
            r == self.observe,
    {
        self.observe
    }

    /// Park (turret off) or drive (turret on). Flips both together.
    pub fn set_parked(&mut self, parked: bool)
        ensures
            *final(self) == (Shared { observe: parked, lidar_on: !parked, ..*old(self) }),
    {
        self.observe = parked;
        self.lidar_on = !parked;
    }

    pub fn set_side_brush(&mut self, v: u8)
        ensures
            *final(self) == (Shared { side_brush: v, ..*old(self) }),
    {
        self.side_brush = v;
    }

    pub fn set_main_brush(&mut self, v: u8)
        ensures
            *final(self) == (Shared { main_brush: v, ..*old(self) }),
    {
        self.main_brush = v;
    }

    pub fn set_fan(&mut self, v: u8)
        ensures
            *final(self) == (Shared { fan: v, ..*old(self) }),
    {
        self.fan = v;
    }

    /// Rotating mop pads. The robot has no water pump; the base station's pump and drying fan
    /// are separate.
    pub fn set_mop(&mut self, v: u8)
        ensures
            *final(self) == (Shared { mop: v, ..*old(self) }),
    {
        self.mop = v;
    }

    /// Base-station function (0 = idle, 1 = dry, 2 = wash). A wash runs the dock water pump:
    /// do not leave it on unattended.
    pub fn set_station(&mut self, v: u8)
        ensures
            *final(self) == (Shared { station: v, ..*old(self) }),
    {
        self.station = v;
    }

    /// Dock LCD screen code. 0 leaves the dock alone; ignored while a wash/dry is running.
    pub fn set_dock_screen(&mut self, v: u8)
        ensures
            *final(self) == (Shared { dock_screen: v, ..*old(self) }),
    {
        self.dock_screen = v;
    }

    /// Raw `0x26` payload override: the first 8 bytes are sent verbatim while idle. Fewer than
    /// 8 bytes, or all-zero ones, clear it.
    pub fn set_dock_frame(&mut self, bytes: &[u8])
        ensures
            *final(self) == (Shared { dock_frame: final(self).dock_frame, ..*old(self) }),
            final(self).dock_frame@ == (if bytes@.len() >= 8 {
                bytes@.take(8)
            } else {
                seq![0u8, 0, 0, 0, 0, 0, 0, 0]
            }),
    {
        if bytes.len() >= 8 {
            self.dock_frame = [
                bytes[0],
                bytes[1],
                bytes[2],
                bytes[3],
                bytes[4],
                bytes[5],
                bytes[6],
                bytes[7],
            ];
            assert(self.dock_frame@ =~= bytes@.take(8));
        } else {
            self.dock_frame = [0, 0, 0, 0, 0, 0, 0, 0];
            assert(self.dock_frame@ =~= seq![0u8, 0, 0, 0, 0, 0, 0, 0]);
        }
    }

    /// Turret (LDS) currently commanded on (driving) vs off (parked).
    pub fn turret_on(&self) -> (r: bool)
        ensures
            r == self.lidar_on,
    {
        self.lidar_on
    }

    /// Commanded actuator levels: (fan, side_brush, main_brush, mop).
    pub fn levels(&self) -> (r: (u8, u8, u8, u8))
        ensures
            r == (self.fan, self.side_brush, self.main_brush, self.mop),
    {
        (self.fan, self.side_brush, self.main_brush, self.mop)
    }

    /// Manual turret toggle: on is the drive state, off the park state. Pauses the
    /// motion-based switch so that the choice sticks.
    pub fn set_turret(&mut self, on: bool)
        ensures
            *final(self) == (Shared {
                auto_paused: true,
                observe: !on,
                lidar_on: on,
                ..*old(self)
            }),
    {
        self.auto_paused = true;
        self.set_parked(!on);
    }

    /// Resume (true) / pause (false) the motion-based switch.
    pub fn set_auto(&mut self, on: bool)
        ensures
            *final(self) == (Shared { auto_paused: !on, ..*old(self) }),
    {
        self.auto_paused = !on;
    }

    pub fn auto_paused(&self) -> (r: bool)
        ensures
            r == self.auto_paused,
    {
        self.auto_paused
    }

    /// What the motion-based switch makes of this state.
    pub open spec fn auto_switched(self, now_ms: u64) -> Shared {
        if self.auto_paused {
            self
        } else {
            let parked = self.idle_for(now_ms) > HOLD_MS;
            if parked == self.observe {
                self
            } else {
                Shared { observe: parked, lidar_on: !parked, ..self }
            }
        }
    }

    /// One round of the motion-based switch: park once motion has been idle for `HOLD_MS`,
    /// drive while it is fresh, and do nothing while paused. Returns the new choice where it
    /// changed: true is parked.
    pub fn auto_switch(&mut self, now_ms: u64) -> (changed: Option<bool>)
        ensures
            *final(self) == old(self).auto_switched(now_ms),
            changed == (if old(self).auto_paused || (old(self).idle_for(now_ms) > HOLD_MS)
                == old(self).observe {
                None
            } else {
                Some(final(self).observe)
            }),
    {
        if self.auto_paused {
            return None;
        }
        let want: bool = self.idle_move_ms(now_ms) > HOLD_MS;
        if want != self.observe {
            self.set_parked(want);
            Some(want)
        } else {
            None
        }
    }

    /// This state with the hazards of a trigger message.
    pub open spec fn with_triggers(self, t: Triggers) -> Shared {
        Shared {
            hazard_fwd: blocks_forward(t),
            hazard_rev: blocks_reverse(t),
            bumper: bumped(t),
            bump_bits: bump_bits_of(t),
            ..self
        }
    }

    /// Directional drive gate from a trigger message. The mid floor sensors block both ways,
    /// to be safe; a front bump blocks forward only, so the robot can back away from it.
    pub fn note_triggers(&mut self, t: &Triggers)
        ensures
            *final(self) == old(self).with_triggers(*t),
    {
        let a: u8 = t.raw[0];
        let c: u8 = t.raw[1];
        proof {
            assert((a & 0x30 != 0) == ((a >> 4u8) & 1 == 1 || (a >> 5u8) & 1 == 1) && (a & 0xC0
                != 0) == ((a >> 6u8) & 1 == 1 || (a >> 7u8) & 1 == 1) && (c & 0x0F != 0) == ((c
                >> 0u8) & 1 == 1 || (c >> 1u8) & 1 == 1 || (c >> 2u8) & 1 == 1 || (c >> 3u8) & 1
                == 1) && (c & 0x36 != 0) == ((c >> 1u8) & 1 == 1 || (c >> 2u8) & 1 == 1 || (c
                >> 4u8) & 1 == 1 || (c >> 5u8) & 1 == 1) && (a >> 4u8) & 0x03 == (if (a >> 4u8) & 1
                == 1 {
                1u8
            } else {
                0u8
            }) + (if (a >> 5u8) & 1 == 1 {
                2u8
            } else {
                0u8
            })) by (bit_vector);
        }
        let bumper: bool = (a & 0x30) != 0;
        let wheel: bool = (a & 0xC0) != 0;
        let cliff_fwd: bool = (c & 0x0F) != 0;
        let cliff_rev: bool = (c & 0x36) != 0;
        self.hazard_fwd = bumper || wheel || cliff_fwd;
        self.hazard_rev = wheel || cliff_rev;
        self.bumper = bumper;
        self.bump_bits = (a >> 4u8) & 0x03;
    }
}

/// Switching follows motion: parked before the first motion command and once motion has been
/// idle for more than `HOLD_MS`, driving otherwise, and then the turret is on exactly while
/// driving if it was so before.
pub proof fn law_auto_switch_follows_motion(s: Shared, now_ms: u64)
    requires
        !s.auto_paused,
        s.lidar_on == !s.observe,
    ensures
        s.auto_switched(now_ms).observe == (s.last_move_ms == 0 || now_ms - s.last_move_ms
            > HOLD_MS),
        s.auto_switched(now_ms).lidar_on == !s.auto_switched(now_ms).observe,
        s.auto_switched(now_ms).auto_switched(now_ms) == s.auto_switched(now_ms),
{
}

/// A lift blocks both directions, and a front bump leaves the way back open.
pub proof fn law_hazards_are_directional(s: Shared, t: Triggers)
    ensures
        lifted(t) ==> s.with_triggers(t).hazard_fwd && s.with_triggers(t).hazard_rev,
        bumped(t) ==> s.with_triggers(t).hazard_fwd,
        bumped(t) && !lifted(t) && t.raw[1] == 0 ==> !s.with_triggers(t).hazard_rev,
        t.raw[0] == 0 && t.raw[1] == 0 ==> !s.with_triggers(t).hazard_fwd && !s.with_triggers(
            t,
        ).hazard_rev,
{
    crate::triggers::law_any_cliff_is_some_bit(t);
    let a = t.raw[0];
    assert(a == 0 ==> (a >> 4u8) & 1 != 1 && (a >> 5u8) & 1 != 1 && (a >> 6u8) & 1 != 1 && (a
        >> 7u8) & 1 != 1) by (bit_vector);
}

/// A turret choice made by hand sticks, whatever the motion, until switching is resumed.
pub proof fn law_manual_choice_sticks(s: Shared, on: bool, now_ms: u64)
    ensures
        ({
            let chosen = Shared { auto_paused: true, observe: !on, lidar_on: on, ..s };
            &&& chosen.auto_switched(now_ms) == chosen
            &&& (Shared { auto_paused: false, ..chosen }).auto_switched(now_ms).observe == (
            s.idle_for(now_ms) > HOLD_MS)
        }),
{
}

impl Shared {
    /// The turret rests while parked.
    pub open spec fn turret_rests(self) -> bool {
        self.observe ==> !self.lidar_on
    }
}

/// The turret rests while parked: at startup, once parked or driving is chosen, and after a
/// motion-based switch or a trigger message.
pub proof fn law_turret_rests_while_parked(
    s: Shared,
    parked: bool,
    no_turret: bool,
    now_ms: u64,
    t: Triggers,
)
    ensures
        (Shared { observe: parked, lidar_on: !parked && !no_turret, ..s }).turret_rests(),
        (Shared { observe: parked, lidar_on: !parked, ..s }).turret_rests(),
        s.turret_rests() ==> s.auto_switched(now_ms).turret_rests(),
        s.turret_rests() ==> s.with_triggers(t).turret_rests(),
{
}

proof fn lemma_two_digits(a: int)
    requires
        0 <= a < 256,
    ensures
        a / 16 % 4 == a / 16 % 2 + 2 * (a / 32 % 2),
        a / 128 % 2 == a / 128,
{
}

/// Which trigger bits block which way, one by one. Bits 4 to 11 block the way forward: the two
/// bumpers, the two wheel drops, and the front and mid floor sensors. Bits 6, 7, 9, 10, 12 and 13
/// block the way back: the wheel drops, and the mid and rear floor sensors. Bits 4 and 5 are the
/// bumpers. Nothing else of the state changes.
pub proof fn law_trigger_bits_block_ways(s: Shared, t: Triggers)
    ensures
        ({
            let a = t.raw[0] as int;
            let c = t.raw[1] as int;
            let after = s.with_triggers(t);
            &&& after.hazard_fwd <==> a / 16 % 2 == 1 || a / 32 % 2 == 1 || a / 64 % 2 == 1 || a
                / 128 % 2 == 1 || c % 2 == 1 || c / 2 % 2 == 1 || c / 4 % 2 == 1 || c / 8 % 2 == 1
            &&& after.hazard_rev <==> a / 64 % 2 == 1 || a / 128 % 2 == 1 || c / 2 % 2 == 1 || c
                / 4 % 2 == 1 || c / 16 % 2 == 1 || c / 32 % 2 == 1
            &&& after.bumper <==> a / 16 % 2 == 1 || a / 32 % 2 == 1
            &&& after.bump_bits == a / 16 % 4
            &&& after == (Shared {
                hazard_fwd: after.hazard_fwd,
                hazard_rev: after.hazard_rev,
                bumper: after.bumper,
                bump_bits: after.bump_bits,
                ..s
            })
        }),
{
    let a = t.raw[0];
    let c = t.raw[1];
    crate::triggers::law_bits_are_binary_digits(a);
    crate::triggers::law_bits_are_binary_digits(c);
    lemma_two_digits(a as int);
    assert(t.has(4) == (a as int / 16 % 2 == 1) && t.has(5) == (a as int / 32 % 2 == 1));
    assert(t.has(6) == (a as int / 64 % 2 == 1) && t.has(7) == (a as int / 128 % 2 == 1));
    assert(t.has(8) == (c as int % 2 == 1) && t.has(9) == (c as int / 2 % 2 == 1));
    assert(t.has(10) == (c as int / 4 % 2 == 1) && t.has(11) == (c as int / 8 % 2 == 1));
    assert(t.has(12) == (c as int / 16 % 2 == 1) && t.has(13) == (c as int / 32 % 2 == 1));
}

/// The switch looks at the last motion alone: parked before the first one and from 3001 ms after
/// the last one on, driving before. It leaves the choice alone while paused, and the turret alone
/// where the choice stays.
pub proof fn law_switch_parks_after_3_s(s: Shared, now_ms: u64)
    ensures
        ({
            let after = s.auto_switched(now_ms);
            let park = s.last_move_ms == 0 || now_ms - s.last_move_ms > 3000;
            &&& s.auto_paused ==> after == s
            &&& !s.auto_paused && park == s.observe ==> after == s
            &&& !s.auto_paused && park && !s.observe ==> after == (Shared {
                observe: true,
                lidar_on: false,
                ..s
            })
            &&& !s.auto_paused && !park && s.observe ==> after == (Shared {
                observe: false,
                lidar_on: true,
                ..s
            })
            &&& s.last_move_ms == 0 ==> s.idle_for(now_ms) == 0xffff_ffff_ffff_ffff
            &&& 0 < s.last_move_ms <= now_ms ==> s.idle_for(now_ms) == now_ms - s.last_move_ms
            &&& s.last_move_ms > now_ms ==> s.idle_for(now_ms) == 0
        }),
{
}

/// What a drive command leaves: its speeds and time, enabled, and its time as that of the last
/// motion where one of its speeds is other than zero.
pub proof fn law_drive_command_is_latched(now_ms: u64, linear: u32, rot: u32)
    ensures
        forall|s: &mut Shared| #[trigger]
            call_ensures(Shared::set_drive, (s, now_ms, linear, rot), ()) ==> {
                let moves = crate::binary32::value(linear) != 0 || crate::binary32::value(rot) != 0;
                &&& moves ==> final(s).last_move_ms == now_ms
                &&& !moves ==> final(s).last_move_ms == s.last_move_ms
                &&& *final(s) == (Shared {
                    linear_bits: linear,
                    rot_bits: rot,
                    last_cmd_ms: now_ms,
                    last_move_ms: final(s).last_move_ms,
                    enabled: true,
                    ..*s
                })
            },
{
    crate::binary32::law_patterns_order_as_values(linear, 0);
    crate::binary32::law_patterns_order_as_values(rot, 0);
}

/// What the choices by hand set: each its own field, and the turret with parking, off while
/// parked and on while driving.
pub proof fn law_choices_set_their_field(v: u8, on: bool)
    ensures
        forall|s: &mut Shared| #[trigger]
            call_ensures(Shared::set_side_brush, (s, v), ()) ==> *final(s) == (Shared {
                side_brush: v,
                ..*s
            }),
        forall|s: &mut Shared| #[trigger]
            call_ensures(Shared::set_main_brush, (s, v), ()) ==> *final(s) == (Shared {
                main_brush: v,
                ..*s
            }),
        forall|s: &mut Shared| #[trigger]
            call_ensures(Shared::set_fan, (s, v), ()) ==> *final(s) == (Shared { fan: v, ..*s }),
        forall|s: &mut Shared| #[trigger]
            call_ensures(Shared::set_mop, (s, v), ()) ==> *final(s) == (Shared { mop: v, ..*s }),
        forall|s: &mut Shared| #[trigger]
            call_ensures(Shared::set_station, (s, v), ()) ==> *final(s) == (Shared {
                station: v,
                ..*s
            }),
        forall|s: &mut Shared| #[trigger]
            call_ensures(Shared::set_dock_screen, (s, v), ()) ==> *final(s) == (Shared {
                dock_screen: v,
                ..*s
            }),
        forall|s: &mut Shared| #[trigger]
            call_ensures(Shared::set_parked, (s, on), ()) ==> *final(s) == (Shared {
                observe: on,
                lidar_on: !on,
                ..*s
            }),
        forall|s: &mut Shared| #[trigger]
            call_ensures(Shared::set_turret, (s, on), ()) ==> *final(s) == (Shared {
                auto_paused: true,
                observe: !on,
                lidar_on: on,
                ..*s
            }),
        forall|s: &mut Shared| #[trigger]
            call_ensures(Shared::set_auto, (s, on), ()) ==> *final(s) == (Shared {
                auto_paused: !on,
                ..*s
            }),
{
}

/// The raw override is the first eight of the bytes given, or eight zeros where there are fewer.
pub proof fn law_override_is_the_first_8_bytes(bytes: &[u8], i: int)
    requires
        0 <= i < 8,
    ensures
        forall|s: &mut Shared| #[trigger]
            call_ensures(Shared::set_dock_frame, (s, bytes), ()) ==> {
                &&& bytes@.len() >= 8 ==> final(s).dock_frame[i] == bytes@[i]
                &&& bytes@.len() < 8 ==> final(s).dock_frame[i] == 0
                &&& *final(s) == (Shared { dock_frame: final(s).dock_frame, ..*s })
            },
{
    assert forall|s: &mut Shared| #[trigger]
        call_ensures(Shared::set_dock_frame, (s, bytes), ()) implies {
        &&& bytes@.len() >= 8 ==> final(s).dock_frame[i] == bytes@[i]
        &&& bytes@.len() < 8 ==> final(s).dock_frame[i] == 0
    } by {
        assert(final(s).dock_frame@[i] == final(s).dock_frame[i]);
        assert(seq![0u8, 0, 0, 0, 0, 0, 0, 0][i] == 0) by {
            assert(i == 0 || i == 1 || i == 2 || i == 3 || i == 4 || i == 5 || i == 6 || i == 7);
        }
    }
}

/// The switch says what it chose exactly where it changed the choice, and the readers give the
/// state as it is.
pub proof fn law_switch_says_what_changed(now_ms: u64, t: &Triggers)
    ensures
        forall|s: &mut Shared, r: Option<bool>| #[trigger]
            call_ensures(Shared::auto_switch, (s, now_ms), r) ==> {
                &&& *final(s) == s.auto_switched(now_ms)
                &&& r is Some <==> final(s).observe != s.observe
                &&& r matches Some(parked) ==> parked == final(s).observe
            },
        forall|s: &mut Shared| #[trigger]
            call_ensures(Shared::note_triggers, (s, t), ()) ==> *final(s) == s.with_triggers(*t),
        forall|s: Shared, r: (u8, u8, u8, u8)| #[trigger]
            call_ensures(Shared::levels, (&s,), r) ==> r.0 == s.fan && r.1 == s.side_brush && r.2
                == s.main_brush && r.3 == s.mop,
        forall|s: Shared, r: u64| #[trigger]
            call_ensures(Shared::idle_move_ms, (&s, now_ms), r) ==> r == s.idle_for(now_ms),
        forall|s: Shared, r: bool| #[trigger]
            call_ensures(Shared::turret_on, (&s,), r) ==> r == s.lidar_on,
        forall|s: Shared, r: bool| #[trigger]
            call_ensures(Shared::is_parked, (&s,), r) ==> r == s.observe,
{
}

/// How the state starts: nothing commanded, no hazard, and the turret on exactly where the robot
/// is neither parked nor told to leave it off.
pub proof fn law_state_starts_at_rest(observe: bool, no_turret: bool, s: Shared)
    requires
        call_ensures(Shared::new, (observe, no_turret), s),
    ensures
        s.observe == observe,
        s.lidar_on == (!observe && !no_turret),
        !s.enabled && !s.auto_paused && !s.hazard_fwd && !s.hazard_rev && !s.bumper,
        s.bump_bits == 0 && s.linear_bits == 0 && s.rot_bits == 0,
        s.last_cmd_ms == 0 && s.last_move_ms == 0,
        s.side_brush == 0 && s.main_brush == 0 && s.fan == 0 && s.mop == 0,
        s.station == 0 && s.dock_screen == 0,
        s.dock_frame@ == seq![0u8, 0, 0, 0, 0, 0, 0, 0],
{
    assert(s.dock_frame@ =~= seq![0u8, 0, 0, 0, 0, 0, 0, 0]);
}

} // verus!
