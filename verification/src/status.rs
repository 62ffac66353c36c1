//! Decoded status, battery and ping messages from the MCU.
//!
//! The parsers read the known prefix of a payload and ignore trailing bytes.
use vstd::prelude::*;

use crate::bytes::{i16le, i32le, i8le, u16le, u32le};

verus! {

/// `0x01` @20ms: pose and velocity (30 bytes on the W10). Offsets 16..19 are reserved and
/// read `0xA5A5A5A5` at rest.
#[derive(Debug, Clone, Copy, Default)]
pub struct Status20ms {
    pub timestamp_us: u32,
    /// x, tenths of a mm
    pub x_mm10: i32,
    /// y, tenths of a mm
    pub y_mm10: i32,
    /// centidegrees
    pub yaw_cdeg: i16,
    pub yaw_integral: i16,
    pub left_vel: i16,
    pub right_vel: i16,
    pub edge_dis_mm: i16,
    pub roller_current: i16,
    pub sidebrush_current: i16,
}

impl Status20ms {
    pub const MIN_LEN: usize = 30;

    /// The message in the payload `p`.
    pub open spec fn at(p: Seq<u8>) -> Status20ms {
        Status20ms {
            timestamp_us: crate::bytes::u32_at(p, 0),
            x_mm10: crate::bytes::i32_at(p, 4),
            y_mm10: crate::bytes::i32_at(p, 8),
            yaw_cdeg: crate::bytes::i16_at(p, 12),
            yaw_integral: crate::bytes::i16_at(p, 14),
            left_vel: crate::bytes::i16_at(p, 20),
            right_vel: crate::bytes::i16_at(p, 22),
            edge_dis_mm: crate::bytes::i16_at(p, 24),
            roller_current: crate::bytes::i16_at(p, 26),
            sidebrush_current: crate::bytes::i16_at(p, 28),
        }
    }

    pub fn parse(p: &[u8]) -> (r: Option<Self>)
        ensures
            r == (if p@.len() < 30 {
                None
            } else {
                Some(Status20ms::at(p@))
            }),
    {
        if p.len() < Self::MIN_LEN {
            return None;
        }
        Some(
            Status20ms {
                timestamp_us: u32le(p, 0),
                x_mm10: i32le(p, 4),
                y_mm10: i32le(p, 8),
                yaw_cdeg: i16le(p, 12),
                yaw_integral: i16le(p, 14),
                left_vel: i16le(p, 20),
                right_vel: i16le(p, 22),
                edge_dis_mm: i16le(p, 24),
                roller_current: i16le(p, 26),
                sidebrush_current: i16le(p, 28),
            },
        )
    }
}

/// `0x02` @10ms: IMU and wheel odometry increments (18 bytes). The gyro is in centi-deg/s;
/// the accelerometer is raw at +/-2g full scale.
#[derive(Debug, Clone, Copy, Default)]
pub struct Status10ms {
    pub timestamp_us: u32,
    /// centi-deg/s (index 2 = yaw rate)
    pub gyro_cdeg_s: [i16; 3],
    /// raw LSB, +/-2g full scale (16384 LSB/g)
    pub accel_raw: [i16; 3],
    /// signed wheel distance increment since the last packet
    pub left_dis_mm: i8,
    pub right_dis_mm: i8,
}

impl Status10ms {
    pub const MIN_LEN: usize = 18;

    /// The message in the payload `p`.
    pub open spec fn at(p: Seq<u8>) -> Status10ms {
        Status10ms {
            timestamp_us: crate::bytes::u32_at(p, 0),
            gyro_cdeg_s: [
                crate::bytes::i16_at(p, 4),
                crate::bytes::i16_at(p, 6),
                crate::bytes::i16_at(p, 8),
            ],
            accel_raw: [
                crate::bytes::i16_at(p, 10),
                crate::bytes::i16_at(p, 12),
                crate::bytes::i16_at(p, 14),
            ],
            left_dis_mm: crate::bytes::i8_at(p, 16),
            right_dis_mm: crate::bytes::i8_at(p, 17),
        }
    }

    pub fn parse(p: &[u8]) -> (r: Option<Self>)
        ensures
            r == (if p@.len() < 18 {
                None
            } else {
                Some(Status10ms::at(p@))
            }),
    {
        if p.len() < Self::MIN_LEN {
            return None;
        }
        Some(
            Status10ms {
                timestamp_us: u32le(p, 0),
                gyro_cdeg_s: [i16le(p, 4), i16le(p, 6), i16le(p, 8)],
                accel_raw: [i16le(p, 10), i16le(p, 12), i16le(p, 14)],
                left_dis_mm: i8le(p, 16),
                right_dis_mm: i8le(p, 17),
            },
        )
    }
}

/// `0x03` @100ms: tilt, wheel currents, load, consumable flags (11 bytes on the W10).
#[derive(Debug, Clone, Copy, Default)]
pub struct Status100ms {
    /// deci-degrees
    pub pitch_ddeg: i16,
    pub roll_ddeg: i16,
    /// ~0 at rest, ~300-430 spinning
    pub left_current: i16,
    pub right_current: i16,
    /// pump/mop-load current candidate
    pub load: i16,
    /// consumables/attachment bitfield
    pub flags: u8,
}

impl Status100ms {
    pub const MIN_LEN: usize = 11;

    /// The message in the payload `p`.
    pub open spec fn at(p: Seq<u8>) -> Status100ms {
        Status100ms {
            pitch_ddeg: crate::bytes::i16_at(p, 0),
            roll_ddeg: crate::bytes::i16_at(p, 2),
            left_current: crate::bytes::i16_at(p, 4),
            right_current: crate::bytes::i16_at(p, 6),
            load: crate::bytes::i16_at(p, 8),
            flags: p[10],
        }
    }

    pub fn parse(p: &[u8]) -> (r: Option<Self>)
        ensures
            r == (if p@.len() < 11 {
                None
            } else {
                Some(Status100ms::at(p@))
            }),
    {
        if p.len() < Self::MIN_LEN {
            return None;
        }
        Some(
            Status100ms {
                pitch_ddeg: i16le(p, 0),
                roll_ddeg: i16le(p, 2),
                left_current: i16le(p, 4),
                right_current: i16le(p, 6),
                load: i16le(p, 8),
                flags: p[10],
            },
        )
    }

    /// Bit 0 of `flags`: true when the dust bin is removed.
    pub fn dust_container_missing(&self) -> (r: bool)
        ensures
            r == (self.flags % 2 == 1),
    {
        let f: u8 = self.flags;
        proof {
            lemma_flag_bits(f);
        }
        f & 1 != 0
    }

    /// Bit 1 of `flags`.
    pub fn water_tank_installed(&self) -> (r: bool)
        ensures
            r == (self.flags / 2 % 2 == 1),
    {
        let f: u8 = self.flags;
        proof {
            lemma_flag_bits(f);
        }
        f & 2 != 0
    }

    /// Bit 2 of `flags`.
    pub fn hepa_state(&self) -> (r: bool)
        ensures
            r == (self.flags / 4 % 2 == 1),
    {
        let f: u8 = self.flags;
        proof {
            lemma_flag_bits(f);
        }
        f & 4 != 0
    }

    /// Bit 3 of `flags`.
    pub fn carpet_state(&self) -> (r: bool)
        ensures
            r == (self.flags / 8 % 2 == 1),
    {
        let f: u8 = self.flags;
        proof {
            lemma_flag_bits(f);
        }
        f & 8 != 0
    }
}

/// The low four bits of a byte as its binary digits.
proof fn lemma_flag_bits(f: u8)
    ensures
        (f & 1 != 0) == (f % 2 == 1),
        (f & 2 != 0) == (f / 2 % 2 == 1),
        (f & 4 != 0) == (f / 4 % 2 == 1),
        (f & 8 != 0) == (f / 8 % 2 == 1),
{
    assert((f & 1 != 0) == (f % 2 == 1) && (f & 2 != 0) == (f / 2 % 2 == 1) && (f & 4 != 0) == (f
        / 4 % 2 == 1) && (f & 8 != 0) == (f / 8 % 2 == 1)) by (bit_vector);
}

/// `0x2b`: battery and charge (12 bytes on the W10, of which 10 are read).
#[derive(Debug, Clone, Copy, Default)]
pub struct Battery {
    pub voltage_mv: u16,
    pub current_ma: u16,
    /// deci-degrees C
    pub temperature_ddeg: i16,
    pub charge_voltage_mv: u16,
    /// state of charge, percent (0..100)
    pub soc_pct: i16,
}

/// A charge voltage above this many mV means that the charger is connected.
pub const CHARGING_ABOVE_MV: u16 = 1000;

/// `sensor_msgs/BatteryState` power supply status codes.
pub const POWER_SUPPLY_STATUS_CHARGING: u8 = 1;

pub const POWER_SUPPLY_STATUS_DISCHARGING: u8 = 2;

impl Battery {
    pub const MIN_LEN: usize = 10;

    /// The message in the payload `p`.
    pub open spec fn at(p: Seq<u8>) -> Battery {
        Battery {
            voltage_mv: crate::bytes::u16_at(p, 0),
            current_ma: crate::bytes::u16_at(p, 2),
            temperature_ddeg: crate::bytes::i16_at(p, 4),
            charge_voltage_mv: crate::bytes::u16_at(p, 6),
            soc_pct: crate::bytes::i16_at(p, 8),
        }
    }

    pub fn parse(p: &[u8]) -> (r: Option<Self>)
        ensures
            r == (if p@.len() < 10 {
                None
            } else {
                Some(Battery::at(p@))
            }),
    {
        if p.len() < Self::MIN_LEN {
            return None;
        }
        Some(
            Battery {
                voltage_mv: u16le(p, 0),
                current_ma: u16le(p, 2),
                temperature_ddeg: i16le(p, 4),
                charge_voltage_mv: u16le(p, 6),
                soc_pct: i16le(p, 8),
            },
        )
    }

    /// Charging or discharging, as a power supply status code.
    pub fn power_supply_status(&self) -> (r: u8)
        ensures
            r == (if self.charge_voltage_mv > 1000 {
                1u8
            } else {
                2u8
            }),
    {
        if self.charge_voltage_mv > CHARGING_ABOVE_MV {
            POWER_SUPPLY_STATUS_CHARGING
        } else {
            POWER_SUPPLY_STATUS_DISCHARGING
        }
    }

    /// State of charge in percent, held to 0..=100.
    pub fn charge_pct(&self) -> (r: u8)
        ensures
            r == (if self.soc_pct < 0 {
                0
            } else if self.soc_pct > 100 {
                100
            } else {
                self.soc_pct as int
            }),
    {
        if self.soc_pct < 0 {
            0
        } else if self.soc_pct > 100 {
            100
        } else {
            self.soc_pct as u8
        }
    }
}

/// `0x0F`: MCU latency ping. It must be answered with a `0x0F` pong, or the MCU flags a com
/// fault.
#[derive(Debug, Clone, Copy, Default)]
pub struct Ping {
    pub timestamp: u32,
    pub com_delay: u32,
}

impl Ping {
    /// The message in the payload `p`.
    pub open spec fn at(p: Seq<u8>) -> Ping {
        Ping { timestamp: crate::bytes::u32_at(p, 0), com_delay: crate::bytes::u32_at(p, 4) }
    }

    pub fn parse(p: &[u8]) -> (r: Option<Self>)
        ensures
            r == (if p@.len() < 8 {
                None
            } else {
                Some(Ping::at(p@))
            }),
    {
        if p.len() < 8 {
            return None;
        }
        Some(Ping { timestamp: u32le(p, 0), com_delay: u32le(p, 4) })
    }
}

/// Where the fields of a `0x01` message stand in its payload.
pub proof fn law_status20ms_layout(p: Seq<u8>)
    requires
        p.len() >= 30,
    ensures
        ({
            let s = Status20ms::at(p);
            &&& s.timestamp_us == p[0] + 256 * p[1] + 65536 * p[2] + 16777216 * p[3]
            &&& (s.x_mm10 - p[4] - 256 * p[5] - 65536 * p[6] - 16777216 * p[7]) % 4294967296 == 0
            &&& (s.y_mm10 - p[8] - 256 * p[9] - 65536 * p[10] - 16777216 * p[11]) % 4294967296 == 0
            &&& (s.yaw_cdeg - p[12] - 256 * p[13]) % 65536 == 0
            &&& (s.yaw_integral - p[14] - 256 * p[15]) % 65536 == 0
            &&& (s.left_vel - p[20] - 256 * p[21]) % 65536 == 0
            &&& (s.right_vel - p[22] - 256 * p[23]) % 65536 == 0
            &&& (s.edge_dis_mm - p[24] - 256 * p[25]) % 65536 == 0
            &&& (s.roller_current - p[26] - 256 * p[27]) % 65536 == 0
            &&& (s.sidebrush_current - p[28] - 256 * p[29]) % 65536 == 0
        }),
{
}

/// Where the fields of a `0x02` message stand in its payload.
pub proof fn law_status10ms_layout(p: Seq<u8>)
    requires
        p.len() >= 18,
    ensures
        ({
            let s = Status10ms::at(p);
            &&& s.timestamp_us == p[0] + 256 * p[1] + 65536 * p[2] + 16777216 * p[3]
            &&& (s.gyro_cdeg_s[0] - p[4] - 256 * p[5]) % 65536 == 0
            &&& (s.gyro_cdeg_s[1] - p[6] - 256 * p[7]) % 65536 == 0
            &&& (s.gyro_cdeg_s[2] - p[8] - 256 * p[9]) % 65536 == 0
            &&& (s.accel_raw[0] - p[10] - 256 * p[11]) % 65536 == 0
            &&& (s.accel_raw[1] - p[12] - 256 * p[13]) % 65536 == 0
            &&& (s.accel_raw[2] - p[14] - 256 * p[15]) % 65536 == 0
            &&& (s.left_dis_mm - p[16]) % 256 == 0
            &&& (s.right_dis_mm - p[17]) % 256 == 0
        }),
{
}

/// Where the fields of a `0x03` message stand in its payload.
pub proof fn law_status100ms_layout(p: Seq<u8>)
    requires
        p.len() >= 11,
    ensures
        ({
            let s = Status100ms::at(p);
            &&& (s.pitch_ddeg - p[0] - 256 * p[1]) % 65536 == 0
            &&& (s.roll_ddeg - p[2] - 256 * p[3]) % 65536 == 0
            &&& (s.left_current - p[4] - 256 * p[5]) % 65536 == 0
            &&& (s.right_current - p[6] - 256 * p[7]) % 65536 == 0
            &&& (s.load - p[8] - 256 * p[9]) % 65536 == 0
            &&& s.flags == p[10]
        }),
{
}

/// Where the fields of a `0x2b` message stand in its payload.
pub proof fn law_battery_layout(p: Seq<u8>)
    requires
        p.len() >= 10,
    ensures
        ({
            let b = Battery::at(p);
            &&& b.voltage_mv == p[0] + 256 * p[1]
            &&& b.current_ma == p[2] + 256 * p[3]
            &&& (b.temperature_ddeg - p[4] - 256 * p[5]) % 65536 == 0
            &&& b.charge_voltage_mv == p[6] + 256 * p[7]
            &&& (b.soc_pct - p[8] - 256 * p[9]) % 65536 == 0
        }),
{
}

/// Where the fields of a `0x0f` message stand in its payload.
pub proof fn law_ping_layout(p: Seq<u8>)
    requires
        p.len() >= 8,
    ensures
        ({
            let m = Ping::at(p);
            &&& m.timestamp == p[0] + 256 * p[1] + 65536 * p[2] + 16777216 * p[3]
            &&& m.com_delay == p[4] + 256 * p[5] + 65536 * p[6] + 16777216 * p[7]
        }),
{
}

/// The state of charge is the one reported, held to 0..=100, and the charger is connected above
/// 1000 mV.
pub proof fn law_battery_readings(b: Battery, pct: u8, supply: u8)
    requires
        call_ensures(Battery::charge_pct, (&b,), pct),
        call_ensures(Battery::power_supply_status, (&b,), supply),
    ensures
        0 <= b.soc_pct <= 100 ==> pct == b.soc_pct,
        b.soc_pct < 0 ==> pct == 0,
        b.soc_pct > 100 ==> pct == 100,
        b.charge_voltage_mv > 1000 ==> supply == 1,
        b.charge_voltage_mv <= 1000 ==> supply == 2,
{
}

/// The four flags are the low binary digits of `flags`.
pub proof fn law_consumable_flags(s: Status100ms, bin: bool, tank: bool, hepa: bool, carpet: bool)
    requires
        call_ensures(Status100ms::dust_container_missing, (&s,), bin),
        call_ensures(Status100ms::water_tank_installed, (&s,), tank),
        call_ensures(Status100ms::hepa_state, (&s,), hepa),
        call_ensures(Status100ms::carpet_state, (&s,), carpet),
    ensures
        ({
            let d = |b: bool| if b { 1int } else { 0int };
            s.flags % 16 == d(bin) + 2 * d(tank) + 4 * d(hepa) + 8 * d(carpet)
        }),
{
    let f = s.flags as int;
    assert(f % 16 == f % 2 + 2 * (f / 2 % 2) + 4 * (f / 4 % 2) + 8 * (f / 8 % 2));
}

/// Each message is read where its payload is long enough, and not else.
pub proof fn law_messages_need_their_length(
    p: &[u8],
    a: Option<Status20ms>,
    b: Option<Status10ms>,
    c: Option<Status100ms>,
    d: Option<Battery>,
    e: Option<Ping>,
)
    requires
        call_ensures(Status20ms::parse, (p,), a),
        call_ensures(Status10ms::parse, (p,), b),
        call_ensures(Status100ms::parse, (p,), c),
        call_ensures(Battery::parse, (p,), d),
        call_ensures(Ping::parse, (p,), e),
    ensures
        p@.len() >= 30 ==> a == Some(Status20ms::at(p@)),
        p@.len() < 30 ==> a is None,
        p@.len() >= 18 ==> b == Some(Status10ms::at(p@)),
        p@.len() < 18 ==> b is None,
        p@.len() >= 11 ==> c == Some(Status100ms::at(p@)),
        p@.len() < 11 ==> c is None,
        p@.len() >= 10 ==> d == Some(Battery::at(p@)),
        p@.len() < 10 ==> d is None,
        p@.len() >= 8 ==> e == Some(Ping::at(p@)),
        p@.len() < 8 ==> e is None,
{
}

} // verus!
