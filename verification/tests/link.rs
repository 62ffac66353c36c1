//! The serial link: framing, checksums and messages.
use ros2dreame::command::{
    encode_motor_ctrl, encode_set_cleaning, encode_set_led, motor_ctrl_payload, packet,
    TX_MOTOR_CTRL,
};
use ros2dreame::crc::crc16_modbus;
use ros2dreame::frame::{
    encode_frame, parse_body, FrameError, FrameScanner, END, ESCAPE, MAX_BODY, START,
};
use ros2dreame::message::{Msg, T_BATTERY, T_PING, T_STATUS_100MS, T_STATUS_10MS, T_TRIGGERS};
use ros2dreame::status::{Battery, Ping, Status100ms, Status10ms, Status20ms};
use ros2dreame::triggers::Triggers;

fn bodies(sc: &mut FrameScanner, bytes: &[u8]) -> Vec<Vec<u8>> {
    let mut out = Vec::new();
    for &b in bytes {
        if let Some(body) = sc.push(b) {
            out.push(body.to_vec());
        }
    }
    out
}

#[test]
fn crc_roundtrip_and_frame() {
    // Encode a MotorCtrl, then de-frame + parse it back (alloc-free).
    let mut wire = [0u8; 64];
    let n = encode_motor_ctrl(0, (-100.0f32).to_bits(), (-0.9f32).to_bits(), &mut wire).unwrap();
    let mut sc = FrameScanner::new();
    let mut seen = false;
    for &b in &wire[..n] {
        if let Some(body) = sc.push(b) {
            let (typ, payload) = parse_body(body).unwrap();
            assert_eq!(typ, TX_MOTOR_CTRL);
            assert_eq!(payload.len(), 9);
            assert_eq!(payload[0], 0);
            let lin = f32::from_le_bytes([payload[1], payload[2], payload[3], payload[4]]);
            assert_eq!(lin, -100.0);
            seen = true;
        }
    }
    assert!(seen, "expected one decoded frame");
}

#[test]
fn escaping_roundtrips_delimiter_bytes() {
    // Payload full of bytes that must be escaped on the wire.
    let mut wire = [0u8; 64];
    let n = encode_frame(0x7f, &[START, END, ESCAPE, 0x00], &mut wire).unwrap();
    let mut sc = FrameScanner::new();
    let mut seen = false;
    for &b in &wire[..n] {
        if let Some(body) = sc.push(b) {
            let (typ, payload) = parse_body(body).unwrap();
            assert_eq!(typ, 0x7f);
            assert_eq!(payload, &[START, END, ESCAPE, 0x00][..]);
            seen = true;
        }
    }
    assert!(seen, "expected one decoded frame");
}

#[test]
fn known_status20ms_w10_offsets() {
    let mut p = [0u8; 30];
    p[20..22].copy_from_slice(&123i16.to_le_bytes()); // left_vel @ 20 (W10)
    p[22..24].copy_from_slice(&(-45i16).to_le_bytes()); // right_vel @ 22 (W10)
    let s = Status20ms::parse(&p).unwrap();
    assert_eq!(s.left_vel, 123);
    assert_eq!(s.right_vel, -45);
}

#[test]
fn crc_check_value() {
    assert_eq!(crc16_modbus(b"123456789"), 0x4b37);
    assert_eq!(crc16_modbus(b""), 0xffff);
}

#[test]
fn crc_notices_a_changed_byte() {
    let data = [9u8, 0, 1, 2, 3, 250];
    let good = crc16_modbus(&data);
    for k in 0..data.len() {
        for b in 0..=255u8 {
            let mut changed = data;
            changed[k] = b;
            assert_eq!(crc16_modbus(&changed) == good, b == data[k]);
        }
    }
}

#[test]
fn led_packet_bytes() {
    let mut out = [0xeeu8; 10];
    assert_eq!(encode_set_led(0x21, &mut out), Some(7));
    assert_eq!(out, [0x3c, 0x01, 0x02, 0x21, 0x78, 0xe1, 0x3e, 0xee, 0xee, 0xee]);
}

#[test]
fn cleaning_packet_reads_back() {
    let mut out = [0u8; 64];
    let n = encode_set_cleaning([10, 20, 30, 40, 3, 0], &mut out).unwrap();
    let got = bodies(&mut FrameScanner::new(), &out[..n]);
    assert_eq!(got.len(), 1);
    assert_eq!(parse_body(&got[0]), Ok((1, &[10u8, 20, 30, 40, 3, 0][..])));
}

#[test]
fn packet_that_does_not_fit_is_cut() {
    let mut out = [0xeeu8; 4];
    assert_eq!(encode_set_led(0x21, &mut out), None);
    assert_eq!(out, [0x3c, 0x01, 0x02, 0x21]);
    let long = [0u8; 256];
    let mut out = [0xeeu8; 600];
    assert_eq!(encode_frame(1, &long, &mut out), None);
    assert!(out.iter().all(|&b| b == 0xee));
}

#[test]
fn packet_length_is_bounded() {
    assert!(packet(0x10, &[0u8; 40]).is_some());
    assert!(packet(0x10, &[START; 40]).is_none());
    assert_eq!(packet(2, &[0x21]).unwrap(), [0x3c, 0x01, 0x02, 0x21, 0x78, 0xe1, 0x3e]);
    assert!(packet(2, &[0u8; 256]).is_none());
}

#[test]
fn scanner_default_is_new() {
    let mut sc = FrameScanner::default();
    assert_eq!(sc.overflows, 0);
    assert_eq!(bodies(&mut sc, &[0x3c, 7, 0x3e]), vec![vec![7u8]]);
}

#[test]
fn start_inside_a_packet_restarts_it() {
    let mut sc = FrameScanner::new();
    let got = bodies(&mut sc, &[START, 1, 2, START, 3, END, 9, END, START, END]);
    assert_eq!(got, vec![vec![3u8], vec![]]);
}

#[test]
fn escape_takes_the_next_byte_verbatim() {
    let mut sc = FrameScanner::new();
    let got = bodies(&mut sc, &[START, ESCAPE, START, ESCAPE, END, ESCAPE, ESCAPE, ESCAPE, 7, END]);
    assert_eq!(got, vec![vec![START, END, ESCAPE, 7]]);
}

#[test]
fn overlong_body_is_dropped() {
    let mut sc = FrameScanner::new();
    let mut bytes = vec![START];
    bytes.extend(vec![1u8; MAX_BODY + 1]);
    bytes.push(END);
    assert!(bodies(&mut sc, &bytes).is_empty());
    assert_eq!(sc.overflows, 1);
    let mut bytes = vec![START];
    bytes.extend(vec![1u8; MAX_BODY]);
    bytes.push(END);
    assert_eq!(bodies(&mut sc, &bytes), vec![vec![1u8; MAX_BODY]]);
    assert_eq!(sc.overflows, 1);
}

#[test]
fn stream_in_pieces_reads_the_same() {
    let mut wire = [0u8; 64];
    let n = encode_frame(0x0f, &[1, 60, 62, 63], &mut wire).unwrap();
    for cut in 0..n {
        let mut sc = FrameScanner::new();
        let mut got = bodies(&mut sc, &wire[..cut]);
        got.extend(bodies(&mut sc, &wire[cut..n]));
        assert_eq!(got.len(), 1);
        assert_eq!(parse_body(&got[0]), Ok((0x0f, &[1u8, 60, 62, 63][..])));
    }
}

#[test]
fn noise_and_packets_in_order() {
    let mut bytes = vec![1u8, 2, END, ESCAPE];
    for t in 0..5u8 {
        bytes.extend(packet(t, &[t, t]).unwrap());
    }
    let got = bodies(&mut FrameScanner::new(), &bytes);
    assert_eq!(got.len(), 5);
    for (t, body) in got.iter().enumerate() {
        let t = t as u8;
        assert_eq!(parse_body(body), Ok((t, &[t, t][..])));
    }
}

#[test]
fn short_body_is_an_error() {
    assert_eq!(parse_body(&[1, 2, 3]), Err(FrameError::TooShort));
    assert_eq!(parse_body(&[]), Err(FrameError::TooShort));
}

#[test]
fn wrong_checksum_is_an_error() {
    assert_eq!(
        parse_body(&[1, 2, 0x21, 0x78, 0xe2]),
        Err(FrameError::Crc { received: 0x78e2, computed: 0x78e1 })
    );
    assert_eq!(parse_body(&[1, 2, 0x21, 0x78, 0xe1]), Ok((2, &[0x21u8][..])));
}

#[test]
fn payload_is_cut_to_the_declared_length() {
    let mut body = vec![1u8, 9, 5, 6, 7];
    let crc = crc16_modbus(&body);
    body.push((crc >> 8) as u8);
    body.push(crc as u8);
    assert_eq!(parse_body(&body), Ok((9, &[5u8][..])));
    let mut body = vec![200u8, 9, 5, 6, 7];
    let crc = crc16_modbus(&body);
    body.push((crc >> 8) as u8);
    body.push(crc as u8);
    assert_eq!(parse_body(&body), Ok((9, &[5u8, 6, 7][..])));
}

#[test]
fn motor_payload_layout() {
    let p = motor_ctrl_payload(1, 150.0f32.to_bits(), (-0.6f32).to_bits());
    assert_eq!(p, [1, 0x00, 0x00, 0x16, 0x43, 0x9a, 0x99, 0x19, 0xbf]);
}

#[test]
fn status20ms_fields() {
    let mut p = [0u8; 31];
    p[0..4].copy_from_slice(&0x01020304u32.to_le_bytes());
    p[4..8].copy_from_slice(&(-70000i32).to_le_bytes());
    p[8..12].copy_from_slice(&123456i32.to_le_bytes());
    p[12..14].copy_from_slice(&(-9000i16).to_le_bytes());
    p[14..16].copy_from_slice(&17i16.to_le_bytes());
    p[24..26].copy_from_slice(&250i16.to_le_bytes());
    p[26..28].copy_from_slice(&(-3i16).to_le_bytes());
    p[28..30].copy_from_slice(&4i16.to_le_bytes());
    let s = Status20ms::parse(&p).unwrap();
    assert_eq!(s.timestamp_us, 0x01020304);
    assert_eq!((s.x_mm10, s.y_mm10), (-70000, 123456));
    assert_eq!((s.yaw_cdeg, s.yaw_integral), (-9000, 17));
    assert_eq!((s.edge_dis_mm, s.roller_current, s.sidebrush_current), (250, -3, 4));
    assert!(Status20ms::parse(&p[..29]).is_none());
}

#[test]
fn status10ms_fields() {
    let mut p = [0u8; 18];
    p[8..10].copy_from_slice(&(-1234i16).to_le_bytes());
    p[14..16].copy_from_slice(&16384i16.to_le_bytes());
    p[16] = 0xff;
    p[17] = 5;
    let s = Status10ms::parse(&p).unwrap();
    assert_eq!(s.gyro_cdeg_s, [0, 0, -1234]);
    assert_eq!(s.accel_raw, [0, 0, 16384]);
    assert_eq!((s.left_dis_mm, s.right_dis_mm), (-1, 5));
    assert!(Status10ms::parse(&p[..17]).is_none());
}

#[test]
fn status100ms_flags() {
    let mut p = [0u8; 11];
    let all_clear = Status100ms::parse(&p).unwrap();
    for k in 0..8 {
        p[10] = 1 << k;
        let s = Status100ms::parse(&p).unwrap();
        let set = [
            s.dust_container_missing() != all_clear.dust_container_missing(),
            s.water_tank_installed() != all_clear.water_tank_installed(),
            s.hepa_state() != all_clear.hepa_state(),
            s.carpet_state() != all_clear.carpet_state(),
        ];
        assert!(set.iter().filter(|&&b| b).count() <= 1);
    }
    assert!(Status100ms::parse(&p[..10]).is_none());
}

#[test]
fn battery_fields_and_status() {
    let mut p = [0u8; 12];
    p[0..2].copy_from_slice(&16300u16.to_le_bytes());
    p[2..4].copy_from_slice(&283u16.to_le_bytes());
    p[4..6].copy_from_slice(&250i16.to_le_bytes());
    p[6..8].copy_from_slice(&19900u16.to_le_bytes());
    p[8..10].copy_from_slice(&88i16.to_le_bytes());
    let b = Battery::parse(&p).unwrap();
    assert_eq!((b.voltage_mv, b.current_ma, b.temperature_ddeg), (16300, 283, 250));
    assert_eq!((b.charge_voltage_mv, b.soc_pct), (19900, 88));
    assert_eq!(b.power_supply_status(), 1);
    assert_eq!(b.charge_pct(), 88);
    p[6..8].copy_from_slice(&1000u16.to_le_bytes());
    p[8..10].copy_from_slice(&(-5i16).to_le_bytes());
    let b = Battery::parse(&p).unwrap();
    assert_eq!(b.power_supply_status(), 2);
    assert_eq!(b.charge_pct(), 0);
    p[8..10].copy_from_slice(&130i16.to_le_bytes());
    assert_eq!(Battery::parse(&p).unwrap().charge_pct(), 100);
    assert!(Battery::parse(&p[..9]).is_none());
}

#[test]
fn ping_fields() {
    let p = [1u8, 0, 0, 0, 0, 1, 0, 0];
    let ping = Ping::parse(&p).unwrap();
    assert_eq!((ping.timestamp, ping.com_delay), (1, 256));
    assert!(Ping::parse(&p[..7]).is_none());
}

#[test]
fn trigger_bits() {
    let t = Triggers::parse(&[0x30, 0x09, 0, 0, 0x01, 0x04, 0x01]).unwrap();
    assert!(t.left_bumper() && t.right_bumper());
    assert!(!t.left_wheel_floating() && !t.right_wheel_floating());
    assert!(t.cliff_front_left() && t.cliff_front_right());
    assert!(!t.cliff_rear_left() && !t.cliff_rear_right());
    assert_eq!(t.cliff_flags(), 0x09);
    assert!(t.any_cliff() && t.dock_sta());
    assert!(t.bit(4) && !t.bit(6));
    let t = Triggers::parse(&[0xC0, 0x30, 0, 0, 0, 0, 0, 9]).unwrap();
    assert!(t.left_wheel_floating() && t.right_wheel_floating());
    assert!(t.cliff_rear_left() && t.cliff_rear_right() && !t.dock_sta());
    assert!(Triggers::parse(&[0; 6]).is_none());
}

#[test]
fn each_fault_has_its_bit() {
    let names: [fn(&Triggers) -> bool; 12] = [
        Triggers::side_overcurrent,
        Triggers::roll_overcurrent,
        Triggers::fan_overcurrent,
        Triggers::pump_overcurrent,
        Triggers::left_wheel_overcurrent,
        Triggers::right_wheel_overcurrent,
        Triggers::lidar_error,
        Triggers::fan_error,
        Triggers::left_vel_error,
        Triggers::right_vel_error,
        Triggers::imu_error,
        Triggers::charge_error,
    ];
    let mut seen = Vec::new();
    for f in names {
        let hits: Vec<usize> = (40..56)
            .filter(|k| {
                let mut raw = [0u8; 7];
                raw[k / 8] = 1 << (k % 8);
                f(&Triggers { raw })
            })
            .collect();
        assert_eq!(hits.len(), 1);
        assert!(!seen.contains(&hits[0]));
        seen.push(hits[0]);
    }
    assert!(seen.contains(&42));
}

#[test]
fn decode_by_type() {
    assert!(matches!(Msg::decode(T_TRIGGERS, &[0; 7]), Msg::Triggers(_)));
    assert!(matches!(Msg::decode(T_STATUS_10MS, &[0; 18]), Msg::Status10ms(_)));
    assert!(matches!(Msg::decode(T_STATUS_100MS, &[0; 11]), Msg::Status100ms(_)));
    assert!(matches!(Msg::decode(T_BATTERY, &[0; 10]), Msg::Battery(_)));
    assert!(matches!(Msg::decode(T_PING, &[0; 8]), Msg::Ping(_)));
    assert!(matches!(Msg::decode(T_PING, &[0; 7]), Msg::Raw { typ: T_PING, len: 7 }));
    assert!(matches!(Msg::decode(0x99, &[0; 3]), Msg::Raw { typ: 0x99, len: 3 }));
}

#[test]
fn trailing_bytes_do_not_matter() {
    let mut p = [0u8; 40];
    p[20] = 77;
    p[35] = 9;
    match Msg::decode(1, &p) {
        Msg::Status20ms(s) => assert_eq!(s.left_vel, 77),
        _ => panic!("not a status message"),
    }
}
