//! What is made of the incoming streams: telemetry, answers and images.
use ros2dreame::command::packet;
use ros2dreame::jpeg::{extract_jpegs, find, EOI, MAX_ACC, SOI};
use ros2dreame::msg::{jpeg_image, now, Time};
use ros2dreame::publish::{mode_name, state_tap, trigger_report};
use ros2dreame::receiver::{ChangeLog, McuReader, Receiver, Tap};
use ros2dreame::shared::Shared;

fn status20(roller: i16, side: i16) -> Vec<u8> {
    let mut p = [0u8; 30];
    p[26..28].copy_from_slice(&roller.to_le_bytes());
    p[28..30].copy_from_slice(&side.to_le_bytes());
    packet(0x01, &p).unwrap()
}

fn status10(gyro_z: i16) -> Vec<u8> {
    let mut p = [0u8; 18];
    p[8..10].copy_from_slice(&gyro_z.to_le_bytes());
    packet(0x02, &p).unwrap()
}

fn status100(left: i16, right: i16, load: i16) -> Vec<u8> {
    let mut p = [0u8; 11];
    p[4..6].copy_from_slice(&left.to_le_bytes());
    p[6..8].copy_from_slice(&right.to_le_bytes());
    p[8..10].copy_from_slice(&load.to_le_bytes());
    packet(0x03, &p).unwrap()
}

#[test]
fn odometry_carries_the_latest_readings() {
    let mut bytes = status100(11, -22, 33);
    bytes.extend(status10(-1234));
    bytes.extend(status20(5, 6));
    for cut in 0..bytes.len() {
        let mut r = McuReader::new();
        let mut taps = r.receive(&bytes[..cut]);
        taps.extend(r.receive(&bytes[cut..]));
        assert_eq!(taps.len(), 3);
        assert!(matches!(&taps[0], Tap::Imu(s) if s.gyro_cdeg_s[2] == -1234));
        assert!(matches!(&taps[1], Tap::Currents(c) if *c == [11, -22, 5, 6, 33]));
        assert!(matches!(&taps[2], Tap::Odom { gyro_z_cdeg_s: -1234, .. }));
    }
}

#[test]
fn reader_reports_battery_and_triggers() {
    let mut bytes = packet(0x2b, &[0x10, 0x27, 0, 0, 0, 0, 0, 0, 50, 0]).unwrap();
    bytes.extend(packet(0x00, &[0x90, 0xc1, 0, 0, 1, 4, 0]).unwrap());
    bytes.extend(packet(0x23, &[0x11, 0, 0, 0, 0, 0x42]).unwrap());
    let taps = McuReader::new().receive(&bytes);
    assert_eq!(taps.len(), 2);
    assert!(matches!(&taps[0], Tap::Battery(b) if b.voltage_mv == 10_000 && b.soc_pct == 50));
    assert!(matches!(
        &taps[1],
        Tap::Triggers {
            dock: true,
            bumper_bits: 1,
            cliff_bits: 1,
            wheel_bits: 2,
            fan_oc: true
        }
    ));
}

#[test]
fn receiver_answers_pings() {
    let mut sh = Shared::new(true, false);
    let mut r = Receiver::new(false);
    let mut bytes = packet(0x0f, &[1, 60, 62, 63, 5, 6, 7, 8]).unwrap();
    bytes.extend(packet(0x0f, &[9, 9, 9]).unwrap());
    bytes.extend(packet(0x0f, &[4, 3, 2, 1]).unwrap());
    let out = r.receive(&bytes, &mut sh);
    assert_eq!(out.pongs, [[1, 60, 62, 63], [4, 3, 2, 1]]);
    assert!(out.taps.is_empty() && out.changes.is_empty());
    assert_eq!(packet(0x0f, &out.pongs[1]).unwrap().len(), 10);
}

#[test]
fn receiver_sets_the_drive_gate() {
    let mut sh = Shared::new(true, false);
    let mut r = Receiver::new(false);
    let out = r.receive(&packet(0x00, &[0x20, 0, 0, 0, 0, 0, 0]).unwrap(), &mut sh);
    assert_eq!(out.taps.len(), 1);
    assert!(sh.hazard_fwd && !sh.hazard_rev && sh.bumper);
    assert_eq!(sh.bump_bits, 2);
    r.receive(&packet(0x00, &[0, 0, 0, 0, 0, 0, 0]).unwrap(), &mut sh);
    assert!(!sh.hazard_fwd && !sh.bumper);
}

#[test]
fn receiver_ignores_damage() {
    let mut sh = Shared::new(true, false);
    let mut r = Receiver::new(true);
    let good = packet(0x00, &[0xf0, 0xff, 0, 0, 0, 0, 0]).unwrap();
    for k in 1..good.len() - 1 {
        let mut bad = good.clone();
        bad[k] ^= 0x40;
        let out = r.receive(&bad, &mut sh);
        assert!(out.taps.is_empty() && out.changes.is_empty());
        assert!(!sh.hazard_fwd && !sh.hazard_rev);
    }
}

#[test]
fn receiver_reports_dock_buttons() {
    let mut sh = Shared::new(true, false);
    let mut r = Receiver::new(false);
    for (b0, home, start) in [(0x10u8, false, false), (0x11, true, false), (0x14, false, true)] {
        let out = r.receive(&packet(0x23, &[b0, 0, 0, 0, 0, 0x42]).unwrap(), &mut sh);
        assert_eq!(out.taps.len(), 1);
        match &out.taps[0] {
            Tap::DockButton { home: h, start: s } => assert_eq!((*h, *s), (home, start)),
            _ => panic!("no button"),
        }
    }
    assert!(r.receive(&packet(0x23, &[]).unwrap(), &mut sh).taps.is_empty());
}

#[test]
fn both_sources_give_the_same_telemetry() {
    let mut bytes = status100(1, 2, 3);
    bytes.extend(packet(0x23, &[0x11]).unwrap());
    bytes.extend(status10(7));
    bytes.extend(status20(8, 9));
    let mut sh = Shared::new(true, false);
    let along = McuReader::new().receive(&bytes);
    let part = Receiver::new(false).receive(&bytes, &mut sh).taps;
    let part: Vec<String> = part
        .iter()
        .filter(|t| !matches!(t, Tap::DockButton { .. }))
        .map(|t| format!("{:?}", t))
        .collect();
    let along: Vec<String> = along.iter().map(|t| format!("{:?}", t)).collect();
    assert_eq!(part, along);
}

#[test]
fn changes_are_noticed_once() {
    let mut log = ChangeLog::new();
    assert!(log.changed(0x23, &[1, 2]));
    assert!(!log.changed(0x23, &[1, 2]));
    assert!(log.changed(0x24, &[1, 2]));
    assert!(log.changed(0x23, &[1, 3]));
    assert!(log.changed(0x23, &[1]));
    for typ in [0x01u8, 0x02, 0x03, 0x05, 0x12, 0x2c] {
        assert!(!log.changed(typ, &[1]));
    }
    let mut sh = Shared::new(true, false);
    let mut r = Receiver::new(true);
    let mut bytes = packet(0x23, &[0x10]).unwrap();
    bytes.extend(packet(0x23, &[0x10]).unwrap());
    bytes.extend(packet(0x23, &[0x11]).unwrap());
    let out = r.receive(&bytes, &mut sh);
    assert_eq!(out.changes, [(0x23u8, vec![0x10u8]), (0x23, vec![0x11])]);
}

#[test]
fn trigger_topics() {
    let r = trigger_report(true, 2, 0b10_1001, 3, false);
    assert!(r.dock && r.bumper && r.cliff && !r.fan_overcurrent);
    assert_eq!((r.bumper_flags, r.cliff_flags, r.wheel_drop_flags), (2, 0b10_1001, 3));
    assert_eq!(r.cliffs, [true, false, false, true, false, true]);
    let r = trigger_report(false, 0, 0, 0, true);
    assert!(!r.dock && !r.bumper && !r.cliff && r.fan_overcurrent);
    assert_eq!(r.cliffs, [false; 6]);
}

#[test]
fn state_is_published_as_commanded() {
    let mut sh = Shared::new(false, false);
    sh.set_fan(1);
    sh.set_side_brush(2);
    sh.set_main_brush(3);
    sh.set_mop(4);
    assert!(matches!(
        state_tap(&sh),
        Tap::State { turret: true, fan: 1, side_brush: 2, main_brush: 3, mop: 4 }
    ));
    assert_eq!(mode_name(true), "DRIVING");
    assert_eq!(mode_name(false), "PARKED");
}

#[test]
fn ros_time() {
    assert_eq!(now(Some((1_700_000_000, 5))), Time { sec: 1_700_000_000, nanosec: 5 });
    assert_eq!(now(Some((0x1_8000_0001, 0))).sec, -0x7fff_ffff);
    assert_eq!(now(None), Time { sec: 0, nanosec: 0 });
}

#[test]
fn jpeg_message() {
    let img = jpeg_image(Time { sec: 1, nanosec: 2 }, "camera", vec![0xff, 0xd8]);
    assert_eq!(img.header.stamp, Time { sec: 1, nanosec: 2 });
    assert_eq!(img.header.frame_id, "camera");
    assert_eq!(img.format, "jpeg");
    assert_eq!(img.data, [0xff, 0xd8]);
}

#[test]
fn find_looks_from_a_position() {
    let hay = [0xff, 0xd8, 1, 0xff, 0xd8, 0xff];
    assert_eq!(find(&hay, SOI, 0), Some(0));
    assert_eq!(find(&hay, SOI, 1), Some(3));
    assert_eq!(find(&hay, SOI, 4), None);
    assert_eq!(find(&hay, EOI, 0), None);
    assert_eq!(find(&hay, SOI, 99), None);
    assert_eq!(find(&[0xff], SOI, 0), None);
}

#[test]
fn jpegs_are_cut_out_of_any_pieces() {
    let mut stream = b"--frame\r\nContent-Type: image/jpeg\r\n\r\n".to_vec();
    let j1 = vec![0xff, 0xd8, 1, 2, 0xff, 0, 0xff, 0xd9];
    let j2 = vec![0xff, 0xd8, 0xff, 0xd9];
    stream.extend(&j1);
    stream.extend(b"\r\n--frame\r\n\r\n");
    stream.extend(&j2);
    stream.extend([0xff, 0xd8, 9]);
    for cut in 0..stream.len() {
        let mut acc = stream[..cut].to_vec();
        let mut got = extract_jpegs(&mut acc);
        acc.extend(&stream[cut..]);
        got.extend(extract_jpegs(&mut acc));
        assert_eq!(got, [j1.clone(), j2.clone()]);
        assert_eq!(acc, [0xff, 0xd8, 9]);
    }
}

#[test]
fn junk_keeps_its_last_byte_only() {
    let mut acc = vec![1, 2, 3, 0xff];
    assert!(extract_jpegs(&mut acc).is_empty());
    assert_eq!(acc, [0xff]);
    assert!(extract_jpegs(&mut acc).is_empty());
    assert_eq!(acc, [0xff]);
    let mut acc = Vec::new();
    assert!(extract_jpegs(&mut acc).is_empty());
    assert!(acc.is_empty());
}

#[test]
fn endless_jpeg_is_dropped() {
    let mut acc = vec![0u8; MAX_ACC];
    acc[0] = 0xff;
    acc[1] = 0xd8;
    assert!(extract_jpegs(&mut acc).is_empty());
    assert_eq!(acc.len(), MAX_ACC);
    acc.push(0);
    assert!(extract_jpegs(&mut acc).is_empty());
    assert!(acc.is_empty());
}
