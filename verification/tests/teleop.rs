//! The text protocol and the minimal driver.
use ros2dreame::command::packet;
use ros2dreame::control::{parse_control, Control};
use ros2dreame::mcud::{Mcud, McudReceiver};

fn f(v: f32) -> u32 {
    v.to_bits()
}

fn frame(line: &str) -> Option<(u8, Vec<u8>)> {
    match parse_control(line) {
        Control::Frame { typ, payload } => Some((typ, payload)),
        Control::BadFrame => None,
        other => panic!("{:?}", other),
    }
}

fn speeds(line: &str) -> (String, Option<String>) {
    match parse_control(line) {
        Control::Drive { linear, rot } => (linear, rot),
        other => panic!("{:?}", other),
    }
}

#[test]
fn blank_and_stop_lines() {
    for line in ["", "  \t ", "\u{a0}\u{3000}"] {
        assert!(matches!(parse_control(line), Control::Nothing));
    }
    for line in ["stop", " stop\r", "disable", "\u{2003}disable\u{2029}"] {
        assert!(matches!(parse_control(line), Control::Stop));
    }
    assert_eq!(speeds("stop now"), ("stop".to_string(), Some("now".to_string())));
}

#[test]
fn frame_lines() {
    assert_eq!(frame("frame 14 04 01"), Some((0x14, vec![4, 1])));
    assert_eq!(frame("frame 0x14 0x0401"), Some((0x14, vec![4, 1])));
    assert_eq!(frame("frame 2 21"), Some((2, vec![0x21])));
    assert_eq!(frame("frame 00ff"), Some((0xff, vec![])));
    assert_eq!(frame("frame fF aAbBcC 0x"), Some((0xff, vec![0xaa, 0xbb, 0xcc])));
    assert_eq!(frame("frame 0x0x+7 +9"), Some((7, vec![9])));
}

#[test]
fn bad_frame_lines() {
    for line in [
        "frame", "frame 100", "frame zz", "frame 0x", "frame +", "frame -1", "frame 1 abc",
        "frame 1 0g", "frame 1 ++", "frame 1 \u{e9}", "frame 1 a\u{e9}b", "frame 1 aa -1",
    ] {
        assert_eq!(frame(line), None, "{}", line);
    }
}

#[test]
fn bytes_together_or_apart() {
    assert_eq!(frame("frame 1 aabb cc"), frame("frame 1 aa bb cc"));
    assert_eq!(frame("frame 1 aabbcc"), frame("frame 1 aa bb cc"));
}

#[test]
fn lidar_lines() {
    for (line, on) in [("lidar 1", true), ("lidar 0", false), ("lidar", false), ("lidar x", true)] {
        assert!(matches!(parse_control(line), Control::Lidar(b) if b == on));
    }
}

#[test]
fn drive_lines() {
    assert_eq!(speeds(" 100  -0.5 x"), ("100".to_string(), Some("-0.5".to_string())));
    assert_eq!(speeds("100"), ("100".to_string(), None));
    assert_eq!(speeds("Stop"), ("Stop".to_string(), None));
}

#[test]
fn client_commands_change_the_state() {
    let mut m = Mcud::new();
    m.set_drive(Some(f(50.0)), Some(f(0.5)), 700);
    assert!(m.enabled);
    assert_eq!((m.linear_bits, m.rot_bits, m.last_cmd_ms), (f(50.0), f(0.5), 700));
    assert!(matches!(m.control("lidar 1"), Control::Lidar(true)));
    assert!(m.lidar_on && m.enabled);
    assert!(matches!(m.control("stop"), Control::Stop));
    assert!(!m.enabled);
    let before = m;
    assert!(matches!(m.control("frame 1 2"), Control::BadFrame));
    assert!(matches!(m.control("1 2"), Control::Drive { .. }));
    assert_eq!(m, before);
}

#[test]
fn unreadable_or_infinite_speeds_are_ignored() {
    let mut m = Mcud::new();
    for (l, r) in [
        (None, Some(f(1.0))),
        (Some(f(1.0)), None),
        (Some(f(f32::NAN)), Some(f(1.0))),
        (Some(f(1.0)), Some(f(f32::NEG_INFINITY))),
    ] {
        m.set_drive(l, r, 5);
        assert_eq!(m, Mcud::new());
    }
}

#[test]
fn minimal_driver_answers_pings_and_tracks_hazards() {
    let mut m = Mcud::new();
    let mut r = McudReceiver::new();
    let mut bytes = packet(0x0f, &[1, 2, 3, 4, 5]).unwrap();
    bytes.extend(packet(0x00, &[0x0f, 0]).unwrap());
    assert_eq!(r.receive(&bytes, &mut m), [[1, 2, 3, 4]]);
    assert_eq!(m.pongs, 1);
    assert!(!m.hazard);
    r.receive(&packet(0x00, &[0x10, 0]).unwrap(), &mut m);
    assert!(m.hazard);
    r.receive(&packet(0x00, &[0]).unwrap(), &mut m);
    assert!(m.hazard);
    r.receive(&packet(0x00, &[0, 0]).unwrap(), &mut m);
    assert!(!m.hazard);
    r.receive(&packet(0x00, &[0, 0x80]).unwrap(), &mut m);
    assert!(m.hazard);
}

#[test]
fn minimal_driver_ticks() {
    let mut m = Mcud::new();
    m.lidar_on = true;
    let mut count = std::collections::BTreeMap::new();
    for t in 0..200u64 {
        for f in m.tick(20 * t) {
            *count.entry((f.typ, f.payload)).or_insert(0) += 1;
        }
    }
    let want: Vec<((u8, Vec<u8>), i32)> = vec![
        ((0x00, vec![1, 0, 0, 0, 0, 0, 0, 0, 0]), 200),
        ((0x01, vec![0, 1, 0, 0, 0, 0]), 4),
        ((0x02, vec![0x21]), 8),
        ((0x14, vec![4, 1]), 4),
        ((0x1d, vec![5, 1]), 1),
        ((0x26, vec![0x14, 0, 0, 0, 0, 0, 0, 4]), 4),
    ];
    assert_eq!(count.into_iter().collect::<Vec<_>>(), want);
    assert_eq!((m.overrides, m.tick), (200, 200));
    m.lidar_on = false;
    m.tick = 30;
    assert_eq!(m.tick(0)[2].payload, [0x64, 0, 0, 0, 0, 0, 0, 4]);
}

#[test]
fn minimal_driver_gates_the_command() {
    let mut m = Mcud::new();
    m.set_drive(Some(f(-900.0)), Some(f(9.0)), 1000);
    let motor = |m: &mut Mcud, now: u64| {
        let p = m.tick(now)[0].payload.clone();
        (
            f32::from_le_bytes([p[1], p[2], p[3], p[4]]),
            f32::from_le_bytes([p[5], p[6], p[7], p[8]]),
        )
    };
    assert_eq!(motor(&mut m, 1000), (-150.0, 1.5));
    m.hazard = true;
    assert_eq!(motor(&mut m, 1499), (0.0, 1.5));
    assert_eq!(motor(&mut m, 1500), (0.0, 0.0));
    m.hazard = false;
    m.stop();
    assert_eq!(motor(&mut m, 1001), (0.0, 0.0));
}
