//! The LDS stream, its packets and sweeps.
use ros2dreame::lds::{LdsFrame, LdsScanner};
use ros2dreame::sweep::{nearest_per_bin, LdsReader, Sweep, SweepPoint};

// A real packet captured from the robot's ttyS3 tap (rear-sector sweep).
const PKT0: [u8; 40] = [
    0x55, 0xaa, 0x03, 0x08, 0x25, 0x4c, 0x8f, 0xa7, 0x5f, 0x07, 0x0c, 0xd6, 0x04, 0x0f, 0xdd, 0x04,
    0x0c, 0x3b, 0x07, 0x09, 0x70, 0x06, 0x07, 0x71, 0x06, 0x08, 0x56, 0x07, 0x0b, 0x59, 0x07, 0x0c,
    0x45, 0xa9, 0x0e, 0x23, 0x28, 0x57, 0xc4, 0x4b,
];

/// A packet that starts at `fsa` and ends 800 units later, all samples at `dist`.
fn packet_at(fsa: u16, dist: u16) -> [u8; 40] {
    let mut p = [0u8; 40];
    p[..4].copy_from_slice(&[0x55, 0xaa, 0x03, 0x08]);
    p[6..8].copy_from_slice(&fsa.to_le_bytes());
    for k in 0..8 {
        p[8 + 3 * k..10 + 3 * k].copy_from_slice(&dist.to_le_bytes());
    }
    p[32..34].copy_from_slice(&fsa.wrapping_add(800).to_le_bytes());
    p
}

#[test]
fn parses_known_packet() {
    let f = LdsFrame::parse(&PKT0).unwrap();
    assert_eq!(f.speed, 19493);
    assert_eq!(f.fsa, 42895);
    assert_eq!(f.lsa, 43333);
    assert_eq!(f.counter, 22312);
    // First and last of the 8 samples (dist mm, quality).
    assert_eq!(f.samples[0].dist_mm, 1887);
    assert_eq!(f.samples[0].quality, 12);
    assert!(f.samples[0].valid);
    assert_eq!(f.samples[7].dist_mm, 1881);
    assert_eq!(f.samples[7].quality, 12);
    // Arc is positive and small (~438 units ~ 2.4 deg over 8 samples).
    assert_eq!(f.arc(), 438);
    // Sample 0 sits at fsa; sample angles increase toward lsa.
    assert_eq!(f.sample_angle(0), f.fsa);
    assert!(f.sample_angle(7) > f.fsa && f.sample_angle(7) < f.lsa);
}

#[test]
fn invalid_sample_bit() {
    let mut p = PKT0;
    // Force sample 3's distance to the invalid marker 0x8000.
    let o = 8 + 3 * 3;
    p[o] = 0x00;
    p[o + 1] = 0x80;
    let f = LdsFrame::parse(&p).unwrap();
    assert!(!f.samples[3].valid);
    assert_eq!(f.samples[3].dist_mm, 0);
}

#[test]
fn scanner_finds_frame_amid_noise() {
    let mut sc = LdsScanner::new();
    let mut got = None;
    // Leading garbage, a false 0x55, then the real packet.
    for &b in &[0x00u8, 0xff, 0x55, 0x11] {
        assert!(sc.push(b).is_none());
    }
    for &b in &PKT0 {
        if let Some(f) = sc.push(b) {
            got = Some(f);
        }
    }
    let f = got.expect("frame should be decoded");
    assert_eq!(f.fsa, 42895);
    assert_eq!(f.samples[0].dist_mm, 1887);
}

#[test]
fn wrong_header_or_length_is_no_packet() {
    assert!(LdsFrame::parse(&PKT0[..39]).is_none());
    assert!(LdsFrame::parse(&[]).is_none());
    let mut long = PKT0.to_vec();
    long.push(0);
    assert!(LdsFrame::parse(&long).is_none());
    for k in 0..4 {
        let mut p = PKT0;
        p[k] ^= 1;
        assert!(LdsFrame::parse(&p).is_none());
    }
}

#[test]
fn lds_scanner_default_decodes_a_run_of_packets() {
    let mut sc = LdsScanner::default();
    let mut starts = Vec::new();
    for fsa in [100u16, 900, 1700] {
        for b in packet_at(fsa, 500) {
            if let Some(f) = sc.push(b) {
                starts.push(f.fsa);
            }
        }
    }
    assert_eq!(starts, [100, 900, 1700]);
}

#[test]
fn sample_angles_wrap() {
    let f = LdsFrame::parse(&packet_at(65_400, 500)).unwrap();
    assert_eq!(f.arc(), 800);
    assert_eq!(f.sample_angle(1), 65_500);
    assert_eq!(f.sample_angle(2), 64);
}

#[test]
fn sweep_ends_where_the_arc_restarts() {
    let mut sweep = Sweep::new();
    let f1 = LdsFrame::parse(&packet_at(30_000, 500)).unwrap();
    let f2 = LdsFrame::parse(&packet_at(30_800, 600)).unwrap();
    let f3 = LdsFrame::parse(&packet_at(10_000, 700)).unwrap();
    assert!(sweep.push(&f1).is_none());
    assert!(sweep.push(&f2).is_none());
    let done = sweep.push(&f3).unwrap();
    assert_eq!(done.len(), 16);
    assert_eq!(done[0], SweepPoint { angle: 30_000, dist_mm: 500 });
    assert_eq!(done[9], SweepPoint { angle: 30_900, dist_mm: 600 });
    assert_eq!(sweep.pts.len(), 8);
}

#[test]
fn small_step_back_does_not_end_a_sweep() {
    let mut sweep = Sweep::new();
    for (fsa, ends) in [(20_000u16, false), (11_808, false), (3_615, true)] {
        let f = LdsFrame::parse(&packet_at(fsa, 500)).unwrap();
        assert_eq!(sweep.push(&f).is_some(), ends);
    }
}

#[test]
fn sweep_without_a_return_is_none() {
    let mut sweep = Sweep::new();
    for fsa in [60_000u16, 100, 60_000, 100] {
        let f = LdsFrame::parse(&packet_at(fsa, 0)).unwrap();
        assert!(sweep.push(&f).is_none());
    }
    let f = LdsFrame::parse(&packet_at(200, 0x8123)).unwrap();
    assert!(sweep.push(&f).is_none());
    assert!(sweep.pts.is_empty());
}

#[test]
fn lds_reader_keeps_every_return() {
    let mut bytes = vec![1u8, 2, 0x55];
    for (fsa, d) in [(1000u16, 100u16), (20_000, 200), (1000, 300), (9_000, 400), (500, 0)] {
        bytes.extend(packet_at(fsa, d));
    }
    for cut in 0..bytes.len() {
        let mut r = LdsReader::new();
        let mut sweeps = r.receive(&bytes[..cut]);
        sweeps.extend(r.receive(&bytes[cut..]));
        let mut all: Vec<u16> = sweeps.iter().flatten().map(|p| p.dist_mm).collect();
        assert_eq!(sweeps.len(), 2);
        all.extend(r.sweep.pts.iter().map(|p| p.dist_mm));
        let want: Vec<u16> = [100u16, 200, 300, 400].iter().flat_map(|&d| vec![d; 8]).collect();
        assert_eq!(all, want);
    }
}

#[test]
fn nearest_return_of_each_bin() {
    let pts = [(0usize, 500u16), (2, 300), (0, 400), (9, 250), (2, 350)];
    assert_eq!(nearest_per_bin(&pts, 4), Some(vec![Some(400), None, Some(300), Some(250)]));
    assert_eq!(nearest_per_bin(&pts, 0), None);
    assert_eq!(nearest_per_bin(&pts, 4097), None);
    assert_eq!(nearest_per_bin(&pts, 4096).unwrap().len(), 4096);
    assert_eq!(nearest_per_bin(&[], 4), None);
}
