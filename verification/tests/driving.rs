//! The shared state, the dock cycles and the messages of each tick.
use ros2dreame::binary32::{clampf, finite, is_negative, is_positive, is_zero};
use ros2dreame::camera::{CameraMode, CameraPlan};
use ros2dreame::command::packet;
use ros2dreame::dock::{dry_steps, seq_step, wash_steps, DEFAULT_DRY_STAGE_MS};
use ros2dreame::driver::{
    drive, stop_frame, Driver, Escape, EscapePhase, TxConfig, TxFrame, BUMP_BACK, BUMP_TURN_LEFT,
    BUMP_TURN_RIGHT, MAX_LINEAR, MAX_ROT, MIN_LINEAR, MIN_ROT,
};
use ros2dreame::shared::Shared;
use ros2dreame::triggers::Triggers;

const STOP: [u8; 8] = [0x15, 0, 0, 0, 0, 0, 0, 2];

const IDLE: Escape = Escape { phase: EscapePhase::Idle, start_ms: 0, left: false };

fn f(v: f32) -> u32 {
    v.to_bits()
}

fn triggers(a: u8, b: u8) -> Triggers {
    Triggers { raw: [a, b, 0, 0, 0, 0, 0] }
}

/// The payloads of one type.
fn of_type(frames: &[TxFrame], typ: u8) -> Vec<Vec<u8>> {
    frames.iter().filter(|f| f.typ == typ).map(|f| f.payload.clone()).collect()
}

/// Run the ticks up to the one numbered `to`, 20 ms apart, and hand each to `seen`.
fn run(d: &mut Driver, sh: &mut Shared, to: u64, mut seen: impl FnMut(u64, &[TxFrame])) {
    while d.state.tick < to {
        let tick = d.state.tick;
        let frames = d.tick(sh, 1000 + 20 * tick);
        seen(tick, &frames);
    }
}

/// The dock messages of the next `n` slots.
fn dock_slots(d: &mut Driver, sh: &mut Shared, n: u64) -> Vec<Vec<Vec<u8>>> {
    let mut out = Vec::new();
    let to = (d.state.tick / 50 + n) * 50;
    run(d, sh, to, |tick, frames| {
        if tick % 50 == 30 {
            out.push(of_type(frames, 0x26));
        }
    });
    out
}

#[test]
fn speed_limits_are_the_documented_ones() {
    assert_eq!((MAX_LINEAR, MIN_LINEAR), (f(150.0), f(-150.0)));
    assert_eq!((MAX_ROT, MIN_ROT), (f(1.5), f(-1.5)));
    assert_eq!(BUMP_BACK, f(-80.0));
    assert_eq!((BUMP_TURN_LEFT, BUMP_TURN_RIGHT), (f(0.6), f(-0.6)));
}

#[test]
fn bit_patterns_order_as_floats_do() {
    let values = [
        f32::NEG_INFINITY, -151.0, -150.0, -1.0, -1e-40, -0.0, 0.0, 1e-40, 0.5, 150.0, 150.5,
        f32::INFINITY, f32::NAN,
    ];
    for &v in &values {
        assert_eq!(is_zero(f(v)), v == 0.0);
        assert_eq!(is_positive(f(v)), v > 0.0);
        assert_eq!(is_negative(f(v)), v < 0.0);
        assert_eq!(finite(f(v)), v.is_finite());
        let want = v.max(-150.0).min(150.0);
        assert_eq!(clampf(f(v), f(-150.0), f(150.0)), f(want));
    }
    assert_eq!(clampf(f(f32::NAN), f(-1.5), f(1.5)), f(-1.5));
    assert_eq!(clampf(f(7.0), f(f32::NAN), f(1.5)), f(1.5));
    assert_eq!(clampf(f(7.0), f(-1.5), f(f32::NAN)), f(7.0));
}

#[test]
fn shared_starts_still() {
    let sh = Shared::new(false, false);
    assert!(sh.turret_on() && !sh.is_parked() && !sh.enabled && !sh.auto_paused());
    assert_eq!(sh.levels(), (0, 0, 0, 0));
    assert!(!Shared::new(true, false).turret_on());
    assert!(!Shared::new(false, true).turret_on());
    assert_eq!(sh.idle_move_ms(99), u64::MAX);
}

#[test]
fn only_motion_counts_as_motion() {
    let mut sh = Shared::new(true, false);
    sh.set_drive(1000, f(0.0), f(-0.0));
    assert_eq!(sh.idle_move_ms(2000), u64::MAX);
    assert!(sh.enabled);
    sh.set_drive(1000, f(0.0), f(0.1));
    sh.set_drive(1500, f(0.0), f(0.0));
    assert_eq!(sh.idle_move_ms(2000), 1000);
    assert_eq!(sh.idle_move_ms(500), 0);
    assert_eq!(sh.last_cmd_ms, 1500);
}

#[test]
fn auto_switch_parks_and_drives() {
    let mut sh = Shared::new(true, false);
    assert_eq!(sh.auto_switch(5000), None);
    sh.set_drive(6000, f(100.0), f(0.0));
    assert_eq!(sh.auto_switch(6100), Some(false));
    assert!(sh.turret_on() && !sh.is_parked());
    assert_eq!(sh.auto_switch(9000), None);
    assert_eq!(sh.auto_switch(9001), Some(true));
    assert!(!sh.turret_on() && sh.is_parked());
}

#[test]
fn manual_turret_choice_pauses_switching() {
    let mut sh = Shared::new(true, false);
    sh.set_turret(true);
    assert!(sh.turret_on() && !sh.is_parked() && sh.auto_paused());
    assert_eq!(sh.auto_switch(100_000), None);
    sh.set_auto(true);
    assert_eq!(sh.auto_switch(100_000), Some(true));
    sh.set_auto(false);
    assert!(sh.auto_paused());
    sh.set_parked(false);
    assert!(sh.turret_on() && !sh.is_parked());
}

#[test]
fn levels_in_order() {
    let mut sh = Shared::new(true, false);
    sh.set_fan(1);
    sh.set_side_brush(2);
    sh.set_main_brush(3);
    sh.set_mop(4);
    sh.set_station(5);
    sh.set_dock_screen(6);
    assert_eq!(sh.levels(), (1, 2, 3, 4));
    assert_eq!((sh.station, sh.dock_screen), (5, 6));
}

#[test]
fn dock_frame_takes_the_first_eight_bytes() {
    let mut sh = Shared::new(true, false);
    sh.set_dock_frame(&[1, 2, 3, 4, 5, 6, 7, 8, 9]);
    assert_eq!(sh.dock_frame, [1, 2, 3, 4, 5, 6, 7, 8]);
    sh.set_dock_frame(&[1, 2, 3, 4, 5, 6, 7]);
    assert_eq!(sh.dock_frame, [0; 8]);
}

#[test]
fn hazards_are_directional() {
    let mut sh = Shared::new(false, false);
    let table = [
        // raw[0], raw[1], forward blocked, reverse blocked, bumper bits
        (0x10u8, 0x00u8, true, false, 1u8),
        (0x20, 0x00, true, false, 2),
        (0x30, 0x00, true, false, 3),
        (0x40, 0x00, true, true, 0),
        (0x80, 0x00, true, true, 0),
        (0x00, 0x01, true, false, 0),
        (0x00, 0x02, true, true, 0),
        (0x00, 0x04, true, true, 0),
        (0x00, 0x08, true, false, 0),
        (0x00, 0x10, false, true, 0),
        (0x00, 0x20, false, true, 0),
        (0x0f, 0xc0, false, false, 0),
    ];
    for (a, b, fwd, rev, bits) in table {
        sh.note_triggers(&triggers(a, b));
        assert_eq!((sh.hazard_fwd, sh.hazard_rev), (fwd, rev));
        assert_eq!((sh.bumper, sh.bump_bits), (bits != 0, bits));
    }
}

#[test]
fn command_is_clamped_and_watched() {
    let cfg = TxConfig::default();
    let mut sh = Shared::new(false, false);
    assert_eq!(drive(&cfg, IDLE, &sh, 0), (IDLE, 0, 0));
    sh.set_drive(1000, f(1e9), f(-7.0));
    assert_eq!(drive(&cfg, IDLE, &sh, 1499), (IDLE, f(150.0), f(-1.5)));
    assert_eq!(drive(&cfg, IDLE, &sh, 1500), (IDLE, 0, 0));
    // a command that seems to lie ahead is stale
    assert_eq!(drive(&cfg, IDLE, &sh, 999), (IDLE, 0, 0));
    sh.set_drive(2000, f(-42.5), f(0.25));
    assert_eq!(drive(&cfg, IDLE, &sh, 2001), (IDLE, f(-42.5), f(0.25)));
    sh.set_drive(3000, f(f32::NAN), f(f32::NAN));
    assert_eq!(drive(&cfg, IDLE, &sh, 3001), (IDLE, f(-150.0), f(-1.5)));
}

#[test]
fn hazard_gates_its_direction_only() {
    let cfg = TxConfig::default();
    let mut sh = Shared::new(false, false);
    sh.set_drive(1000, f(100.0), f(0.5));
    sh.hazard_fwd = true;
    assert_eq!(drive(&cfg, IDLE, &sh, 1000), (IDLE, 0, f(0.5)));
    sh.set_drive(1000, f(-100.0), f(0.5));
    assert_eq!(drive(&cfg, IDLE, &sh, 1000), (IDLE, f(-100.0), f(0.5)));
    sh.hazard_fwd = false;
    sh.hazard_rev = true;
    assert_eq!(drive(&cfg, IDLE, &sh, 1000), (IDLE, 0, f(0.5)));
    sh.set_drive(1000, f(100.0), f(0.5));
    assert_eq!(drive(&cfg, IDLE, &sh, 1000), (IDLE, f(100.0), f(0.5)));
}

#[test]
fn bump_backs_off_and_turns_away() {
    let cfg = TxConfig::default();
    let mut sh = Shared::new(false, false);
    sh.note_triggers(&triggers(0x20, 0)); // right
    let (e, lin, rot) = drive(&cfg, IDLE, &sh, 10_000);
    assert_eq!(e, Escape { phase: EscapePhase::Backing, start_ms: 10_000, left: true });
    assert_eq!((lin, rot), (f(-80.0), 0));
    sh.note_triggers(&triggers(0, 0));
    let (e, lin, _) = drive(&cfg, e, &sh, 10_699);
    assert_eq!(lin, f(-80.0));
    let (e, lin, rot) = drive(&cfg, e, &sh, 10_700);
    assert_eq!(e.phase, EscapePhase::Turning);
    assert_eq!((lin, rot), (0, f(0.6)));
    let (e, _, rot) = drive(&cfg, e, &sh, 11_799);
    assert_eq!(rot, f(0.6));
    let (e, lin, rot) = drive(&cfg, e, &sh, 11_800);
    assert_eq!(e.phase, EscapePhase::Idle);
    assert_eq!((lin, rot), (0, 0));
}

#[test]
fn bump_turns_right_by_default() {
    let mut cfg = TxConfig::default();
    cfg.back_ms = 0;
    let mut sh = Shared::new(false, false);
    for a in [0x10u8, 0x30] {
        sh.note_triggers(&triggers(a, 0));
        let (e, lin, rot) = drive(&cfg, IDLE, &sh, 500);
        assert_eq!(e.phase, EscapePhase::Turning);
        assert_eq!((lin, rot), (0, f(-0.6)));
    }
    cfg.bump_escape = false;
    assert_eq!(drive(&cfg, IDLE, &sh, 500), (IDLE, 0, 0));
}

#[test]
fn bump_does_not_back_over_a_ledge() {
    let cfg = TxConfig::default();
    let mut sh = Shared::new(false, false);
    sh.note_triggers(&triggers(0x10, 0x10)); // left bumper, rear left cliff
    let (e, lin, rot) = drive(&cfg, IDLE, &sh, 500);
    assert_eq!(e.phase, EscapePhase::Turning);
    assert_eq!((lin, rot), (0, f(-0.6)));
}

#[test]
fn parked_second() {
    let mut sh = Shared::new(true, false);
    let mut d = Driver::new(TxConfig::default());
    run(&mut d, &mut sh, 50, |tick, frames| {
        assert_eq!(of_type(frames, 0x00), [[1, 0, 0, 0, 0, 0, 0, 0, 0]]);
        assert_eq!(of_type(frames, 0x02).len(), usize::from(tick % 25 == 5));
        let regs = of_type(frames, 0x14);
        if tick == 15 {
            assert_eq!(regs, [[1, 1], [0, 1], [9, 2]]);
        } else {
            assert!(regs.is_empty());
        }
        let cam = of_type(frames, 0x1d);
        if tick == 40 {
            assert_eq!(cam, [[5, 0]]);
        } else {
            assert!(cam.is_empty());
        }
        let clean = of_type(frames, 0x01);
        if tick == 10 {
            assert_eq!(clean, [[0, 1, 0, 0, 0, 0]]);
        } else {
            assert!(clean.is_empty());
        }
        let dock = of_type(frames, 0x26);
        if tick == 30 {
            assert_eq!(dock, [STOP]);
        } else {
            assert!(dock.is_empty());
        }
    });
}

#[test]
fn driving_frames_keep_the_turret() {
    let mut cfg = TxConfig::default();
    cfg.mcu_init = false;
    let mut sh = Shared::new(false, false);
    let mut d = Driver::new(cfg);
    let mut pulses = 0;
    run(&mut d, &mut sh, 400, |tick, frames| {
        assert_eq!(frames.iter().filter(|f| f.typ == 0).count(), 1);
        let regs = of_type(frames, 0x14);
        if tick % 50 == 20 {
            assert_eq!(regs, [[4, 1]]);
        } else {
            assert!(regs.is_empty());
        }
        if tick % 50 == 30 {
            let dock = of_type(frames, 0x26);
            assert_eq!(dock[dock.len() - 1], [0x14, 0, 0, 0, 0, 0, 0, 4]);
            pulses += dock.len() - 1;
        }
        let cam = of_type(frames, 0x1d);
        if tick % 200 == 40 {
            assert_eq!(cam, [[5, 1]]);
        } else {
            assert!(cam.is_empty());
        }
    });
    assert_eq!(pulses, 5);
    sh.lidar_on = false;
    run(&mut d, &mut sh, 450, |tick, frames| {
        if tick % 50 == 20 {
            assert_eq!(of_type(frames, 0x14), [[4, 0]]);
        }
        if tick % 50 == 30 {
            assert_eq!(of_type(frames, 0x26), [[0x64, 0, 0, 0, 0, 0, 0, 4]]);
        }
        assert!(of_type(frames, 0x1d).is_empty());
    });
}

#[test]
fn motor_message_carries_the_command() {
    let mut sh = Shared::new(false, false);
    let mut d = Driver::new(TxConfig::default());
    sh.set_drive(1000, f(150.0), f(-0.6));
    let frames = d.tick(&mut sh, 1010);
    assert_eq!(
        of_type(&frames, 0x00),
        [[1, 0x00, 0x00, 0x16, 0x43, 0x9a, 0x99, 0x19, 0xbf]]
    );
}

#[test]
fn actuator_levels_are_sent_in_vacuum_mode() {
    let mut sh = Shared::new(true, false);
    sh.set_fan(100);
    sh.set_mop(7);
    let mut d = Driver::new(TxConfig::default());
    run(&mut d, &mut sh, 50, |tick, frames| {
        if tick == 10 {
            assert_eq!(of_type(frames, 0x01), [[0, 0, 100, 7, 3, 0]]);
        }
    });
}

#[test]
fn camera_reset_can_be_changed() {
    let mut cfg = TxConfig::default();
    cfg.cam_sync_val = 3;
    let mut sh = Shared::new(true, false);
    let mut d = Driver::new(cfg);
    d.state.tick = 40;
    let frames = d.tick(&mut sh, 1);
    assert_eq!(of_type(&frames, 0x1d), [[5, 3]]);
    d.cfg.cam_sync = false;
    d.state.tick = 40;
    assert!(of_type(&d.tick(&mut sh, 1), 0x1d).is_empty());
}

#[test]
fn dry_cycle_walks_its_screens_and_ends() {
    let mut cfg = TxConfig::default();
    cfg.dry_stage_ms = 2000;
    let mut sh = Shared::new(true, false);
    sh.set_station(1);
    let mut d = Driver::new(cfg);
    let slots = dock_slots(&mut d, &mut sh, 16);
    let screens: Vec<u8> = slots.iter().map(|s| s[0][0]).collect();
    assert_eq!(
        screens,
        [
            0x0e, 0x0e, 0x65, 0x65, 0x66, 0x66, 0x67, 0x67, 0x15, 0x15, 0x15, 0x15, 0x15, 0x15,
            0x15, 0x15
        ]
    );
    assert_eq!(slots[0][0], [0x0e, 0, 0, 0x78, 0, 0, 1, 2]);
    assert_eq!(sh.station, 0);
    assert_eq!(d.state.cycle_start_ms, 0);
}

#[test]
fn wash_cycle_drives_the_pads() {
    let mut sh = Shared::new(true, false);
    sh.set_station(2);
    sh.set_fan(9);
    sh.set_dock_screen(0x03);
    sh.set_dock_frame(&[1, 1, 1, 1, 1, 1, 1, 1]);
    let mut d = Driver::new(TxConfig::default());
    run(&mut d, &mut sh, 50, |tick, frames| {
        if tick == 10 {
            assert_eq!(of_type(frames, 0x01), [[0, 1, 0, 0xd6, 0, 0]]);
        }
        if tick == 30 {
            assert_eq!(of_type(frames, 0x26), [[0x0d, 0, 0x46, 0, 0, 0, 0, 2]]);
        }
    });
    assert_eq!(sh.station, 2);
}

#[test]
fn wash_chosen_during_a_dry_starts_from_the_first_step() {
    let mut sh = Shared::new(true, false);
    let mut d = Driver::new(TxConfig::default());
    sh.set_station(1);
    d.tick(&mut sh, 1_000);
    assert_eq!(d.state.cycle_start_ms, 1_000);
    sh.set_station(2);
    d.state.tick = 30;
    let frames = d.tick(&mut sh, 201_000);
    assert_eq!(d.state.cycle_start_ms, 201_000);
    assert_eq!(of_type(&frames, 0x26), [[0x0d, 0, 0x46, 0, 0, 0, 0, 2]]);
    d.state.tick = 30;
    let frames = d.tick(&mut sh, 221_700);
    assert_eq!(of_type(&frames, 0x26), [[0x0d, 0x78, 0x46, 0, 0, 0, 0, 2]]);
}

#[test]
fn dry_chosen_during_a_wash_starts_from_the_first_screen() {
    let mut sh = Shared::new(true, false);
    let mut cfg = TxConfig::default();
    cfg.dry_stage_ms = 1_000;
    let mut d = Driver::new(cfg);
    sh.set_station(2);
    d.tick(&mut sh, 1_000);
    sh.set_station(1);
    d.state.tick = 30;
    let frames = d.tick(&mut sh, 101_000);
    assert_eq!(of_type(&frames, 0x26), [[0x0e, 0, 0, 0x78, 0, 0, 1, 2]]);
    assert_eq!((sh.station, d.state.cycle_start_ms), (1, 101_000));
    d.tick(&mut sh, 105_000);
    assert_eq!(sh.station, 0);
}

#[test]
fn switching_off_aborts_with_stop_frames() {
    let mut sh = Shared::new(false, false);
    sh.set_station(1);
    let mut d = Driver::new(TxConfig::default());
    assert_eq!(dock_slots(&mut d, &mut sh, 1)[0], [[0x0e, 0, 0, 0x78, 0, 0, 1, 2]]);
    sh.set_station(0);
    sh.set_dock_screen(0x03);
    let slots = dock_slots(&mut d, &mut sh, 6);
    for slot in &slots[..5] {
        assert_eq!(slot[0], STOP);
    }
    assert_eq!(slots[5][0], [0x03, 0, 0, 0, 0, 0, 0, 2]);
}

#[test]
fn idle_dock_shows_what_was_chosen() {
    let mut sh = Shared::new(true, false);
    let mut d = Driver::new(TxConfig::default());
    dock_slots(&mut d, &mut sh, 5);
    assert_eq!(d.state.off_pulse, 0);
    assert_eq!(dock_slots(&mut d, &mut sh, 1)[0], [STOP]);
    sh.set_dock_screen(0x0c);
    assert_eq!(dock_slots(&mut d, &mut sh, 1)[0], [[0x0c, 0, 0, 0, 0, 0, 0, 2]]);
    sh.set_dock_frame(&[9, 8, 7, 6, 5, 4, 3, 2]);
    assert_eq!(dock_slots(&mut d, &mut sh, 1)[0], [[9, 8, 7, 6, 5, 4, 3, 2]]);
    sh.set_dock_frame(&[]);
    sh.set_dock_screen(0);
    sh.set_parked(false);
    assert_eq!(dock_slots(&mut d, &mut sh, 1)[0], [[0x14, 0, 0, 0, 0, 0, 0, 4]]);
}

#[test]
fn every_message_of_a_tick_fits_a_packet() {
    let mut sh = Shared::new(false, false);
    sh.set_drive(1000, f(100.0), f(1.0));
    sh.set_dock_frame(&[0x3c; 8]);
    sh.set_fan(0x3e);
    let mut d = Driver::new(TxConfig::default());
    run(&mut d, &mut sh, 200, |_, frames| {
        for f in frames {
            assert!(packet(f.typ, &f.payload).is_some());
        }
    });
}

#[test]
fn tick_counter_wraps() {
    let mut sh = Shared::new(true, false);
    let mut d = Driver::new(TxConfig::default());
    d.state.tick = u64::MAX;
    d.tick(&mut sh, 0);
    assert_eq!(d.state.tick, 0);
}

#[test]
fn cycle_steps_and_durations() {
    let dry = dry_steps(DEFAULT_DRY_STAGE_MS);
    assert_eq!(dry.iter().map(|s| s.duration_ms).sum::<u64>(), 1_200_000);
    let wash = wash_steps(1000);
    assert_eq!(wash.len(), 12);
    assert_eq!(wash.iter().map(|s| s.duration_ms).sum::<u64>(), 147_000);
    assert_eq!(seq_step(&wash, 20_699), Some(wash[0]));
    assert_eq!(seq_step(&wash, 20_700), Some(wash[1]));
    assert_eq!(seq_step(&wash, 142_999), Some(wash[7]));
    assert_eq!(seq_step(&wash, 143_000), Some(wash[8]));
    assert_eq!(seq_step(&wash, 146_999), Some(wash[11]));
    assert_eq!(seq_step(&wash, 147_000), None);
    assert_eq!(seq_step(&[], 0), None);
}

#[test]
fn last_message_stops_the_motors() {
    let f = stop_frame();
    assert_eq!((f.typ, f.payload), (0, vec![1, 0, 0, 0, 0, 0, 0, 0, 0]));
}

#[test]
fn cameras_follow_parking() {
    let mut plan = CameraPlan::new();
    assert_eq!(plan.next(true), Some((CameraMode::Both, 3000)));
    assert_eq!(plan.next(true), None);
    assert_eq!(plan.next(false), Some((CameraMode::Tof, 500)));
    assert_eq!(plan.next(false), None);
    assert_eq!(CameraMode::Both.name(), "both");
    assert_eq!(CameraMode::Tof.name(), "tof");
}
