//! What is sent to the MCU, tick by tick.
//!
//! A tick comes every 20 ms. Each sends one MotorCtrl message, and the periodic frames whose
//! slot it is: the MCU keeps streaming telemetry, and the LDS turret keeps spinning, only
//! while they come.
use vstd::prelude::*;

use crate::binary32::{clampf, is_negative, is_positive};
use crate::command::{motor_ctrl_payload, TX_MOTOR_CTRL, TX_SET_CLEANING, TX_SET_LED};
use crate::dock::{
    dry_steps, seq_step, wash_steps, DockStep, DEFAULT_DRY_STAGE_MS, STATION_DRY, STATION_IDLE,
    STATION_WASH,
};
use crate::shared::Shared;

verus! {

/// Register write: `[register, value]`.
pub const TX_REGISTER: u8 = 0x14;

/// Camera and laser control.
pub const TX_CAMERA: u8 = 0x1d;

/// Base-station (dock) command.
pub const TX_DOCK: u8 = 0x26;

/// 150 mm/s forward.
pub const MAX_LINEAR: u32 = 0x4316_0000;

/// 150 mm/s backward.
pub const MIN_LINEAR: u32 = 0xc316_0000;

/// 1.5 rad/s counter-clockwise.
pub const MAX_ROT: u32 = 0x3fc0_0000;

/// 1.5 rad/s clockwise.
pub const MIN_ROT: u32 = 0xbfc0_0000;

/// 80 mm/s backward, away from a bump.
pub const BUMP_BACK: u32 = 0xc2a0_0000;

/// 0.6 rad/s counter-clockwise, away from a bump on the right.
pub const BUMP_TURN_LEFT: u32 = 0x3f19_999a;

/// 0.6 rad/s clockwise, away from any other bump.
pub const BUMP_TURN_RIGHT: u32 = 0xbf19_999a;

/// No fresh command for this long stops the robot.
pub const WATCHDOG_MS: u64 = 500;

/// How often the dock is told to stop once a cycle is over, and at startup.
pub const OFF_PULSES: u32 = 5;

/// What the sender can be told to do otherwise.
#[derive(Debug, Clone, Copy, PartialEq, Eq)]
pub struct TxConfig {
    /// Duration of each dry stage.
    pub dry_stage_ms: u64,
    /// Whether the camera reset is sent while parked, and with which value.
    pub cam_sync: bool,
    pub cam_sync_val: u8,
    /// Whether the registers that enable the cliff sensors are written.
    pub mcu_init: bool,
    /// Whether a front bump is backed away from.
    pub bump_escape: bool,
    /// How long it is backed away from, and then turned away from.
    pub back_ms: u64,
    pub turn_ms: u64,
}

impl Default for TxConfig {
    fn default() -> (c: Self)
        ensures
            c == (TxConfig {
                dry_stage_ms: DEFAULT_DRY_STAGE_MS,
                cam_sync: true,
                cam_sync_val: 0,
                mcu_init: true,
                bump_escape: true,
                back_ms: 700,
                turn_ms: 1100,
            }),
    {
        TxConfig {
            dry_stage_ms: DEFAULT_DRY_STAGE_MS,
            cam_sync: true,
            cam_sync_val: 0,
            mcu_init: true,
            bump_escape: true,
            back_ms: 700,
            turn_ms: 1100,
        }
    }
}

/// Where the bump-escape reflex stands.
#[derive(Debug, Clone, Copy, PartialEq, Eq)]
pub enum EscapePhase {
    Idle,
    Backing,
    Turning,
}

/// The bump-escape reflex: back away, then turn away from the hit side.
#[derive(Debug, Clone, Copy, PartialEq, Eq)]
pub struct Escape {
    pub phase: EscapePhase,
    pub start_ms: u64,
    /// Turn left (counter-clockwise).
    pub left: bool,
}

/// What the sender remembers from tick to tick.
#[derive(Debug, Clone, Copy, PartialEq, Eq)]
pub struct TxState {
    pub tick: u64,
    /// When the running dock cycle began; 0 while none runs.
    pub cycle_start_ms: u64,
    pub prev_station: u8,
    /// Stop frames still owed to the dock.
    pub off_pulse: u32,
    pub escape: Escape,
}

/// A message to the MCU.
#[derive(Debug)]
pub struct TxFrame {
    pub typ: u8,
    pub payload: Vec<u8>,
}

impl View for TxFrame {
    type V = (u8, Seq<u8>);

    open spec fn view(&self) -> (u8, Seq<u8>) {
        (self.typ, self.payload@)
    }
}

/// Messages by type and payload.
pub open spec fn sent(frames: Seq<TxFrame>) -> Seq<(u8, Seq<u8>)> {
    frames.map_values(|f: TxFrame| f@)
}

// ---------------------------------------------------------------------------------------
// Motion
// ---------------------------------------------------------------------------------------
/// The commanded speeds, while the command is fresh, within the limits.
pub open spec fn commanded(sh: Shared, now_ms: u64) -> (u32, u32) {
    if sh.enabled && now_ms.wrapping_sub(sh.last_cmd_ms) < WATCHDOG_MS {
        (
            crate::binary32::clamped(sh.linear_bits, MIN_LINEAR, MAX_LINEAR),
            crate::binary32::clamped(sh.rot_bits, MIN_ROT, MAX_ROT),
        )
    } else {
        (0, 0)
    }
}

/// `linear`, or zero where a hazard lies that way.
pub open spec fn gated(sh: Shared, linear: u32) -> u32 {
    if (crate::binary32::less(0, linear) && sh.hazard_fwd) || (crate::binary32::less(linear, 0)
        && sh.hazard_rev) {
        0
    } else {
        linear
    }
}

/// A bump starts the reflex.
pub open spec fn escape_started(cfg: TxConfig, e: Escape, sh: Shared, now_ms: u64) -> Escape {
    if cfg.bump_escape && e.phase is Idle && sh.bumper {
        Escape { phase: EscapePhase::Backing, start_ms: now_ms, left: sh.bump_bits == 2 }
    } else {
        e
    }
}

/// Backing ends with its time, or where the way back is blocked, and turning begins.
pub open spec fn escape_backed(cfg: TxConfig, e: Escape, sh: Shared, now_ms: u64) -> Escape {
    if e.phase is Backing && (crate::shared::since(now_ms, e.start_ms) >= cfg.back_ms
        || sh.hazard_rev) {
        Escape { phase: EscapePhase::Turning, start_ms: now_ms, ..e }
    } else {
        e
    }
}

/// Turning ends with its time, and the reflex with it.
pub open spec fn escape_turned(cfg: TxConfig, e: Escape, now_ms: u64) -> Escape {
    if e.phase is Turning && crate::shared::since(now_ms, e.start_ms) >= cfg.turn_ms {
        Escape { phase: EscapePhase::Idle, ..e }
    } else {
        e
    }
}

/// The reflex at this tick.
pub open spec fn escape_next(cfg: TxConfig, e: Escape, sh: Shared, now_ms: u64) -> Escape {
    let started = escape_started(cfg, e, sh, now_ms);
    escape_turned(cfg, escape_backed(cfg, started, sh, now_ms), now_ms)
}

/// The speeds (linear, rotational) that are sent: those of the reflex, else the command.
pub open spec fn motion(cfg: TxConfig, e: Escape, sh: Shared, now_ms: u64) -> (u32, u32) {
    let next = escape_next(cfg, e, sh, now_ms);
    match next.phase {
        EscapePhase::Backing => (BUMP_BACK, 0),
        EscapePhase::Turning => (
            0,
            if next.left {
                BUMP_TURN_LEFT
            } else {
                BUMP_TURN_RIGHT
            },
        ),
        EscapePhase::Idle => {
            let (linear, rot) = commanded(sh, now_ms);
            (gated(sh, linear), rot)
        },
    }
}

/// One tick of the bump-escape reflex and the drive command: the reflex afterwards, and the
/// speeds (linear, rotational) to send.
pub fn drive(cfg: &TxConfig, e: Escape, sh: &Shared, now_ms: u64) -> (r: (Escape, u32, u32))
    ensures
        r.0 == escape_next(*cfg, e, *sh, now_ms),
        (r.1, r.2) == motion(*cfg, e, *sh, now_ms),
{
    let fresh: bool = now_ms.wrapping_sub(sh.last_cmd_ms) < WATCHDOG_MS;
    let mut lin: u32 = 0;
    let mut rot: u32 = 0;
    if sh.enabled && fresh {
        lin = clampf(sh.linear_bits, MIN_LINEAR, MAX_LINEAR);
        rot = clampf(sh.rot_bits, MIN_ROT, MAX_ROT);
    }
    if is_positive(lin) && sh.hazard_fwd {
        lin = 0;
    } else if is_negative(lin) && sh.hazard_rev {
        lin = 0;
    }
    let mut esc: Escape = e;
    if let EscapePhase::Idle = esc.phase {
        if cfg.bump_escape && sh.bumper {
            esc = Escape {
                phase: EscapePhase::Backing,
                start_ms: now_ms,
                left: sh.bump_bits == 2,
            };
        }
    }
    if let EscapePhase::Backing = esc.phase {
        // back away, unless a rear cliff or a lift blocks it
        if now_ms.saturating_sub(esc.start_ms) < cfg.back_ms && !sh.hazard_rev {
            lin = BUMP_BACK;
            rot = 0;
        } else {
            esc.phase = EscapePhase::Turning;
            esc.start_ms = now_ms;
        }
    }
    if let EscapePhase::Turning = esc.phase {
        if now_ms.saturating_sub(esc.start_ms) < cfg.turn_ms {
            lin = 0;
            rot = if esc.left {
                BUMP_TURN_LEFT
            } else {
                BUMP_TURN_RIGHT
            };
        } else {
            esc.phase = EscapePhase::Idle;  // the planner resumes
        }
    }
    (esc, lin, rot)
}

// ---------------------------------------------------------------------------------------
// Base station
// ---------------------------------------------------------------------------------------
/// What the dock cycle comes to at a tick.
#[derive(Debug, Clone, Copy, PartialEq, Eq)]
pub struct CycleTick {
    /// The dock function, back at idle once its cycle is over.
    pub station: u8,
    pub start_ms: u64,
    /// The step of the cycle that is running.
    pub step: Option<DockStep>,
}

/// The dock cycle at a tick, where it began at `start_ms`, or begins now where that is 0. Once
/// it is over the function is idle again.
pub open spec fn cycle_tick(cfg: TxConfig, start_ms: u64, station: u8, now_ms: u64) -> CycleTick {
    match crate::dock::cycle_of(station, cfg.dry_stage_ms) {
        None => CycleTick { station, start_ms: 0, step: None },
        Some(steps) => {
            let begun = if start_ms == 0 {
                now_ms
            } else {
                start_ms
            };
            match crate::dock::active_step(
                steps,
                crate::shared::since(now_ms, begun) as int,
            ) {
                Some(step) => CycleTick { station, start_ms: begun, step: Some(step) },
                None => CycleTick { station: STATION_IDLE, start_ms: 0, step: None },
            }
        },
    }
}

/// Stop frames owed to the dock once it is known which function is on: a function that just
/// went off owes all of them.
pub open spec fn pulses_owed(prev_station: u8, station: u8, off_pulse: u32) -> u32 {
    if station == STATION_IDLE && prev_station != STATION_IDLE {
        OFF_PULSES
    } else {
        off_pulse
    }
}

/// The dock payload that shows `screen` and runs neither pump nor fan.
pub open spec fn idle_shaped(screen: u8) -> Seq<u8> {
    seq![screen, 0, 0, 0, 0, 0, 0, 2]
}

/// The screen of the stop frame.
pub const STOP_SCREEN: u8 = 0x15;

pub open spec fn no_bytes() -> Seq<u8> {
    seq![0, 0, 0, 0, 0, 0, 0, 0]
}

/// What the dock is told in its slot. The running step comes first, then the stop frames that
/// are owed, the raw override, and the chosen screen; a parked robot with none of these tells
/// the dock to stop.
pub open spec fn dock_payload(sh: Shared, step: Option<DockStep>, pulses: u32) -> Option<
    Seq<u8>,
> {
    match step {
        Some(s) => Some(s.frame@),
        None => if pulses > 0 {
            Some(idle_shaped(STOP_SCREEN))
        } else if sh.dock_frame@ != no_bytes() {
            Some(sh.dock_frame@)
        } else if sh.dock_screen != 0 {
            Some(idle_shaped(sh.dock_screen))
        } else if sh.observe {
            Some(idle_shaped(STOP_SCREEN))
        } else {
            None
        },
    }
}

/// What the actuators are told in their slot: side brush, main brush, fan and mop levels, the
/// mode and a zero. A dock cycle drives the mop pads instead.
pub open spec fn cleaning_payload(sh: Shared, step: Option<DockStep>) -> Seq<u8> {
    match step {
        Some(s) => seq![0, 1, 0, s.pad, 0, 0],
        None => if sh.side_brush == 0 && sh.main_brush == 0 && sh.fan == 0 && sh.mop == 0 {
            seq![0, 1, 0, 0, 0, 0]
        } else {
            seq![sh.side_brush, sh.main_brush, sh.fan, sh.mop, 3, 0]
        },
    }
}

// ---------------------------------------------------------------------------------------
// A tick
// ---------------------------------------------------------------------------------------
/// One message, where it is due.
pub open spec fn due(cond: bool, typ: u8, payload: Seq<u8>) -> Seq<(u8, Seq<u8>)> {
    if cond {
        seq![(typ, payload)]
    } else {
        Seq::empty()
    }
}

/// The registers that enable the cliff sensors.
pub open spec fn init_frames(cfg: TxConfig, tick: u64) -> Seq<(u8, Seq<u8>)> {
    if cfg.mcu_init && tick % 50 == 15 {
        seq![
            (TX_REGISTER, seq![1u8, 1u8]),
            (TX_REGISTER, seq![0u8, 1u8]),
            (TX_REGISTER, seq![9u8, 2u8]),
        ]
    } else {
        Seq::empty()
    }
}

/// The dock message, where its slot is and there is something to say.
pub open spec fn dock_frames(
    tick: u64,
    sh: Shared,
    step: Option<DockStep>,
    pulses: u32,
) -> Seq<(u8, Seq<u8>)> {
    match dock_payload(sh, step, pulses) {
        Some(p) => due(tick % 50 == 30, TX_DOCK, p),
        None => Seq::empty(),
    }
}

/// What is sent in either mode.
pub open spec fn common_frames(
    cfg: TxConfig,
    tick: u64,
    sh: Shared,
    step: Option<DockStep>,
    pulses: u32,
) -> Seq<(u8, Seq<u8>)> {
    init_frames(cfg, tick) + due(tick % 25 == 5, TX_SET_LED, seq![0x21u8]) + due(
        tick % 50 == 10,
        TX_SET_CLEANING,
        cleaning_payload(sh, step),
    ) + dock_frames(tick, sh, step, pulses)
}

/// What is sent while parked: motors off, and the reset that lets the RGB camera stream.
pub open spec fn parked_frames(cfg: TxConfig, tick: u64) -> Seq<(u8, Seq<u8>)> {
    due(true, TX_MOTOR_CTRL, crate::command::motor_payload(1, 0, 0)) + due(
        cfg.cam_sync && tick % 50 == 40,
        TX_CAMERA,
        seq![5u8, cfg.cam_sync_val],
    )
}

/// The nav heartbeat to the dock.
pub open spec fn nav_payload(lidar_on: bool) -> Seq<u8> {
    seq![
        if lidar_on {
            0x14u8
        } else {
            0x64u8
        },
        0,
        0,
        0,
        0,
        0,
        0,
        4,
    ]
}

/// What is sent while driving: the speeds, and the nav frames that keep the turret as it is
/// told to be.
pub open spec fn driving_frames(
    tick: u64,
    lidar_on: bool,
    station: u8,
    linear: u32,
    rot: u32,
) -> Seq<(u8, Seq<u8>)> {
    due(true, TX_MOTOR_CTRL, crate::command::motor_payload(1, linear, rot)) + due(
        tick % 50 == 20,
        TX_REGISTER,
        seq![
            4u8,
            if lidar_on {
                1u8
            } else {
                0u8
            },
        ],
    ) + due(
        tick % 50 == 30 && station == STATION_IDLE,
        TX_DOCK,
        nav_payload(lidar_on),
    ) + due(lidar_on && tick % 200 == 40, TX_CAMERA, seq![5u8, 1u8])
}

impl TxState {
    /// When the cycle of the function `station` began, or 0 where it begins now: a function
    /// that was just chosen begins its own cycle, also in the midst of another.
    pub open spec fn begun_ms(self, station: u8) -> u64 {
        if self.prev_station == station {
            self.cycle_start_ms
        } else {
            0
        }
    }

    /// The dock cycle at this tick.
    pub open spec fn cycle(self, cfg: TxConfig, sh: Shared, now_ms: u64) -> CycleTick {
        cycle_tick(cfg, self.begun_ms(sh.station), sh.station, now_ms)
    }

    /// The stop frames owed at this tick.
    pub open spec fn pulses(self, cfg: TxConfig, sh: Shared, now_ms: u64) -> u32 {
        pulses_owed(self.prev_station, self.cycle(cfg, sh, now_ms).station, self.off_pulse)
    }

    /// What is sent at this tick, in order.
    pub open spec fn frames(self, cfg: TxConfig, sh: Shared, now_ms: u64) -> Seq<(u8, Seq<u8>)> {
        let cycle = self.cycle(cfg, sh, now_ms);
        common_frames(cfg, self.tick, sh, cycle.step, self.pulses(cfg, sh, now_ms)) + (
        if sh.observe {
            parked_frames(cfg, self.tick)
        } else {
            let (linear, rot) = motion(cfg, self.escape, sh, now_ms);
            driving_frames(self.tick, sh.lidar_on, cycle.station, linear, rot)
        })
    }

    /// The state after this tick. While parked the reflex rests.
    pub open spec fn next(self, cfg: TxConfig, sh: Shared, now_ms: u64) -> TxState {
        let cycle = self.cycle(cfg, sh, now_ms);
        let pulses = self.pulses(cfg, sh, now_ms);
        TxState {
            tick: self.tick.wrapping_add(1),
            cycle_start_ms: cycle.start_ms,
            prev_station: cycle.station,
            off_pulse: if self.tick % 50 == 30 && cycle.step is None && pulses > 0 {
                (pulses - 1) as u32
            } else {
                pulses
            },
            escape: if sh.observe {
                self.escape
            } else {
                escape_next(cfg, self.escape, sh, now_ms)
            },
        }
    }
}

/// Append a message.
pub(crate) fn send(out: &mut Vec<TxFrame>, typ: u8, payload: Vec<u8>)
    ensures
        sent(final(out)@) == sent(old(out)@).push((typ, payload@)),
{
    out.push(TxFrame { typ, payload });
    assert(sent(out@) =~= sent(old(out)@).push((typ, payload@)));
}

/// The message that stops the motors, to be sent last.
pub fn stop_frame() -> (f: TxFrame)
    ensures
        f@ == (TX_MOTOR_CTRL, crate::command::motor_payload(1, 0, 0)),
{
    TxFrame {
        typ: TX_MOTOR_CTRL,
        payload: vstd::slice::slice_to_vec(&motor_ctrl_payload(1, 0, 0)),
    }
}

/// The dock payload that shows `screen` and runs neither pump nor fan.
fn idle_frame(screen: u8) -> (p: Vec<u8>)
    ensures
        p@ == idle_shaped(screen),
{
    let p: Vec<u8> = vec![screen, 0, 0, 0, 0, 0, 0, 2];
    assert(p@ =~= idle_shaped(screen));
    p
}

/// Append what is sent in either mode, and say how many stop frames are owed after that.
fn send_common(
    out: &mut Vec<TxFrame>,
    cfg: &TxConfig,
    tick: u64,
    sh: &Shared,
    step: &Option<DockStep>,
    pulses: u32,
) -> (left: u32)
    ensures
        sent(final(out)@) == sent(old(out)@) + common_frames(*cfg, tick, *sh, *step, pulses),
        left == (if tick % 50 == 30 && *step is None && pulses > 0 {
            (pulses - 1) as u32
        } else {
            pulses
        }),
{
    let ghost before = sent(out@);
    if cfg.mcu_init && tick % 50 == 15 {
        send(out, TX_REGISTER, vec![0x01, 0x01]);
        send(out, TX_REGISTER, vec![0x00, 0x01]);
        send(out, TX_REGISTER, vec![0x09, 0x02]);
    }
    assert(sent(out@) =~~= before + init_frames(*cfg, tick));
    let ghost before = sent(out@);
    if tick % 25 == 5 {
        send(out, TX_SET_LED, vec![0x21]);
    }
    assert(sent(out@) =~~= before + due(tick % 25 == 5, TX_SET_LED, seq![0x21u8]));
    let ghost before = sent(out@);
    if tick % 50 == 10 {
        let p: Vec<u8> = match step {
            Some(s) => vec![0, 1, 0, s.pad, 0, 0],
            None => if sh.side_brush == 0 && sh.main_brush == 0 && sh.fan == 0 && sh.mop == 0 {
                vec![0, 1, 0, 0, 0, 0]
            } else {
                vec![sh.side_brush, sh.main_brush, sh.fan, sh.mop, 3, 0]
            },
        };
        assert(p@ =~= cleaning_payload(*sh, *step));
        send(out, TX_SET_CLEANING, p);
    }
    assert(sent(out@) =~= before + due(
        tick % 50 == 10,
        TX_SET_CLEANING,
        cleaning_payload(*sh, *step),
    ));
    let ghost before = sent(out@);
    let mut left: u32 = pulses;
    if tick % 50 == 30 {
        match step {
            Some(s) => {
                send(out, TX_DOCK, vstd::slice::slice_to_vec(&s.frame));
            },
            None => if pulses > 0 {
                left = pulses - 1;
                send(out, TX_DOCK, idle_frame(STOP_SCREEN));
            } else if !all_zero(&sh.dock_frame) {
                send(out, TX_DOCK, vstd::slice::slice_to_vec(&sh.dock_frame));
            } else if sh.dock_screen != 0 {
                send(out, TX_DOCK, idle_frame(sh.dock_screen));
            } else if sh.observe {
                send(out, TX_DOCK, idle_frame(STOP_SCREEN));
            },
        }
    }
    assert(sent(out@) =~= before + dock_frames(tick, *sh, *step, pulses));
    left
}

fn all_zero(bytes: &[u8; 8]) -> (r: bool)
    ensures
        r == (bytes@ == no_bytes()),
{
    for i in 0..8usize
        invariant
            forall|j: int| 0 <= j < i ==> bytes@[j] == 0,
    {
        if bytes[i] != 0 {
            assert(no_bytes()[i as int] == 0);
            return false;
        }
    }
    assert(bytes@ =~= no_bytes());
    true
}

/// Append what is sent while parked.
fn send_parked(out: &mut Vec<TxFrame>, cfg: &TxConfig, tick: u64)
    ensures
        sent(final(out)@) == sent(old(out)@) + parked_frames(*cfg, tick),
{
    let ghost before = sent(out@);
    send(out, TX_MOTOR_CTRL, vstd::slice::slice_to_vec(&motor_ctrl_payload(1, 0, 0)));
    if cfg.cam_sync && tick % 50 == 40 {
        send(out, TX_CAMERA, vec![0x05, cfg.cam_sync_val]);
    }
    assert(sent(out@) =~~= before + parked_frames(*cfg, tick));
}

/// Append what is sent while driving.
fn send_driving(
    out: &mut Vec<TxFrame>,
    tick: u64,
    lidar_on: bool,
    station: u8,
    linear: u32,
    rot: u32,
)
    ensures
        sent(final(out)@) == sent(old(out)@) + driving_frames(tick, lidar_on, station, linear, rot),
{
    let ghost before = sent(out@);
    send(out, TX_MOTOR_CTRL, vstd::slice::slice_to_vec(&motor_ctrl_payload(1, linear, rot)));
    if tick % 50 == 20 {
        let v: u8 = if lidar_on {
            1
        } else {
            0
        };
        send(out, TX_REGISTER, vec![0x04, v]);
    }
    if tick % 50 == 30 && station == STATION_IDLE {
        let screen: u8 = if lidar_on {
            0x14
        } else {
            0x64
        };
        send(out, TX_DOCK, vec![screen, 0, 0, 0, 0, 0, 0, 4]);
    }
    if lidar_on && tick % 200 == 40 {
        send(out, TX_CAMERA, vec![0x05, 0x01]);
    }
    assert(sent(out@) =~~= before + driving_frames(tick, lidar_on, station, linear, rot));
}

/// The sender: its settings, its state, and the dock cycles that follow from the settings.
pub struct Driver {
    pub cfg: TxConfig,
    pub state: TxState,
    pub dry: Vec<DockStep>,
    pub wash: Vec<DockStep>,
}

impl Driver {
    /// The cycles are those of the settings.
    pub open spec fn wf(&self) -> bool {
        &&& self.dry@ == crate::dock::dry_stages(self.cfg.dry_stage_ms)
        &&& self.wash@ == crate::dock::wet_steps() + crate::dock::dry_stages(
            self.cfg.dry_stage_ms,
        )
    }

    /// A sender at startup. It owes the dock its stop frames, in case a cycle was left
    /// running.
    pub fn new(cfg: TxConfig) -> (d: Self)
        ensures
            d.wf(),
            d.state.sound(),
            d.cfg == cfg,
            d.state == (TxState {
                tick: 0,
                cycle_start_ms: 0,
                prev_station: STATION_IDLE,
                off_pulse: OFF_PULSES,
                escape: (Escape { phase: EscapePhase::Idle, start_ms: 0, left: false }),
            }),
    {
        Driver {
            cfg,
            state: TxState {
                tick: 0,
                cycle_start_ms: 0,
                prev_station: STATION_IDLE,
                off_pulse: OFF_PULSES,
                escape: Escape { phase: EscapePhase::Idle, start_ms: 0, left: false },
            },
            dry: dry_steps(cfg.dry_stage_ms),
            wash: wash_steps(cfg.dry_stage_ms),
        }
    }

    fn cycle_at(&self, station: u8, now_ms: u64) -> (r: CycleTick)
        requires
            self.wf(),
        ensures
            r == cycle_tick(self.cfg, self.state.begun_ms(station), station, now_ms),
    {
        if station != STATION_DRY && station != STATION_WASH {
            return CycleTick { station, start_ms: 0, step: None };
        }
        let begun: u64 = if self.state.prev_station != station || self.state.cycle_start_ms == 0 {
            now_ms
        } else {
            self.state.cycle_start_ms
        };
        let elapsed: u64 = now_ms.saturating_sub(begun);
        let step: Option<DockStep> = if station == STATION_WASH {
            seq_step(&self.wash, elapsed)
        } else {
            seq_step(&self.dry, elapsed)
        };
        match step {
            Some(s) => CycleTick { station, start_ms: begun, step: Some(s) },
            None => CycleTick { station: STATION_IDLE, start_ms: 0, step: None },
        }
    }

    /// One tick: the messages to send, in order. A dock cycle that is over sets the dock
    /// function back to idle.
    pub fn tick(&mut self, sh: &mut Shared, now_ms: u64) -> (frames: Vec<TxFrame>)
        requires
            old(self).wf(),
        ensures
            final(self).wf(),
            final(self).cfg == old(self).cfg,
            final(self).state == old(self).state.next(old(self).cfg, *old(sh), now_ms),
            sent(frames@) == old(self).state.frames(old(self).cfg, *old(sh), now_ms),
            *final(sh) == (Shared {
                station: old(self).state.cycle(old(self).cfg, *old(sh), now_ms).station,
                ..*old(sh)
            }),
    {
        let mut out: Vec<TxFrame> = Vec::new();
        assert(sent(out@) =~= Seq::<(u8, Seq<u8>)>::empty());
        let tick: u64 = self.state.tick;
        let cycle: CycleTick = self.cycle_at(sh.station, now_ms);
        sh.station = cycle.station;
        let pulses: u32 = if cycle.station == STATION_IDLE && self.state.prev_station
            != STATION_IDLE {
            OFF_PULSES
        } else {
            self.state.off_pulse
        };
        let left: u32 = send_common(&mut out, &self.cfg, tick, &*sh, &cycle.step, pulses);
        let mut escape: Escape = self.state.escape;
        if sh.observe {
            send_parked(&mut out, &self.cfg, tick);
        } else {
            let (esc, lin, rot): (Escape, u32, u32) = drive(&self.cfg, escape, &*sh, now_ms);
            escape = esc;
            send_driving(&mut out, tick, sh.lidar_on, cycle.station, lin, rot);
        }
        self.state = TxState {
            tick: tick.wrapping_add(1),
            cycle_start_ms: cycle.start_ms,
            prev_station: cycle.station,
            off_pulse: left,
            escape,
        };
        out
    }
}

// ---------------------------------------------------------------------------------------
// What holds of every tick
// ---------------------------------------------------------------------------------------
/// The robot is never sent forward into a front hazard, nor backward into a rear one, by a
/// command or by the reflex.
pub proof fn law_never_into_a_hazard(cfg: TxConfig, e: Escape, sh: Shared, now_ms: u64)
    ensures
        sh.hazard_fwd ==> !crate::binary32::less(0, motion(cfg, e, sh, now_ms).0),
        sh.hazard_rev ==> !crate::binary32::less(motion(cfg, e, sh, now_ms).0, 0),
{
}

/// Whatever was commanded, the speeds that are sent are numbers within the limits.
pub proof fn law_speeds_are_limited(cfg: TxConfig, e: Escape, sh: Shared, now_ms: u64)
    ensures
        ({
            let (linear, rot) = motion(cfg, e, sh, now_ms);
            &&& !crate::binary32::less(linear, MIN_LINEAR)
            &&& !crate::binary32::less(MAX_LINEAR, linear)
            &&& !crate::binary32::less(rot, MIN_ROT)
            &&& !crate::binary32::less(MAX_ROT, rot)
            &&& crate::binary32::is_finite(linear)
            &&& crate::binary32::is_finite(rot)
        }),
{
}

/// Without a command in the last `WATCHDOG_MS` the robot stands still, but for the reflex.
pub proof fn law_stale_command_stops(cfg: TxConfig, e: Escape, sh: Shared, now_ms: u64)
    requires
        !sh.enabled || now_ms - sh.last_cmd_ms >= WATCHDOG_MS,
        escape_next(cfg, e, sh, now_ms).phase is Idle,
    ensures
        motion(cfg, e, sh, now_ms) == (0u32, 0u32),
{
}

/// A fresh command within the limits is sent as it was given where no hazard lies that way,
/// unless the reflex is at work.
pub proof fn law_fresh_command_is_followed(cfg: TxConfig, e: Escape, sh: Shared, now_ms: u64)
    requires
        sh.enabled,
        0 <= now_ms - sh.last_cmd_ms < WATCHDOG_MS,
        escape_next(cfg, e, sh, now_ms).phase is Idle,
        !sh.hazard_fwd || !crate::binary32::less(0, sh.linear_bits),
        !sh.hazard_rev || !crate::binary32::less(sh.linear_bits, 0),
        !crate::binary32::is_nan(sh.linear_bits),
        !crate::binary32::is_nan(sh.rot_bits),
        !crate::binary32::less(sh.linear_bits, MIN_LINEAR),
        !crate::binary32::less(MAX_LINEAR, sh.linear_bits),
        !crate::binary32::less(sh.rot_bits, MIN_ROT),
        !crate::binary32::less(MAX_ROT, sh.rot_bits),
    ensures
        motion(cfg, e, sh, now_ms) == (sh.linear_bits, sh.rot_bits),
{
}

/// The reflex runs its course: it backs away for `back_ms`, or until the way back is blocked,
/// then turns for `turn_ms`, and then gives way to the command.
pub proof fn law_reflex_runs_its_course(cfg: TxConfig, e: Escape, sh: Shared, now_ms: u64)
    ensures
        e.phase is Backing && now_ms - e.start_ms < cfg.back_ms && cfg.back_ms > 0
            && !sh.hazard_rev ==> escape_next(cfg, e, sh, now_ms) == e,
        e.phase is Backing && (now_ms - e.start_ms >= cfg.back_ms || sh.hazard_rev) && cfg.turn_ms
            > 0 ==> escape_next(cfg, e, sh, now_ms) == (Escape {
            phase: EscapePhase::Turning,
            start_ms: now_ms,
            ..e
        }),
        e.phase is Turning && now_ms - e.start_ms < cfg.turn_ms && cfg.turn_ms > 0 ==> escape_next(
            cfg,
            e,
            sh,
            now_ms,
        ) == e,
        e.phase is Turning && now_ms - e.start_ms >= cfg.turn_ms ==> escape_next(
            cfg,
            e,
            sh,
            now_ms,
        ) == (Escape { phase: EscapePhase::Idle, ..e }),
        e.phase is Backing && (now_ms - e.start_ms >= cfg.back_ms || sh.hazard_rev) && cfg.turn_ms
            == 0 ==> escape_next(cfg, e, sh, now_ms) == (Escape {
            phase: EscapePhase::Idle,
            start_ms: now_ms,
            ..e
        }),
        e.phase is Idle && (!sh.bumper || !cfg.bump_escape) ==> escape_next(cfg, e, sh, now_ms)
            == e,
        e.phase is Backing && cfg.back_ms == 0 && cfg.turn_ms > 0 ==> escape_next(
            cfg,
            e,
            sh,
            now_ms,
        ) == (Escape { phase: EscapePhase::Turning, start_ms: now_ms, ..e }),
        e.phase is Backing && cfg.back_ms == 0 && cfg.turn_ms == 0 ==> escape_next(
            cfg,
            e,
            sh,
            now_ms,
        ) == (Escape { phase: EscapePhase::Idle, start_ms: now_ms, ..e }),
        e.phase is Turning && cfg.turn_ms == 0 ==> escape_next(cfg, e, sh, now_ms) == (Escape {
            phase: EscapePhase::Idle,
            ..e
        }),
{
}

/// A bump starts the reflex at once, remembering whether only the right bumper was hit. Where
/// there is no backing away it starts with the turn, and where there is no turn either it is
/// over at once.
pub proof fn law_bump_starts_the_reflex(cfg: TxConfig, e: Escape, sh: Shared, now_ms: u64)
    requires
        e.phase is Idle,
        cfg.bump_escape,
        sh.bumper,
    ensures
        ({
            let next = escape_next(cfg, e, sh, now_ms);
            &&& next.start_ms == now_ms
            &&& next.left == (sh.bump_bits == 2)
            &&& next.phase is Backing <==> cfg.back_ms > 0 && !sh.hazard_rev
            &&& next.phase is Turning <==> (cfg.back_ms == 0 || sh.hazard_rev) && cfg.turn_ms > 0
        }),
{
}

/// While the reflex is at work it alone decides: 80 mm/s backward without turning, then 0.6 rad/s
/// on the spot, counter-clockwise away from a bump on the right and else clockwise.
pub proof fn law_reflex_overrides_the_command(cfg: TxConfig, e: Escape, sh: Shared, now_ms: u64)
    ensures
        ({
            let next = escape_next(cfg, e, sh, now_ms);
            let sent = motion(cfg, e, sh, now_ms);
            &&& next.phase is Backing ==> sent == (0xc2a0_0000u32, 0u32)
            &&& next.phase is Turning && next.left ==> sent == (0u32, 0x3f19_999au32)
            &&& next.phase is Turning && !next.left ==> sent == (0u32, 0xbf19_999au32)
        }),
{
}

/// What the limits are: 150 mm/s either way, 1.5 rad/s either way, and 80 mm/s away from a bump,
/// as values in units of 2^-149.
pub proof fn law_limits_are_150_and_1_5()
    ensures
        ({
            let one = vstd::arithmetic::power2::pow2(149) as int;
            &&& crate::binary32::value(0x4316_0000) == 150 * one
            &&& crate::binary32::value(0xc316_0000) == -150 * one
            &&& 2 * crate::binary32::value(0x3fc0_0000) == 3 * one
            &&& 2 * crate::binary32::value(0xbfc0_0000) == -3 * one
            &&& crate::binary32::value(0xc2a0_0000) == -80 * one
            &&& one > 0
        }),
{
    let one = vstd::arithmetic::power2::pow2(149) as int;
    let p126 = vstd::arithmetic::power2::pow2(126) as int;
    let p132 = vstd::arithmetic::power2::pow2(132) as int;
    let p133 = vstd::arithmetic::power2::pow2(133) as int;
    vstd::arithmetic::power2::lemma_pow2_pos(149);
    vstd::arithmetic::power2::lemma_pow2_adds(126, 23);
    vstd::arithmetic::power2::lemma_pow2_adds(132, 17);
    vstd::arithmetic::power2::lemma_pow2_adds(133, 16);
    vstd::arithmetic::power2::lemma2_to64();
    assert(one == p126 * 0x80_0000);
    assert(one == p132 * 0x2_0000);
    assert(one == p133 * 0x1_0000);
    assert(crate::binary32::value(0x4316_0000) == 0x96_0000 * p133);
    assert(crate::binary32::value(0xc316_0000) == -(0x96_0000 * p133));
    assert(crate::binary32::value(0x3fc0_0000) == 0xc0_0000 * p126);
    assert(crate::binary32::value(0xbfc0_0000) == -(0xc0_0000 * p126));
    assert(crate::binary32::value(0xc2a0_0000) == -(0xa0_0000 * p132));
}

/// A fresh command is sent at the nearest speed within the limits: beyond 150 mm/s as 150 mm/s
/// in the same direction, else as it was given, and zero where a hazard lies that way. Rotation
/// goes to the nearest rate within 1.5 rad/s in the same way, whatever the hazards. What is no
/// number counts as the lower limit.
pub proof fn law_command_is_sent_at_the_nearest_speed(
    cfg: TxConfig,
    e: Escape,
    sh: Shared,
    now_ms: u64,
)
    requires
        sh.enabled,
        0 <= now_ms - sh.last_cmd_ms < 500 || sh.last_cmd_ms - now_ms > 0xffff_ffff_ffff_fe0c,
        escape_next(cfg, e, sh, now_ms).phase is Idle,
    ensures
        ({
            let (linear, rot) = motion(cfg, e, sh, now_ms);
            let one = vstd::arithmetic::power2::pow2(149) as int;
            let v = crate::binary32::value(sh.linear_bits);
            let w = crate::binary32::value(sh.rot_bits);
            let number = !crate::binary32::is_nan(sh.linear_bits);
            let turn = !crate::binary32::is_nan(sh.rot_bits);
            &&& !sh.hazard_rev && (!number || v < -150 * one) ==> linear == 0xc316_0000
            &&& !sh.hazard_fwd && number && v > 150 * one ==> linear == 0x4316_0000
            &&& !sh.hazard_rev && number && -150 * one <= v < 0 ==> linear == sh.linear_bits
            &&& !sh.hazard_fwd && number && 0 < v <= 150 * one ==> linear == sh.linear_bits
            &&& number && v == 0 ==> linear == sh.linear_bits
            &&& sh.hazard_rev && (!number || v < 0) ==> linear == 0
            &&& sh.hazard_fwd && number && v > 0 ==> linear == 0
            &&& !turn || 2 * w < -3 * one ==> rot == 0xbfc0_0000
            &&& turn && 2 * w > 3 * one ==> rot == 0x3fc0_0000
            &&& turn && -3 * one <= 2 * w <= 3 * one ==> rot == sh.rot_bits
        }),
{
    law_limits_are_150_and_1_5();
    crate::binary32::law_clamped_is_nearest(sh.linear_bits, 0xc316_0000, 0x4316_0000, 0);
    crate::binary32::law_clamped_is_nearest(sh.rot_bits, 0xbfc0_0000, 0x3fc0_0000, 0);
    let c = crate::binary32::clamped(sh.linear_bits, 0xc316_0000, 0x4316_0000);
    crate::binary32::law_patterns_order_as_values(0, c);
    crate::binary32::law_patterns_order_as_values(c, 0);
    assert(now_ms.wrapping_sub(sh.last_cmd_ms) < 500);
}

/// A command faster than another is never sent slower, in either component, and none is sent in
/// the opposite direction.
pub proof fn law_faster_command_is_sent_no_slower(
    cfg: TxConfig,
    e: Escape,
    sh: Shared,
    other: Shared,
    now_ms: u64,
)
    requires
        sh.enabled,
        0 <= now_ms - sh.last_cmd_ms < 500 || sh.last_cmd_ms - now_ms > 0xffff_ffff_ffff_fe0c,
        escape_next(cfg, e, sh, now_ms).phase is Idle,
        other == (Shared { linear_bits: other.linear_bits, rot_bits: other.rot_bits, ..sh }),
        !crate::binary32::is_nan(sh.linear_bits) && !crate::binary32::is_nan(sh.rot_bits),
        !crate::binary32::is_nan(other.linear_bits) && !crate::binary32::is_nan(other.rot_bits),
        crate::binary32::value(sh.linear_bits) <= crate::binary32::value(other.linear_bits),
        crate::binary32::value(sh.rot_bits) <= crate::binary32::value(other.rot_bits),
    ensures
        ({
            let a = motion(cfg, e, sh, now_ms);
            let b = motion(cfg, e, other, now_ms);
            &&& crate::binary32::value(a.0) <= crate::binary32::value(b.0)
            &&& crate::binary32::value(a.1) <= crate::binary32::value(b.1)
            &&& crate::binary32::value(sh.linear_bits) >= 0 ==> crate::binary32::value(a.0) >= 0
            &&& crate::binary32::value(sh.linear_bits) <= 0 ==> crate::binary32::value(a.0) <= 0
            &&& crate::binary32::value(sh.rot_bits) >= 0 ==> crate::binary32::value(a.1) >= 0
            &&& crate::binary32::value(sh.rot_bits) <= 0 ==> crate::binary32::value(a.1) <= 0
        }),
{
    law_limits_are_150_and_1_5();
    law_command_is_sent_at_the_nearest_speed(cfg, e, sh, now_ms);
    law_command_is_sent_at_the_nearest_speed(cfg, e, other, now_ms);
    crate::binary32::law_patterns_order_as_values(0, 0);
}

/// A command that is 500 ms old, or that was never given or lies in the future, moves nothing.
pub proof fn law_old_command_moves_nothing(cfg: TxConfig, e: Escape, sh: Shared, now_ms: u64)
    requires
        !sh.enabled || now_ms - sh.last_cmd_ms >= 500 || 0 < sh.last_cmd_ms - now_ms
            <= 0xffff_ffff_ffff_fe0c,
        escape_next(cfg, e, sh, now_ms).phase is Idle,
    ensures
        motion(cfg, e, sh, now_ms) == (0u32, 0u32),
{
}

/// A bump on the right turns the robot left; a bump on the left, or head-on, turns it right.
pub proof fn law_reflex_turns_away_from_the_bump(
    cfg: TxConfig,
    e: Escape,
    sh: Shared,
    t: crate::triggers::Triggers,
    now_ms: u64,
)
    requires
        cfg.bump_escape,
        e.phase is Idle,
        crate::shared::bumped(t),
    ensures
        escape_started(cfg, e, sh.with_triggers(t), now_ms) == (Escape {
            phase: EscapePhase::Backing,
            start_ms: now_ms,
            left: t.has(5) && !t.has(4),
        }),
{
}

/// The MotorCtrl messages among `frames`.
pub open spec fn motor_messages(frames: Seq<(u8, Seq<u8>)>) -> Seq<(u8, Seq<u8>)> {
    frames.filter(|f: (u8, Seq<u8>)| f.0 == TX_MOTOR_CTRL)
}

proof fn lemma_motor_messages_of_concat(a: Seq<(u8, Seq<u8>)>, b: Seq<(u8, Seq<u8>)>)
    ensures
        motor_messages(a + b) == motor_messages(a) + motor_messages(b),
{
    Seq::filter_distributes_over_add(a, b, |f: (u8, Seq<u8>)| f.0 == TX_MOTOR_CTRL);
}

proof fn lemma_no_motor_messages(frames: Seq<(u8, Seq<u8>)>)
    requires
        forall|i: int| 0 <= i < frames.len() ==> (#[trigger] frames[i]).0 != TX_MOTOR_CTRL,
    ensures
        motor_messages(frames) == Seq::<(u8, Seq<u8>)>::empty(),
    decreases frames.len(),
{
    reveal(Seq::filter);
    if frames.len() > 0 {
        lemma_no_motor_messages(frames.drop_last());
    }
}

/// A MotorCtrl message followed by others.
proof fn lemma_motor_message_first(payload: Seq<u8>, tail: Seq<(u8, Seq<u8>)>)
    requires
        forall|i: int| 0 <= i < tail.len() ==> (#[trigger] tail[i]).0 != TX_MOTOR_CTRL,
    ensures
        motor_messages(seq![(TX_MOTOR_CTRL, payload)] + tail) == seq![(TX_MOTOR_CTRL, payload)],
{
    let first = seq![(TX_MOTOR_CTRL, payload)];
    lemma_motor_messages_of_concat(first, tail);
    lemma_no_motor_messages(tail);
    lemma_no_motor_messages(first.drop_last());
    reveal(Seq::filter);
    assert(motor_messages(first) =~= first);
    assert(first + Seq::<(u8, Seq<u8>)>::empty() =~= first);
}

proof fn lemma_common_has_no_motor_message(
    cfg: TxConfig,
    tick: u64,
    sh: Shared,
    step: Option<DockStep>,
    pulses: u32,
)
    ensures
        motor_messages(common_frames(cfg, tick, sh, step, pulses)) == Seq::<
            (u8, Seq<u8>),
        >::empty(),
{
    let init = init_frames(cfg, tick);
    let led = due(tick % 25 == 5, TX_SET_LED, seq![0x21u8]);
    let cleaning = due(tick % 50 == 10, TX_SET_CLEANING, cleaning_payload(sh, step));
    let dock = dock_frames(tick, sh, step, pulses);
    lemma_no_motor_messages(init);
    lemma_no_motor_messages(led);
    lemma_no_motor_messages(cleaning);
    lemma_no_motor_messages(dock);
    lemma_motor_messages_of_concat(init, led);
    lemma_motor_messages_of_concat(init + led, cleaning);
    lemma_motor_messages_of_concat(init + led + cleaning, dock);
}

proof fn lemma_parked_motor_message(cfg: TxConfig, tick: u64)
    ensures
        motor_messages(parked_frames(cfg, tick)) == seq![
            (TX_MOTOR_CTRL, crate::command::motor_payload(1, 0, 0)),
        ],
{
    lemma_motor_message_first(
        crate::command::motor_payload(1, 0, 0),
        due(cfg.cam_sync && tick % 50 == 40, TX_CAMERA, seq![5u8, cfg.cam_sync_val]),
    );
}

proof fn lemma_driving_motor_message(
    tick: u64,
    lidar_on: bool,
    station: u8,
    linear: u32,
    rot: u32,
)
    ensures
        motor_messages(driving_frames(tick, lidar_on, station, linear, rot)) == seq![
            (TX_MOTOR_CTRL, crate::command::motor_payload(1, linear, rot)),
        ],
{
    let frames = driving_frames(tick, lidar_on, station, linear, rot);
    let first = seq![(TX_MOTOR_CTRL, crate::command::motor_payload(1, linear, rot))];
    let tail = frames.skip(1);
    assert(frames =~= first + tail);
    lemma_motor_message_first(crate::command::motor_payload(1, linear, rot), tail);
}

/// Each tick sends exactly one MotorCtrl message: motors off while parked, else the speeds of
/// `motion`.
pub proof fn law_one_motor_message_per_tick(cfg: TxConfig, st: TxState, sh: Shared, now_ms: u64)
    ensures
        sh.observe ==> motor_messages(st.frames(cfg, sh, now_ms)) == seq![
            (TX_MOTOR_CTRL, crate::command::motor_payload(1, 0, 0)),
        ],
        !sh.observe ==> {
            let (linear, rot) = motion(cfg, st.escape, sh, now_ms);
            motor_messages(st.frames(cfg, sh, now_ms)) == seq![
                (TX_MOTOR_CTRL, crate::command::motor_payload(1, linear, rot)),
            ]
        },
{
    let cycle = st.cycle(cfg, sh, now_ms);
    let pulses = st.pulses(cfg, sh, now_ms);
    let common = common_frames(cfg, st.tick, sh, cycle.step, pulses);
    lemma_common_has_no_motor_message(cfg, st.tick, sh, cycle.step, pulses);
    let (linear, rot) = motion(cfg, st.escape, sh, now_ms);
    let rest = if sh.observe {
        parked_frames(cfg, st.tick)
    } else {
        driving_frames(st.tick, sh.lidar_on, cycle.station, linear, rot)
    };
    lemma_parked_motor_message(cfg, st.tick);
    lemma_driving_motor_message(st.tick, sh.lidar_on, cycle.station, linear, rot);
    lemma_motor_messages_of_concat(common, rest);
    assert(Seq::<(u8, Seq<u8>)>::empty() + motor_messages(rest) =~= motor_messages(rest));
}

/// While parked nothing is sent that spins the turret: no turret register, no nav heartbeat
/// and, with the reset value, no laser enable.
pub proof fn law_parked_robot_leaves_the_turret(
    cfg: TxConfig,
    st: TxState,
    sh: Shared,
    now_ms: u64,
    i: int,
)
    requires
        sh.observe,
        cfg.cam_sync_val == 0,
        0 <= i < st.frames(cfg, sh, now_ms).len(),
    ensures
        ({
            let (typ, p) = st.frames(cfg, sh, now_ms)[i];
            &&& typ == TX_REGISTER ==> p[0] != 4
            &&& typ == TX_CAMERA ==> p == seq![5u8, 0u8]
            &&& typ == TX_DOCK && sh.dock_frame@ == no_bytes() ==> p[7] == 2
        }),
{
    lemma_step_frame(cfg, st, sh, now_ms);
}

/// The frame of a running step belongs to a cycle.
proof fn lemma_step_frame(cfg: TxConfig, st: TxState, sh: Shared, now_ms: u64)
    ensures
        st.cycle(cfg, sh, now_ms).step matches Some(s) ==> {
            &&& s.frame[7] == 2
            &&& sh.station == STATION_DRY || sh.station == STATION_WASH
            &&& st.cycle(cfg, sh, now_ms).station == sh.station
        },
{
    if let Some(steps) = crate::dock::cycle_of(sh.station, cfg.dry_stage_ms) {
        let begun = if st.begun_ms(sh.station) == 0 {
            now_ms
        } else {
            st.begun_ms(sh.station)
        };
        crate::dock::law_active_step_is_a_step(
            steps,
            crate::shared::since(now_ms, begun) as int,
        );
    }
}

/// The pump and the fan are run by a wash or a dry, or by the raw override, and by nothing
/// else: every other dock message has zeros in all bytes but the screen and the last.
pub proof fn law_pump_and_fan_need_a_cycle(
    cfg: TxConfig,
    st: TxState,
    sh: Shared,
    now_ms: u64,
    i: int,
    k: int,
)
    requires
        sh.station != STATION_DRY && sh.station != STATION_WASH,
        sh.dock_frame@ == no_bytes(),
        0 <= i < st.frames(cfg, sh, now_ms).len(),
        st.frames(cfg, sh, now_ms)[i].0 == TX_DOCK,
        1 <= k < 7,
    ensures
        st.frames(cfg, sh, now_ms)[i].1[k] == 0,
{
}

/// A parked robot with an idle dock, no override and no chosen screen streams the stop frame:
/// it is sent in every slot of the dock.
pub proof fn law_idle_dock_is_told_to_stop(cfg: TxConfig, st: TxState, sh: Shared, now_ms: u64)
    requires
        sh.observe,
        sh.station == STATION_IDLE,
        sh.dock_frame@ == no_bytes(),
        sh.dock_screen == 0,
        st.tick % 50 == 30,
    ensures
        st.frames(cfg, sh, now_ms).contains((TX_DOCK, idle_shaped(STOP_SCREEN))),
{
    let cycle = st.cycle(cfg, sh, now_ms);
    let pulses = st.pulses(cfg, sh, now_ms);
    let common = common_frames(cfg, st.tick, sh, cycle.step, pulses);
    let frames = st.frames(cfg, sh, now_ms);
    let last = common.len() - 1;
    assert(frames[last] == common[last]);
    assert(common[last] == (TX_DOCK, idle_shaped(STOP_SCREEN)));
}

/// What the dock is told goes by rank: a running cycle drives the dock and the mop pads alone,
/// the stop frames that are owed come next, and only an idle dock shows what was chosen for it,
/// the raw override before the screen.
pub proof fn law_dock_is_told_by_rank(tick: u64, sh: Shared, step: Option<DockStep>, pulses: u32)
    requires
        tick % 50 == 30,
    ensures
        step matches Some(s) ==> {
            &&& dock_frames(tick, sh, step, pulses) == seq![(0x26u8, s.frame@)]
            &&& cleaning_payload(sh, step) == seq![0u8, 1, 0, s.pad, 0, 0]
        },
        step is None && pulses > 0 ==> dock_frames(tick, sh, step, pulses) == seq![
            (0x26u8, seq![0x15u8, 0, 0, 0, 0, 0, 0, 2]),
        ],
        step is None && pulses == 0 && sh.dock_frame@ != seq![0u8, 0, 0, 0, 0, 0, 0, 0]
            ==> dock_frames(tick, sh, step, pulses) == seq![(0x26u8, sh.dock_frame@)],
        step is None && pulses == 0 && sh.dock_frame@ == seq![0u8, 0, 0, 0, 0, 0, 0, 0]
            && sh.dock_screen != 0 ==> dock_frames(tick, sh, step, pulses) == seq![
            (0x26u8, seq![sh.dock_screen, 0, 0, 0, 0, 0, 0, 2]),
        ],
        step is None && pulses == 0 && sh.dock_frame@ == seq![0u8, 0, 0, 0, 0, 0, 0, 0]
            && sh.dock_screen == 0 && sh.observe ==> dock_frames(tick, sh, step, pulses) == seq![
            (0x26u8, seq![0x15u8, 0, 0, 0, 0, 0, 0, 2]),
        ],
        step is None && pulses == 0 && sh.dock_frame@ == seq![0u8, 0, 0, 0, 0, 0, 0, 0]
            && sh.dock_screen == 0 && !sh.observe ==> dock_frames(tick, sh, step, pulses) == Seq::<
            (u8, Seq<u8>),
        >::empty(),
{
}

/// A dock function that is switched off is followed by the stop frame in the next slot of the
/// dock, whatever screen or override is chosen.
pub proof fn law_switching_off_stops_the_dock(cfg: TxConfig, st: TxState, sh: Shared, now_ms: u64)
    requires
        st.prev_station != STATION_IDLE,
        sh.station == STATION_IDLE,
    ensures
        st.pulses(cfg, sh, now_ms) == OFF_PULSES,
        st.tick % 50 == 30 ==> dock_frames(
            st.tick,
            sh,
            st.cycle(cfg, sh, now_ms).step,
            st.pulses(cfg, sh, now_ms),
        ) == seq![(TX_DOCK, idle_shaped(STOP_SCREEN))],
        st.next(cfg, sh, now_ms).prev_station == STATION_IDLE,
        st.next(cfg, sh, now_ms).off_pulse >= OFF_PULSES - 1,
{
}

/// A wash or a dry that is chosen begins at its first step, whatever ran before: also where
/// it is chosen in the midst of the other. A dry without any duration is over at once, and is
/// left out.
pub proof fn law_cycle_begins_when_chosen(cfg: TxConfig, st: TxState, sh: Shared, now_ms: u64)
    requires
        sh.station == STATION_WASH || (sh.station == STATION_DRY && cfg.dry_stage_ms > 0),
        st.prev_station != sh.station,
    ensures
        st.cycle(cfg, sh, now_ms) == (CycleTick {
            station: sh.station,
            start_ms: now_ms,
            step: Some(
                crate::dock::cycle_of(sh.station, cfg.dry_stage_ms)->0.first(),
            ),
        }),
        st.next(cfg, sh, now_ms).cycle_start_ms == now_ms,
        st.next(cfg, sh, now_ms).prev_station == sh.station,
{
    let steps = crate::dock::cycle_of(sh.station, cfg.dry_stage_ms)->0;
    assert(steps.first().duration_ms > 0);
}

/// A dock cycle that began at `start_ms` runs for exactly its duration, and then the dock
/// function is idle and the stop frames are owed.
pub proof fn law_cycle_runs_its_duration(cfg: TxConfig, st: TxState, sh: Shared, now_ms: u64)
    requires
        sh.station == STATION_DRY || sh.station == STATION_WASH,
        st.prev_station == sh.station,
        0 < st.cycle_start_ms <= now_ms,
    ensures
        ({
            let wet: int = if sh.station == STATION_WASH {
                143_000
            } else {
                0
            };
            let cycle = st.cycle(cfg, sh, now_ms);
            if now_ms - st.cycle_start_ms < wet + 4 * cfg.dry_stage_ms {
                &&& cycle.step is Some
                &&& cycle.station == sh.station
                &&& cycle.start_ms == st.cycle_start_ms
            } else {
                &&& cycle.step is None
                &&& cycle.station == STATION_IDLE
                &&& st.pulses(cfg, sh, now_ms) == OFF_PULSES
            }
        }),
{
    let steps = crate::dock::cycle_of(sh.station, cfg.dry_stage_ms)->0;
    crate::dock::law_cycle_durations(cfg.dry_stage_ms);
    crate::dock::law_cycle_ends_after_its_duration(steps, now_ms - st.cycle_start_ms);
}

impl TxState {
    /// Only a wash or a dry has a clock running, and never are more stop frames owed than one
    /// switching off asks for.
    pub open spec fn sound(self) -> bool {
        &&& self.cycle_start_ms != 0 ==> self.prev_station == STATION_DRY || self.prev_station
            == STATION_WASH
        &&& self.off_pulse <= OFF_PULSES
    }
}

/// A sender starts sound and stays sound, and counts its stop frames down by one per slot of an
/// idle dock.
pub proof fn law_sender_stays_sound(cfg: TxConfig, st: TxState, sh: Shared, now_ms: u64)
    requires
        st.sound(),
    ensures
        st.next(cfg, sh, now_ms).sound(),
        st.next(cfg, sh, now_ms).prev_station == st.cycle(cfg, sh, now_ms).station,
        sh.station == STATION_IDLE && st.prev_station == STATION_IDLE && st.tick % 50 == 30
            && st.off_pulse > 0 ==> st.next(cfg, sh, now_ms).off_pulse == st.off_pulse - 1,
        sh.station == STATION_IDLE && st.prev_station == STATION_IDLE && st.tick % 50 != 30
            ==> st.next(cfg, sh, now_ms).off_pulse == st.off_pulse,
{
}

/// Every message of a tick is short enough to be sent.
pub proof fn law_every_message_is_sent(
    cfg: TxConfig,
    st: TxState,
    sh: Shared,
    now_ms: u64,
    i: int,
)
    requires
        0 <= i < st.frames(cfg, sh, now_ms).len(),
    ensures
        ({
            let (typ, p) = st.frames(cfg, sh, now_ms)[i];
            crate::command::packet_of(typ, p) == Some(crate::frame::frame_wire(typ, p))
        }),
{
    let (typ, p) = st.frames(cfg, sh, now_ms)[i];
    assert(p.len() <= 9);
    crate::command::law_short_message_is_sent(typ, p);
}

/// What is sent, slot by slot. Every tick sends one MotorCtrl message; a round of 50 ticks has a
/// slot for each of the others. `0x02` comes twice a round, the three registers at 15, the
/// actuators at 10 and the dock at 30 once; while driving the turret register comes at 20, the
/// nav heartbeat of an idle dock at 30, and the laser at 40 of every fourth round if the turret
/// is on; while parked the camera reset comes at 40.
pub proof fn law_slots_of_a_round(cfg: TxConfig, st: TxState, sh: Shared, now_ms: u64)
    ensures
        ({
            let slot = st.tick % 50;
            let cycle = st.cycle(cfg, sh, now_ms);
            let (linear, rot) = if sh.observe {
                (0u32, 0u32)
            } else {
                motion(cfg, st.escape, sh, now_ms)
            };
            let motor = seq![(0x00u8, crate::command::motor_payload(1, linear, rot))];
            let led = seq![(0x02u8, seq![0x21u8])];
            let frames = st.frames(cfg, sh, now_ms);
            let told = dock_frames(st.tick, sh, cycle.step, st.pulses(cfg, sh, now_ms));
            let turret = if sh.lidar_on {
                1u8
            } else {
                0u8
            };
            let screen = if sh.lidar_on {
                0x14u8
            } else {
                0x64u8
            };
            &&& slot == 5 ==> frames =~= led + motor
            &&& slot == 10 ==> frames =~= seq![(0x01u8, cleaning_payload(sh, cycle.step))] + motor
            &&& slot == 15 && cfg.mcu_init ==> frames =~~= seq![
                (0x14u8, seq![1u8, 1u8]),
                (0x14u8, seq![0u8, 1u8]),
                (0x14u8, seq![9u8, 2u8]),
            ] + motor
            &&& slot == 15 && !cfg.mcu_init ==> frames =~= motor
            &&& slot == 20 && sh.observe ==> frames =~= motor
            &&& slot == 20 && !sh.observe ==> frames =~~= motor + seq![
                (0x14u8, seq![4u8, turret]),
            ]
            &&& slot == 30 && (sh.observe || cycle.station != 0) ==> frames =~= led + told + motor
            &&& slot == 30 && !sh.observe && cycle.station == 0 ==> frames =~~= led + told + motor
                + seq![(0x26u8, seq![screen, 0, 0, 0, 0, 0, 0, 4])]
            &&& slot == 40 && sh.observe && cfg.cam_sync ==> frames =~~= motor + seq![
                (0x1du8, seq![5u8, cfg.cam_sync_val]),
            ]
            &&& slot == 40 && sh.observe && !cfg.cam_sync ==> frames =~= motor
            &&& slot == 40 && !sh.observe && sh.lidar_on && st.tick / 50 % 4 == 0 ==> frames
                =~~= motor + seq![(0x1du8, seq![5u8, 1u8])]
            &&& slot == 40 && !sh.observe && !(sh.lidar_on && st.tick / 50 % 4 == 0) ==> frames
                =~= motor
            &&& slot != 5 && slot != 10 && slot != 15 && slot != 20 && slot != 30 && slot != 40
                ==> frames =~= motor
        }),
{
    let t = st.tick as int;
    assert(t % 25 == 5 <==> t % 50 == 5 || t % 50 == 30);
    assert(t % 200 == 40 <==> t % 50 == 40 && t / 50 % 4 == 0);
}

/// The actuators are told their levels in vacuum mode, or rest in nav mode where all levels
/// are 0. A running cycle moves the pads instead and nothing else.
pub proof fn law_actuators_are_told_their_levels(sh: Shared, step: Option<DockStep>)
    ensures
        step is None && (sh.side_brush != 0 || sh.main_brush != 0 || sh.fan != 0 || sh.mop != 0)
            ==> cleaning_payload(sh, step) == seq![
            sh.side_brush,
            sh.main_brush,
            sh.fan,
            sh.mop,
            3,
            0,
        ],
        step is None && sh.side_brush == 0 && sh.main_brush == 0 && sh.fan == 0 && sh.mop == 0
            ==> cleaning_payload(sh, step) == seq![0u8, 1, 0, 0, 0, 0],
        step matches Some(s) ==> cleaning_payload(sh, step) == seq![0u8, 1, 0, s.pad, 0, 0],
{
}

/// The step that runs is that of the time since the cycle began: a cycle that was running at the
/// last tick goes on, and any other begins now. Without a step left the dock is idle, and where
/// no cycle is chosen the chosen function stays with no clock running.
pub proof fn law_cycle_goes_by_the_clock(cfg: TxConfig, st: TxState, sh: Shared, now_ms: u64)
    ensures
        ({
            let cycle = st.cycle(cfg, sh, now_ms);
            let running = st.prev_station == sh.station && st.cycle_start_ms != 0;
            let begun: int = if running {
                st.cycle_start_ms as int
            } else {
                now_ms as int
            };
            let elapsed: int = if now_ms >= begun {
                now_ms - begun
            } else {
                0
            };
            &&& sh.station == 1 || sh.station == 2 ==> {
                &&& cycle.step == crate::dock::active_step(
                    crate::dock::cycle_of(sh.station, cfg.dry_stage_ms)->0,
                    elapsed,
                )
                &&& cycle.step is Some ==> cycle.station == sh.station && cycle.start_ms == begun
                &&& cycle.step is None ==> cycle.station == 0 && cycle.start_ms == 0
            }
            &&& sh.station != 1 && sh.station != 2 ==> cycle.step is None && cycle.station
                == sh.station && cycle.start_ms == 0
        }),
{
}

/// What a tick leaves behind: the next tick, the clock and function of the cycle, five stop
/// frames owed once a function went off, one less for each that is sent, and the reflex, which
/// rests while parked.
pub proof fn law_state_after_a_tick(cfg: TxConfig, st: TxState, sh: Shared, now_ms: u64)
    ensures
        ({
            let cycle = st.cycle(cfg, sh, now_ms);
            let next = st.next(cfg, sh, now_ms);
            let owed: int = if cycle.station == 0 && st.prev_station != 0 {
                5
            } else {
                st.off_pulse as int
            };
            &&& st.pulses(cfg, sh, now_ms) == owed
            &&& st.tick < u64::MAX ==> next.tick == st.tick + 1
            &&& st.tick == u64::MAX ==> next.tick == 0
            &&& next.cycle_start_ms == cycle.start_ms
            &&& next.prev_station == cycle.station
            &&& st.tick % 50 == 30 && cycle.step is None && owed > 0 ==> next.off_pulse == owed
                - 1
            &&& !(st.tick % 50 == 30 && cycle.step is None && owed > 0) ==> next.off_pulse == owed
            &&& sh.observe ==> next.escape == st.escape
            &&& !sh.observe ==> next.escape == escape_next(cfg, st.escape, sh, now_ms)
        }),
{
}

/// What `drive` gives for a fresh command while the reflex is idle: the nearest speeds within
/// 150 mm/s and 1.5 rad/s, never in the opposite direction, and no speed toward a hazard.
pub proof fn law_drive_gives_the_nearest_speed(
    cfg: TxConfig,
    e: Escape,
    sh: Shared,
    now_ms: u64,
    r: (Escape, u32, u32),
)
    requires
        call_ensures(drive, (&cfg, e, &sh, now_ms), r),
        sh.enabled,
        0 <= now_ms - sh.last_cmd_ms < 500 || sh.last_cmd_ms - now_ms > 0xffff_ffff_ffff_fe0c,
        e.phase is Idle,
        !(cfg.bump_escape && sh.bumper),
    ensures
        ({
            let one = vstd::arithmetic::power2::pow2(149) as int;
            let v = crate::binary32::value(sh.linear_bits);
            let w = crate::binary32::value(sh.rot_bits);
            let number = !crate::binary32::is_nan(sh.linear_bits);
            let turn = !crate::binary32::is_nan(sh.rot_bits);
            &&& r.0 == e
            &&& !sh.hazard_rev && number && v < -150 * one ==> r.1 == 0xc316_0000
            &&& !sh.hazard_fwd && number && v > 150 * one ==> r.1 == 0x4316_0000
            &&& !sh.hazard_rev && number && -150 * one <= v < 0 ==> r.1 == sh.linear_bits
            &&& !sh.hazard_fwd && number && 0 < v <= 150 * one ==> r.1 == sh.linear_bits
            &&& number && v == 0 ==> r.1 == sh.linear_bits
            &&& sh.hazard_rev && number && v < 0 ==> r.1 == 0
            &&& sh.hazard_fwd && number && v > 0 ==> r.1 == 0
            &&& turn && 2 * w < -3 * one ==> r.2 == 0xbfc0_0000
            &&& turn && 2 * w > 3 * one ==> r.2 == 0x3fc0_0000
            &&& turn && -3 * one <= 2 * w <= 3 * one ==> r.2 == sh.rot_bits
        }),
{
    law_command_is_sent_at_the_nearest_speed(cfg, e, sh, now_ms);
}

/// What `drive` gives otherwise: nothing for an old command, and what the reflex asks for while
/// it is at work.
pub proof fn law_drive_stops_or_escapes(
    cfg: TxConfig,
    e: Escape,
    sh: Shared,
    now_ms: u64,
    r: (Escape, u32, u32),
)
    requires
        call_ensures(drive, (&cfg, e, &sh, now_ms), r),
    ensures
        (!sh.enabled || now_ms - sh.last_cmd_ms >= 500) && r.0.phase is Idle ==> r.1 == 0 && r.2
            == 0,
        r.0.phase is Backing ==> r.1 == 0xc2a0_0000 && r.2 == 0,
        r.0.phase is Turning ==> r.1 == 0 && r.2 == (if r.0.left {
            0x3f19_999au32
        } else {
            0xbf19_999au32
        }),
        r.0 == escape_next(cfg, e, sh, now_ms),
{
}

/// What a tick sends and leaves behind is what the laws on `frames` and `next` speak of; of the
/// shared state it changes the dock function alone.
pub proof fn law_tick_sends_the_frames(now_ms: u64)
    ensures
        forall|d: &mut Driver, sh: &mut Shared, out: Vec<TxFrame>| #[trigger]
            call_ensures(Driver::tick, (d, sh, now_ms), out) ==> {
                &&& out@.len() == d.state.frames(d.cfg, *sh, now_ms).len()
                &&& forall|i: int|
                    0 <= i < out@.len() ==> (#[trigger] out@[i].typ, out@[i].payload@)
                        == d.state.frames(d.cfg, *sh, now_ms)[i]
                &&& final(d).state == d.state.next(d.cfg, *sh, now_ms)
                &&& final(d).cfg == d.cfg
                &&& *final(sh) == (Shared {
                    station: d.state.cycle(d.cfg, *sh, now_ms).station,
                    ..*sh
                })
            },
{
    assert forall|d: &mut Driver, sh: &mut Shared, out: Vec<TxFrame>| #[trigger]
        call_ensures(Driver::tick, (d, sh, now_ms), out) implies {
        &&& out@.len() == d.state.frames(d.cfg, *sh, now_ms).len()
        &&& forall|i: int|
            0 <= i < out@.len() ==> (#[trigger] out@[i].typ, out@[i].payload@) == d.state.frames(
                d.cfg,
                *sh,
                now_ms,
            )[i]
    } by {
        assert forall|i: int| 0 <= i < out@.len() implies (#[trigger] out@[i].typ, out@[i].payload@)
            == d.state.frames(d.cfg, *sh, now_ms)[i] by {
            assert(sent(out@)[i] == out@[i]@);
        }
    }
}

/// How a sender starts: at the first tick, with no cycle and no reflex, five stop frames owed, and
/// with the settings that it was given. The default settings dry for 5 minutes a stage, reset the
/// camera with 0, write the cliff registers, and back away for 0.7 s and turn for 1.1 s.
pub proof fn law_sender_starts_with_its_settings(cfg: TxConfig, d: Driver, c: TxConfig, f: TxFrame)
    requires
        call_ensures(Driver::new, (cfg,), d),
        call_ensures(TxConfig::default, (), c),
        call_ensures(stop_frame, (), f),
    ensures
        d.cfg == cfg,
        d.state.tick == 0 && d.state.cycle_start_ms == 0 && d.state.prev_station == 0,
        d.state.off_pulse == 5,
        d.state.escape.phase is Idle,
        c.dry_stage_ms == 300_000 && c.cam_sync && c.cam_sync_val == 0 && c.mcu_init,
        c.bump_escape && c.back_ms == 700 && c.turn_ms == 1100,
        f.typ == 0 && f.payload@ == seq![1u8, 0, 0, 0, 0, 0, 0, 0, 0],
{
    assert(crate::command::motor_payload(1, 0, 0) =~= seq![1u8, 0, 0, 0, 0, 0, 0, 0, 0]);
}

} // verus!
