//! Base-station (dock) cycles: the timed `0x26` sequences that wash and dry the mop pads.
//!
//! The dock's water pump and drying fan are driven by the 8-byte payload of the `0x26` frame.
//! Byte 0 is also the screen that the dock shows on its LCD.
use vstd::prelude::*;

verus! {

/// Dock function numbers.
pub const STATION_IDLE: u8 = 0;

pub const STATION_DRY: u8 = 1;

pub const STATION_WASH: u8 = 2;

/// Default duration of each of the four dry stages.
pub const DEFAULT_DRY_STAGE_MS: u64 = 300_000;

/// One step of a cycle: the `0x26` payload, the mop-pad level and how long it lasts.
#[derive(Debug, Clone, Copy, PartialEq, Eq)]
pub struct DockStep {
    pub frame: [u8; 8],
    pub pad: u8,
    pub duration_ms: u64,
}

/// The steps of the wet part of a wash: water on with a ramping pump, then water off while
/// the pads work it in.
pub open spec fn wet_steps() -> Seq<DockStep> {
    seq![
        // wet (slow pump) + pads high
        DockStep { frame: [0x0d, 0x00, 0x46, 0, 0, 0, 0, 0x02], pad: 0xd6, duration_ms: 20_700 },
        // wet (fast pump) + pads off
        DockStep { frame: [0x0d, 0x78, 0x46, 0, 0, 0, 0, 0x02], pad: 0x00, duration_ms: 8_000 },
        // wet + pads low
        DockStep { frame: [0x0d, 0x64, 0x46, 0, 0, 0, 0, 0x02], pad: 0x2a, duration_ms: 4_300 },
        // water off + pads low
        DockStep { frame: [0x0d, 0x64, 0x00, 0, 0, 0, 0, 0x02], pad: 0x2a, duration_ms: 12_000 },
        // idle pump + pads low
        DockStep { frame: [0x0d, 0x00, 0x00, 0, 0, 0, 0, 0x02], pad: 0x2a, duration_ms: 15_000 },
        // scrub + pads medium
        DockStep { frame: [0x0d, 0x00, 0x00, 0, 0, 0, 0, 0x02], pad: 0x4b, duration_ms: 65_000 },
        // scrub + pads high
        DockStep { frame: [0x0d, 0x64, 0x00, 0, 0, 0, 0, 0x02], pad: 0xd6, duration_ms: 10_000 },
        // pads off
        DockStep { frame: [0x0d, 0x64, 0x00, 0, 0, 0, 0, 0x02], pad: 0x00, duration_ms: 8_000 },
    ]
}

/// A dry stage: the fan runs while `screen` is shown.
pub open spec fn dry_stage(screen: u8, stage_ms: u64) -> DockStep {
    DockStep {
        frame: [screen, 0, 0, 0x78, 0, 0, 0x01, 0x02],
        pad: 0x00,
        duration_ms: stage_ms,
    }
}

/// Drying walks the dock's four "dehydrating N/4" screens.
pub open spec fn dry_stages(stage_ms: u64) -> Seq<DockStep> {
    seq![
        dry_stage(0x0e, stage_ms),
        dry_stage(0x65, stage_ms),
        dry_stage(0x66, stage_ms),
        dry_stage(0x67, stage_ms),
    ]
}

/// The steps of a dock function, if it is a timed cycle. A wash ends with the dry stages.
pub open spec fn cycle_of(station: u8, stage_ms: u64) -> Option<Seq<DockStep>> {
    if station == STATION_WASH {
        Some(wet_steps() + dry_stages(stage_ms))
    } else if station == STATION_DRY {
        Some(dry_stages(stage_ms))
    } else {
        None
    }
}

/// The step that is active `elapsed_ms` into a sequence, or none once it is over.
pub open spec fn active_step(steps: Seq<DockStep>, elapsed_ms: int) -> Option<DockStep>
    decreases steps.len(),
{
    if steps.len() == 0 {
        None
    } else if elapsed_ms < steps.first().duration_ms {
        Some(steps.first())
    } else {
        active_step(steps.drop_first(), elapsed_ms - steps.first().duration_ms)
    }
}

/// How long a sequence lasts.
pub open spec fn total_ms(steps: Seq<DockStep>) -> int
    decreases steps.len(),
{
    if steps.len() == 0 {
        0
    } else {
        steps.first().duration_ms + total_ms(steps.drop_first())
    }
}

/// The active step at `elapsed_ms` into a timed sequence, or `None` once it is over.
pub fn seq_step(steps: &[DockStep], elapsed_ms: u64) -> (r: Option<DockStep>)
    ensures
        r == active_step(steps@, elapsed_ms as int),
{
    let mut left: u64 = elapsed_ms;
    assert(steps@.skip(0) =~= steps@);
    for i in 0..steps.len()
        invariant
            active_step(steps@, elapsed_ms as int) == active_step(
                steps@.skip(i as int),
                left as int,
            ),
    {
        let s: DockStep = steps[i];
        assert(steps@.skip(i as int).drop_first() =~= steps@.skip(i + 1));
        if left < s.duration_ms {
            return Some(s);
        }
        left = left - s.duration_ms;
    }
    None
}

/// The dry stages, `stage_ms` each.
pub fn dry_steps(stage_ms: u64) -> (v: Vec<DockStep>)
    ensures
        v@ == dry_stages(stage_ms),
{
    let screens: [u8; 4] = [0x0e, 0x65, 0x66, 0x67];
    let mut v: Vec<DockStep> = Vec::with_capacity(4);
    for i in 0..4usize
        invariant
            screens@ == seq![0x0eu8, 0x65u8, 0x66u8, 0x67u8],
            v@ == dry_stages(stage_ms).take(i as int),
    {
        v.push(
            DockStep {
                frame: [screens[i], 0, 0, 0x78, 0, 0, 0x01, 0x02],
                pad: 0x00,
                duration_ms: stage_ms,
            },
        );
        assert(v@ =~= dry_stages(stage_ms).take(i + 1));
    }
    assert(dry_stages(stage_ms).take(4) =~= dry_stages(stage_ms));
    v
}

/// A full wash: the wet steps, then the dry stages.
pub fn wash_steps(stage_ms: u64) -> (v: Vec<DockStep>)
    ensures
        v@ == wet_steps() + dry_stages(stage_ms),
{
    let mut v: Vec<DockStep> = vec![
        DockStep { frame: [0x0d, 0x00, 0x46, 0, 0, 0, 0, 0x02], pad: 0xd6, duration_ms: 20_700 },
        DockStep { frame: [0x0d, 0x78, 0x46, 0, 0, 0, 0, 0x02], pad: 0x00, duration_ms: 8_000 },
        DockStep { frame: [0x0d, 0x64, 0x46, 0, 0, 0, 0, 0x02], pad: 0x2a, duration_ms: 4_300 },
        DockStep { frame: [0x0d, 0x64, 0x00, 0, 0, 0, 0, 0x02], pad: 0x2a, duration_ms: 12_000 },
        DockStep { frame: [0x0d, 0x00, 0x00, 0, 0, 0, 0, 0x02], pad: 0x2a, duration_ms: 15_000 },
        DockStep { frame: [0x0d, 0x00, 0x00, 0, 0, 0, 0, 0x02], pad: 0x4b, duration_ms: 65_000 },
        DockStep { frame: [0x0d, 0x64, 0x00, 0, 0, 0, 0, 0x02], pad: 0xd6, duration_ms: 10_000 },
        DockStep { frame: [0x0d, 0x64, 0x00, 0, 0, 0, 0, 0x02], pad: 0x00, duration_ms: 8_000 },
    ];
    assert(v@ =~= wet_steps());
    let mut dry: Vec<DockStep> = dry_steps(stage_ms);
    v.append(&mut dry);
    v
}

/// A sequence is over exactly when its whole duration has passed.
pub proof fn law_cycle_ends_after_its_duration(steps: Seq<DockStep>, elapsed_ms: int)
    requires
        elapsed_ms >= 0,
    ensures
        active_step(steps, elapsed_ms) is None <==> elapsed_ms >= total_ms(steps),
    decreases steps.len(),
{
    if steps.len() > 0 {
        let left = elapsed_ms - steps.first().duration_ms;
        lemma_total_ms_is_nonnegative(steps.drop_first());
        if left >= 0 {
            law_cycle_ends_after_its_duration(steps.drop_first(), left);
        }
    }
}

proof fn lemma_total_ms_is_nonnegative(steps: Seq<DockStep>)
    ensures
        total_ms(steps) >= 0,
    decreases steps.len(),
{
    if steps.len() > 0 {
        lemma_total_ms_is_nonnegative(steps.drop_first());
    }
}

/// A dry cycle lasts four stages, and the wet part of a wash 143 seconds more.
pub proof fn law_cycle_durations(stage_ms: u64)
    ensures
        total_ms(dry_stages(stage_ms)) == 4 * stage_ms,
        total_ms(wet_steps() + dry_stages(stage_ms)) == 143_000 + 4 * stage_ms,
{
    reveal_with_fuel(total_ms, 13);
    let dry = dry_stages(stage_ms);
    let wash = wet_steps() + dry;
    assert(total_ms(dry) == 4 * stage_ms);
    assert(total_ms(wash) == 143_000 + 4 * stage_ms);
}

proof fn lemma_active_step_of_concat(a: Seq<DockStep>, b: Seq<DockStep>, elapsed_ms: int)
    requires
        elapsed_ms >= 0,
    ensures
        active_step(a + b, elapsed_ms) == (if elapsed_ms < total_ms(a) {
            active_step(a, elapsed_ms)
        } else {
            active_step(b, elapsed_ms - total_ms(a))
        }),
    decreases a.len(),
{
    if a.len() == 0 {
        assert(a + b =~= b);
    } else {
        let left = elapsed_ms - a.first().duration_ms;
        lemma_total_ms_is_nonnegative(a.drop_first());
        assert((a + b).drop_first() =~= a.drop_first() + b);
        if left >= 0 {
            lemma_active_step_of_concat(a.drop_first(), b, left);
        }
    }
}

/// A wash shows its own screen and keeps the fan off through the wet part, then runs as a
/// dry cycle does.
pub proof fn law_wash_is_wet_then_dry(stage_ms: u64, elapsed_ms: int)
    requires
        elapsed_ms >= 0,
    ensures
        elapsed_ms < 143_000 ==> {
            &&& active_step(wet_steps() + dry_stages(stage_ms), elapsed_ms) matches Some(s)
            &&& s.frame[0] == 0x0d
            &&& s.frame[6] == 0
        },
        elapsed_ms >= 143_000 ==> active_step(wet_steps() + dry_stages(stage_ms), elapsed_ms)
            == active_step(dry_stages(stage_ms), elapsed_ms - 143_000),
{
    reveal_with_fuel(total_ms, 9);
    let wet = wet_steps();
    assert(total_ms(wet) == 143_000);
    lemma_active_step_of_concat(wet, dry_stages(stage_ms), elapsed_ms);
    if elapsed_ms < 143_000 {
        law_cycle_ends_after_its_duration(wet, elapsed_ms);
        law_active_step_is_a_step(wet, elapsed_ms);
    }
}

/// The active step is one of the steps of the sequence.
pub proof fn law_active_step_is_a_step(steps: Seq<DockStep>, elapsed_ms: int)
    ensures
        active_step(steps, elapsed_ms) matches Some(s) ==> steps.contains(s),
    decreases steps.len(),
{
    if steps.len() > 0 {
        if elapsed_ms < steps.first().duration_ms {
            assert(steps[0] == steps.first());
        } else {
            let rest = steps.drop_first();
            let left = elapsed_ms - steps.first().duration_ms;
            law_active_step_is_a_step(rest, left);
            if let Some(s) = active_step(rest, left) {
                let i = choose|i: int| 0 <= i < rest.len() && rest[i] == s;
                assert(steps[i + 1] == s);
            }
        }
    }
}

/// Drying shows stage 1/4 to 4/4, each for one stage duration, with the fan on.
pub proof fn law_dry_walks_the_four_screens(stage_ms: u64, elapsed_ms: int)
    requires
        0 <= elapsed_ms < 4 * stage_ms,
    ensures
        active_step(dry_stages(stage_ms), elapsed_ms) == Some(
            dry_stage(seq![0x0eu8, 0x65u8, 0x66u8, 0x67u8][elapsed_ms / (stage_ms as int)], stage_ms),
        ),
{
    let s = stage_ms as int;
    let q = elapsed_ms / s;
    assert(elapsed_ms < s ==> q == 0) by (nonlinear_arith)
        requires
            q == elapsed_ms / s,
            0 <= elapsed_ms,
            s > 0,
    ;
    assert(s <= elapsed_ms < 2 * s ==> q == 1) by (nonlinear_arith)
        requires
            q == elapsed_ms / s,
            s > 0,
    ;
    assert(2 * s <= elapsed_ms < 3 * s ==> q == 2) by (nonlinear_arith)
        requires
            q == elapsed_ms / s,
            s > 0,
    ;
    assert(3 * s <= elapsed_ms < 4 * s ==> q == 3) by (nonlinear_arith)
        requires
            q == elapsed_ms / s,
            s > 0,
    ;
    let stages = dry_stages(stage_ms);
    let after1 = stages.drop_first();
    let after2 = after1.drop_first();
    let after3 = after2.drop_first();
    assert(after3.first() == dry_stage(0x67, stage_ms));
    assert(after2.first() == dry_stage(0x66, stage_ms));
    assert(after1.first() == dry_stage(0x65, stage_ms));
    reveal_with_fuel(active_step, 5);
}

/// The bytes of a dock payload and the pad level, as a step has them.
pub open spec fn says(step: Option<DockStep>, frame: Seq<u8>, pad: u8) -> bool {
    step matches Some(s) && s.frame@ == frame && s.pad == pad
}

/// Drying runs the fan and shows 1/4 for one stage duration, then 2/4, 3/4 and 4/4, with the pads
/// at rest, and after four stages it is over.
pub proof fn law_dry_runs_the_fan_by_stages(stage_ms: u64, t: int)
    requires
        t >= 0,
    ensures
        cycle_of(1, stage_ms) matches Some(steps) && {
            let step = active_step(steps, t);
            &&& t < stage_ms ==> says(step, seq![0x0eu8, 0, 0, 0x78, 0, 0, 1, 2], 0)
            &&& stage_ms <= t < 2 * stage_ms ==> says(
                step,
                seq![0x65u8, 0, 0, 0x78, 0, 0, 1, 2],
                0,
            )
            &&& 2 * stage_ms <= t < 3 * stage_ms ==> says(
                step,
                seq![0x66u8, 0, 0, 0x78, 0, 0, 1, 2],
                0,
            )
            &&& 3 * stage_ms <= t < 4 * stage_ms ==> says(
                step,
                seq![0x67u8, 0, 0, 0x78, 0, 0, 1, 2],
                0,
            )
            &&& 4 * stage_ms <= t ==> step is None
        },
{
    let steps = dry_stages(stage_ms);
    let after1 = steps.drop_first();
    let after2 = after1.drop_first();
    let after3 = after2.drop_first();
    let after4 = after3.drop_first();
    assert(steps.first() == dry_stage(0x0e, stage_ms));
    assert(after1.first() == dry_stage(0x65, stage_ms));
    assert(after2.first() == dry_stage(0x66, stage_ms));
    assert(after3.first() == dry_stage(0x67, stage_ms));
    assert(after4.len() == 0);
    reveal_with_fuel(active_step, 6);
    assert(dry_stage(0x0e, stage_ms).frame@ =~= seq![0x0eu8, 0, 0, 0x78, 0, 0, 1, 2]);
    assert(dry_stage(0x65, stage_ms).frame@ =~= seq![0x65u8, 0, 0, 0x78, 0, 0, 1, 2]);
    assert(dry_stage(0x66, stage_ms).frame@ =~= seq![0x66u8, 0, 0, 0x78, 0, 0, 1, 2]);
    assert(dry_stage(0x67, stage_ms).frame@ =~= seq![0x67u8, 0, 0, 0x78, 0, 0, 1, 2]);
}

/// The pump rate `t` ms into a wash.
pub open spec fn pump_at(t: int) -> u8 {
    if t < 20_700 {
        0x00
    } else if t < 28_700 {
        0x78
    } else if t < 45_000 {
        0x64
    } else if t < 125_000 {
        0x00
    } else {
        0x64
    }
}

/// The pad level `t` ms into a wash.
pub open spec fn pad_at(t: int) -> u8 {
    if t < 20_700 {
        0xd6
    } else if t < 28_700 {
        0x00
    } else if t < 60_000 {
        0x2a
    } else if t < 125_000 {
        0x4b
    } else if t < 135_000 {
        0xd6
    } else {
        0x00
    }
}

/// A wash waters the pads for 33 seconds and not a moment longer. Pump rate and pad level go by
/// the time, the fan is off and the screen is "cleaning"; after 143 seconds it goes on as a dry.
pub proof fn law_wash_goes_by_the_clock(stage_ms: u64, t: int)
    requires
        t >= 0,
    ensures
        cycle_of(2, stage_ms) matches Some(steps) && {
            &&& t < 33_000 ==> says(
                active_step(steps, t),
                seq![0x0du8, pump_at(t), 0x46, 0, 0, 0, 0, 2],
                pad_at(t),
            )
            &&& 33_000 <= t < 143_000 ==> says(
                active_step(steps, t),
                seq![0x0du8, pump_at(t), 0, 0, 0, 0, 0, 2],
                pad_at(t),
            )
            &&& 143_000 <= t ==> active_step(steps, t) == active_step(
                cycle_of(1, stage_ms)->0,
                t - 143_000,
            )
        },
{
    let dry = dry_stages(stage_ms);
    let wet = wet_steps();
    law_wash_is_wet_then_dry(stage_ms, t);
    if t < 143_000 {
        reveal_with_fuel(total_ms, 9);
        assert(total_ms(wet) == 143_000);
        lemma_active_step_of_concat(wet, dry, t);
        reveal_with_fuel(active_step, 9);
        let s = active_step(wet, t)->0;
        assert(t < 33_000 ==> s.frame@ =~= seq![0x0du8, pump_at(t), 0x46, 0, 0, 0, 0, 2]);
        assert(33_000 <= t ==> s.frame@ =~= seq![0x0du8, pump_at(t), 0, 0, 0, 0, 0, 2]);
    }
}

/// Only 1 and 2 are cycles.
pub proof fn law_other_functions_are_no_cycle(station: u8, stage_ms: u64)
    ensures
        cycle_of(station, stage_ms) is Some <==> station == 1 || station == 2,
{
}

proof fn lemma_total_of_first(steps: Seq<DockStep>, k: int)
    requires
        0 <= k < steps.len(),
    ensures
        total_ms(steps.take(k + 1)) == steps.first().duration_ms + total_ms(
            steps.drop_first().take(k),
        ),
{
    assert(steps.take(k + 1).drop_first() =~= steps.drop_first().take(k));
    assert(steps.take(k + 1).first() == steps.first());
}

/// Step `k` of any sequence is active from when the steps before it are over until its own
/// duration is.
pub proof fn law_step_is_active_in_its_time(steps: Seq<DockStep>, k: int, t: int)
    requires
        0 <= k < steps.len(),
        total_ms(steps.take(k)) <= t < total_ms(steps.take(k)) + steps[k].duration_ms,
    ensures
        active_step(steps, t) == Some(steps[k]),
    decreases k,
{
    if k == 0 {
        assert(steps.take(0) =~= Seq::<DockStep>::empty());
        assert(total_ms(steps.take(0)) == 0);
    } else {
        lemma_total_of_first(steps, k - 1);
        lemma_total_is_no_debt(steps.drop_first().take(k - 1));
        law_step_is_active_in_its_time(
            steps.drop_first(),
            k - 1,
            t - steps.first().duration_ms,
        );
    }
}

proof fn lemma_total_is_no_debt(steps: Seq<DockStep>)
    ensures
        total_ms(steps) >= 0,
    decreases steps.len(),
{
    if steps.len() > 0 {
        lemma_total_is_no_debt(steps.drop_first());
    }
}

/// What `wash_steps` gives runs by the clock: for 143 seconds the pump rate, the water and the
/// pad level of each moment, and after that the steps of `dry_steps`.
pub proof fn law_wash_steps_run_by_the_clock(
    stage_ms: u64,
    wash: Vec<DockStep>,
    dry: Vec<DockStep>,
    t: int,
)
    requires
        call_ensures(wash_steps, (stage_ms,), wash),
        call_ensures(dry_steps, (stage_ms,), dry),
        t >= 0,
    ensures
        t < 33_000 ==> says(
            active_step(wash@, t),
            seq![0x0du8, pump_at(t), 0x46, 0, 0, 0, 0, 2],
            pad_at(t),
        ),
        33_000 <= t < 143_000 ==> says(
            active_step(wash@, t),
            seq![0x0du8, pump_at(t), 0, 0, 0, 0, 0, 2],
            pad_at(t),
        ),
        143_000 <= t ==> active_step(wash@, t) == active_step(dry@, t - 143_000),
        t < stage_ms ==> says(active_step(dry@, t), seq![0x0eu8, 0, 0, 0x78, 0, 0, 1, 2], 0),
        4 * stage_ms <= t ==> active_step(dry@, t) is None,
{
    law_wash_goes_by_the_clock(stage_ms, t);
    law_dry_runs_the_fan_by_stages(stage_ms, t);
}

/// `seq_step` gives step `k` from when the steps before it are over until its own duration is.
pub proof fn law_seq_step_gives_the_step_of_the_time(
    steps: &[DockStep],
    k: int,
    elapsed_ms: u64,
    r: Option<DockStep>,
)
    requires
        call_ensures(seq_step, (steps, elapsed_ms), r),
        0 <= k < steps@.len(),
        total_ms(steps@.take(k)) <= elapsed_ms < total_ms(steps@.take(k)) + steps@[k].duration_ms,
    ensures
        r == Some(steps@[k]),
{
    law_step_is_active_in_its_time(steps@, k, elapsed_ms as int);
}

} // verus!
