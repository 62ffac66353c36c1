//! Which cameras the camera helper runs.
//!
//! The spinning turret wedges the RGB camera, so only the ToF camera runs while driving, and
//! both run while parked.
use vstd::prelude::*;

verus! {

/// What the helper is run for.
#[derive(Debug, Clone, Copy, PartialEq, Eq)]
pub enum CameraMode {
    /// ToF only.
    Tof,
    /// ToF and RGB.
    Both,
}

/// Wait before both cameras are opened: the turret must have coasted to a stop, and the RGB
/// reset must have landed.
pub const PARK_WAIT_MS: u64 = 3000;

/// Wait before the ToF camera alone is opened.
pub const DRIVE_WAIT_MS: u64 = 500;

/// What is run while parked, or not.
pub open spec fn wanted(parked: bool) -> CameraMode {
    if parked {
        CameraMode::Both
    } else {
        CameraMode::Tof
    }
}

/// How long to wait before a mode is begun.
pub open spec fn wait_ms(mode: CameraMode) -> u64 {
    match mode {
        CameraMode::Both => PARK_WAIT_MS,
        CameraMode::Tof => DRIVE_WAIT_MS,
    }
}

impl CameraMode {
    /// The helper's argument.
    pub fn name(&self) -> (r: &'static str)
        ensures
            r@ == (match *self {
                CameraMode::Tof => "tof"@,
                CameraMode::Both => "both"@,
            }),
    {
        match self {
            CameraMode::Tof => "tof",
            CameraMode::Both => "both",
        }
    }
}

/// What the helper was last run for, if it was.
#[derive(Debug, Clone, Copy, PartialEq, Eq)]
pub struct CameraPlan {
    pub current: Option<CameraMode>,
}

impl CameraPlan {
    pub fn new() -> (p: Self)
        ensures
            p.current is None,
    {
        CameraPlan { current: None }
    }

    /// The mode to restart the helper in, and how long to wait once it is stopped, or `None`
    /// to leave it as it is. A helper that could not be started is not tried again until the
    /// mode changes.
    pub fn next(&mut self, parked: bool) -> (r: Option<(CameraMode, u64)>)
        ensures
            final(self).current == Some(wanted(parked)),
            r == (if old(self).current == Some(wanted(parked)) {
                None
            } else {
                Some((wanted(parked), wait_ms(wanted(parked))))
            }),
    {
        let (want, wait): (CameraMode, u64) = if parked {
            (CameraMode::Both, PARK_WAIT_MS)
        } else {
            (CameraMode::Tof, DRIVE_WAIT_MS)
        };
        let same: bool = match (&self.current, &want) {
            (Some(CameraMode::Tof), CameraMode::Tof) => true,
            (Some(CameraMode::Both), CameraMode::Both) => true,
            _ => false,
        };
        self.current = Some(want);
        if same {
            None
        } else {
            Some((want, wait))
        }
    }
}

/// Both cameras run while parked, 3 s after the helper was stopped, and the ToF camera alone
/// while driving, after half a second.
pub proof fn law_cameras_follow_parking()
    ensures
        wanted(true) is Both,
        wanted(false) is Tof,
        wait_ms(CameraMode::Both) == 3000,
        wait_ms(CameraMode::Tof) == 500,
{
}

/// The helper is restarted exactly where what is wanted differs from what it was last run for.
pub proof fn law_helper_is_restarted_on_a_change(parked: bool)
    ensures
        forall|p: &mut CameraPlan, r: Option<(CameraMode, u64)>| #[trigger]
            call_ensures(CameraPlan::next, (p, parked), r) ==> {
                &&& parked && p.current == Some(CameraMode::Both) ==> r is None
                &&& parked && p.current != Some(CameraMode::Both) ==> r == Some(
                    (CameraMode::Both, 3000u64),
                )
                &&& !parked && p.current == Some(CameraMode::Tof) ==> r is None
                &&& !parked && p.current != Some(CameraMode::Tof) ==> r == Some(
                    (CameraMode::Tof, 500u64),
                )
                &&& parked ==> final(p).current == Some(CameraMode::Both)
                &&& !parked ==> final(p).current == Some(CameraMode::Tof)
            },
        forall|m: CameraMode, r: &'static str| #[trigger]
            call_ensures(CameraMode::name, (&m,), r) ==> r@ == (if m is Both {
                seq!['b', 'o', 't', 'h']
            } else {
                seq!['t', 'o', 'f']
            }),
{
    reveal_strlit("both");
    reveal_strlit("tof");
    assert("both"@ =~= seq!['b', 'o', 't', 'h']);
    assert("tof"@ =~= seq!['t', 'o', 'f']);
}

} // verus!
