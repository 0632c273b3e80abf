//! The decision logic of the controller-calibration flow: a recording
//! toggle that, when switched on, asks the host to clear its sample storage
//! and, when switched off, asks it to recompute the axis warp.

use vstd::prelude::*;

verus! {

/// Whether controller samples are currently being recorded.
pub struct RecordLeftStickToggle(pub bool);

impl Default for RecordLeftStickToggle {
    /// Recording starts switched off.
    fn default() -> (t: RecordLeftStickToggle)
        ensures
            !t.0,
    {
        RecordLeftStickToggle(false)
    }
}

/// A request to recompute the axis warp from the recorded samples.
pub struct CalculateLeftAxisWarpEvent {}

/// Whether the host should be recording controller samples right now.
pub fn should_record_left_axis(toggle: &RecordLeftStickToggle) -> (r: bool)
    ensures
        r == toggle.0,
{
    toggle.0
}

/// One step of the toggle state machine: a press flips the toggle; flipping
/// it on asks the host to clear its recorded samples (`clear_storage`),
/// flipping it off emits a recompute request.
pub fn update_rla_toggle(toggle: &mut RecordLeftStickToggle, just_pressed: bool) -> (r: (
    bool,
    Option<CalculateLeftAxisWarpEvent>,
))
    ensures
        final(toggle).0 == (if just_pressed {
            !old(toggle).0
        } else {
            old(toggle).0
        }),
        r.0 == (just_pressed && !old(toggle).0),
        r.1.is_some() == (just_pressed && old(toggle).0),
{
    if just_pressed {
        toggle.0 = !toggle.0;
        if toggle.0 {
            (true, None)
        } else {
            (false, Some(CalculateLeftAxisWarpEvent {}))
        }
    } else {
        (false, None)
    }
}

} // verus!
