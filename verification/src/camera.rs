//! Camera orientation: yaw and pitch driven by accumulated mouse motion.

use vstd::prelude::*;
use crate::common::Vec2;

verus! {

/// Pitch is clamped to a quarter turn either way: pi/2 in microradians.
pub const PITCH_LIMIT: i64 = 1570796;

/// Yaw saturates at the representable range of view angles,
/// microradians.
pub const YAW_LIMIT: i64 = 1000000000;

/// Orientation of a player's view: yaw and pitch in microradians.
#[derive(Clone, Copy, Debug, PartialEq, Eq, Structural)]
pub struct CameraInfo {
    pub yaw: i64,
    pub pitch: i64,
}

impl CameraInfo {
    /// Both angles lie in their representable ranges.
    pub open spec fn wf(self) -> bool {
        &&& -YAW_LIMIT <= self.yaw <= YAW_LIMIT
        &&& -PITCH_LIMIT <= self.pitch <= PITCH_LIMIT
    }
}

/// A value forced into a symmetric range.
pub open spec fn spec_clamp(x: int, b: int) -> int {
    if x > b {
        b
    } else if x < -b {
        -b
    } else {
        x
    }
}

/// Yaw decreases with rightward mouse motion and pitch grows with
/// downward motion, one microradian per thousandth of a pixel; both
/// angles saturate at their limits.
pub open spec fn spec_camera_after_input(delta: Vec2, cam: CameraInfo) -> CameraInfo {
    CameraInfo {
        yaw: spec_clamp(cam.yaw - delta.x, YAW_LIMIT as int) as i64,
        pitch: spec_clamp(cam.pitch + delta.y, PITCH_LIMIT as int) as i64,
    }
}

/// Turn one tick's accumulated mouse delta into a view-angle change.
pub fn apply_player_camera_input(mouse_delta: Vec2, camera_info: &mut CameraInfo)
    requires
        old(camera_info).wf(),
        -1000000000 <= mouse_delta.x <= 1000000000,
        -1000000000 <= mouse_delta.y <= 1000000000,
    ensures
        *final(camera_info) == spec_camera_after_input(mouse_delta, *old(camera_info)),
        final(camera_info).wf(),
{
    let yaw = camera_info.yaw - mouse_delta.x;
    camera_info.yaw = if yaw > YAW_LIMIT {
        YAW_LIMIT
    } else if yaw < -YAW_LIMIT {
        -YAW_LIMIT
    } else {
        yaw
    };
    let pitch = camera_info.pitch + mouse_delta.y;
    camera_info.pitch = if pitch > PITCH_LIMIT {
        PITCH_LIMIT
    } else if pitch < -PITCH_LIMIT {
        -PITCH_LIMIT
    } else {
        pitch
    };
}

} // verus!
