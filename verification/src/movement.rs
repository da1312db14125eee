//! Per-frame movement decisions: how the camera moves this frame and at
//! which speed tier.

use vstd::prelude::*;

verus! {

/// How the camera moves in a frame.
#[derive(Debug, Clone, Copy, PartialEq, Eq, Structural)]
pub enum MoveMode {
    /// The camera flies freely; the player stays put.
    FreeFly,
    /// The player is held at its position until nearby chunks are ready.
    Frozen,
    /// The player walks under physics and the camera follows its eyes.
    Physics,
}

/// Movement speeds, slowest first within each mode.
#[derive(Debug, Clone, Copy, PartialEq, Eq, Structural)]
pub enum SpeedTier {
    Walk,
    Sprint,
    FreeCam,
    FreeCamFast,
}

/// The movement mode: free camera first, else frozen while streaming has
/// not made the nearby chunks ready, else physics.
pub fn move_mode(free_cam: bool, use_streaming: bool, chunks_ready: bool) -> (m: MoveMode)
    ensures
        m == (if free_cam {
            MoveMode::FreeFly
        } else if !chunks_ready && use_streaming {
            MoveMode::Frozen
        } else {
            MoveMode::Physics
        }),
{
    if free_cam {
        MoveMode::FreeFly
    } else if !chunks_ready && use_streaming {
        MoveMode::Frozen
    } else {
        MoveMode::Physics
    }
}

/// The speed tier: sprinting picks the faster speed of the mode.
pub fn speed_tier(sprint: bool, free_cam: bool) -> (t: SpeedTier)
    ensures
        t == (if sprint {
            if free_cam { SpeedTier::FreeCamFast } else { SpeedTier::Sprint }
        } else if free_cam {
            SpeedTier::FreeCam
        } else {
            SpeedTier::Walk
        }),
{
    if sprint {
        if free_cam {
            SpeedTier::FreeCamFast
        } else {
            SpeedTier::Sprint
        }
    } else if free_cam {
        SpeedTier::FreeCam
    } else {
        SpeedTier::Walk
    }
}

} // verus!
