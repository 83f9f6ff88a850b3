//! The modes of the camera.

use vstd::prelude::*;

verus! {

/// How the camera frames the scene.
#[derive(Clone, Copy, Debug, PartialEq, Eq, Structural, Hash)]
pub enum CameraMode {
    Standard,
    Debug,
}

impl Default for CameraMode {
    fn default() -> (mode: Self)
        ensures
            mode == CameraMode::Standard,
    {
        Self::Standard
    }
}

} // verus!
