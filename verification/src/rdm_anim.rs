//! Keyframe animation of a skeleton.

use vstd::prelude::*;

verus! {

/// One keyframe of one joint. Rotation (x, y, z, w), translation and time
/// are bit patterns of single-precision numbers.
#[derive(Clone, Copy, Debug, PartialEq, Eq)]
pub struct Frame {
    pub rotation: [u32; 4],
    pub translation: [u32; 3],
    pub time: u32,
}

/// The keyframes of one joint, which is named, not numbered.
#[derive(Clone, Debug)]
pub struct FrameCollection {
    pub name: String,
    pub frames: Vec<Frame>,
}

/// An animation: one track for each animated joint, and the time at which
/// it ends, in milliseconds.
#[derive(Clone, Debug)]
pub struct RDAnim {
    pub time_max: u32,
    pub name: String,
    pub anim_vec: Vec<FrameCollection>,
}

} // verus!
