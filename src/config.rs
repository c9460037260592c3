use vstd::prelude::*;

verus! {

/// Fixed-point unit: a value `v` stands for the fraction `v / SCALE`.
pub const SCALE: i32 = 1_000_000;

/// Default minimum objectness and class score (one half).
pub const CONF_THRESHOLD: i32 = 500_000;

/// Default overlap above which the weaker of two boxes is suppressed.
pub const NMS_THRESHOLD: i32 = 400_000;

/// Side of the square image the network is fed.
pub const INPUT_SIZE: i32 = 416;

} // verus!
