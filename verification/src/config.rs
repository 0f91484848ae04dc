//! Detector policy knobs shared by the single-rule evaluator.

use vstd::prelude::*;

verus! {

/// Policy for the single-rule evaluator: how many windowed errors an
/// identity may accumulate before it is reported, and how far back from
/// the group's most recent event the window reaches.
pub struct DetectorConfig {
    pub error_threshold: u32,
    pub window_minutes: i64,
}

impl DetectorConfig {
    /// The stock policy: more than 3 errors within a 5-minute window.
    pub fn default() -> (c: Self)
        ensures
            c.error_threshold == 3,
            c.window_minutes == 5,
    {
        Self { error_threshold: 3, window_minutes: 5 }
    }

    pub fn new(error_threshold: u32, window_minutes: i64) -> (c: Self)
        ensures
            c.error_threshold == error_threshold,
            c.window_minutes == window_minutes,
    {
        Self { error_threshold, window_minutes }
    }
}

} // verus!
