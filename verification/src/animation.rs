//! Animation settings that carry no numbers.
use vstd::prelude::*;

verus! {

/// How a window or workspace transition is animated.
#[derive(Debug, Clone, Copy, PartialEq, Eq, Hash, Structural)]
pub enum AnimationStyle {
    /// Slide from the nearest screen edge to the goal rectangle.
    Slide,
    /// Grow from a small centred rectangle to the goal rectangle.
    PopIn,
    /// Cross-fade only; position and size jump at once.
    Fade,
    /// No animation (`None` in the configuration).
    Disabled,
}

} // verus!
