//! The decision policy of the recursive shading step.
//!
//! One traced ray either runs out of bounce budget, misses the scene,
//! is absorbed by the material it hit, or is scattered onward. The
//! floating-point tracing itself happens outside the library; the policy
//! of what each answer contributes is decided and verified here.

use vstd::prelude::*;

verus! {

/// How the scene and, on a hit, the material answered one traced ray.
#[derive(Clone, Copy, PartialEq, Eq, Structural, Debug)]
pub enum TraceOutcome {
    /// The ray left the scene without hitting anything.
    Missed,
    /// The nearest hit's material absorbed the ray.
    Absorbed,
    /// The nearest hit's material scattered the ray onward.
    Scattered,
}

/// What the shader contributes for one traced ray.
#[derive(Clone, Copy, PartialEq, Eq, Structural, Debug)]
pub enum ShadeAction {
    /// Contribute black: the bounce budget is spent or the ray was absorbed.
    Black,
    /// Contribute the sky gradient for the ray's direction.
    Sky,
    /// Trace the scattered ray with one bounce fewer and attenuate its color.
    Recurse,
}

/// The shading decision. With no bounces left every ray yields black,
/// whatever the scene holds; otherwise a miss yields the sky gradient,
/// an absorbed ray black, and a scattered ray a recursive trace.
pub fn shade_action(depth: u32, outcome: TraceOutcome) -> (a: ShadeAction)
    ensures
        a == ShadeAction::Black <==> depth == 0 || outcome == TraceOutcome::Absorbed,
        a == ShadeAction::Sky <==> depth > 0 && outcome == TraceOutcome::Missed,
        a == ShadeAction::Recurse <==> depth > 0 && outcome == TraceOutcome::Scattered,
{
    if depth == 0 {
        ShadeAction::Black
    } else {
        match outcome {
            TraceOutcome::Missed => ShadeAction::Sky,
            TraceOutcome::Absorbed => ShadeAction::Black,
            TraceOutcome::Scattered => ShadeAction::Recurse,
        }
    }
}

} // verus!
