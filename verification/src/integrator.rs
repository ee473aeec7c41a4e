//! The integrator's control decisions. The radiance arithmetic itself is
//! floating point and runs in the renderer binary; what is decided here —
//! and proved — is *which* arithmetic the renderer performs at each bounce:
//! when a path terminates, when it returns the diagnostic colour, when it
//! returns emitted radiance alone, and when it continues with one bounce
//! less. The renderer runs the path as a loop, handing each intersection
//! outcome to [`trace_step`] and performing the action it returns.

use vstd::prelude::*;

verus! {

/// What intersecting the scene at the current bounce found.
#[derive(Copy, Clone, Debug, PartialEq, Eq, Structural)]
pub enum TraceEvent {
    /// The ray left the scene without hitting anything.
    Miss,
    /// The ray hit a shape whose material identifier is not in the table.
    HitMissingMaterial,
    /// The ray hit a shape whose material only emits and never scatters.
    HitEmissive,
    /// The ray hit a shape whose material scattered the ray onward.
    HitScattered,
}

/// What the renderer must do with the current bounce.
#[derive(Copy, Clone, Debug, PartialEq, Eq, Structural)]
pub enum TraceAction {
    /// Terminate the path contributing no radiance (black).
    ReturnZero,
    /// Terminate the path with the diagnostic error colour, so a broken
    /// material reference shows up in the image instead of crashing the
    /// worker.
    ReturnErrorColour,
    /// Terminate the path with the material's emitted radiance alone.
    ReturnEmitted,
    /// Weight the scattered ray's radiance and keep tracing with one bounce
    /// less.
    ContinuePath { next_depth: u32 },
}

/// The decision table of the integrator: exhausted depth always terminates
/// with black; otherwise a miss is black (the background emits nothing), a
/// dangling material reference is the diagnostic colour, an emitter
/// contributes its emission alone, and a scattering material continues the
/// path with one bounce less.
pub open spec fn trace_action(depth: u32, event: TraceEvent) -> TraceAction {
    if depth == 0 {
        TraceAction::ReturnZero
    } else {
        match event {
            TraceEvent::Miss => TraceAction::ReturnZero,
            TraceEvent::HitMissingMaterial => TraceAction::ReturnErrorColour,
            TraceEvent::HitEmissive => TraceAction::ReturnEmitted,
            TraceEvent::HitScattered => TraceAction::ContinuePath {
                next_depth: (depth - 1) as u32,
            },
        }
    }
}

/// Decides the current bounce. See [`trace_action`] for the full decision
/// table this is proved against.
pub fn trace_step(depth: u32, event: TraceEvent) -> (action: TraceAction)
    ensures
        action == trace_action(depth, event),
{
    if depth == 0 {
        return TraceAction::ReturnZero;
    }
    match event {
        TraceEvent::Miss => TraceAction::ReturnZero,
        TraceEvent::HitMissingMaterial => TraceAction::ReturnErrorColour,
        TraceEvent::HitEmissive => TraceAction::ReturnEmitted,
        TraceEvent::HitScattered => TraceAction::ContinuePath { next_depth: depth - 1 },
    }
}

/// With the depth budget exhausted the path contributes the zero colour,
/// whatever the scene produced.
pub proof fn lemma_depth_zero_is_black(event: TraceEvent)
    ensures
        trace_action(0, event) == TraceAction::ReturnZero,
{
}

/// A hit on a pure emitter terminates the path at once: the returned
/// radiance is the emitted radiance alone, with no indirect term, at every
/// remaining depth.
pub proof fn lemma_emitter_is_terminal(depth: u32)
    requires
        depth > 0,
    ensures
        trace_action(depth, TraceEvent::HitEmissive) == TraceAction::ReturnEmitted,
{
}

/// Whenever the decision is to continue, the remaining depth strictly
/// shrinks, so every path performs at most its initial depth's bounces.
pub proof fn lemma_path_depth_decreases(depth: u32, event: TraceEvent, next_depth: u32)
    requires
        trace_action(depth, event) == (TraceAction::ContinuePath { next_depth }),
    ensures
        next_depth < depth,
{
}

} // verus!
