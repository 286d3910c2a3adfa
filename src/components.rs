//! Marker components and the engine's built-in stages.
use crate::scheduler::{StageAction, StageContext, StageOutcome};
use vstd::prelude::*;

verus! {

/// Marks an entity that takes part in collision detection.
#[derive(Clone, Copy, PartialEq, Eq, Structural, Debug, Default)]
pub struct Collider;

/// Marks an entity moved by the physics stage.
#[derive(Clone, Copy, PartialEq, Eq, Structural, Debug, Default)]
pub struct RigidBody2D;

/// Collision detection; it has no work of its own yet.
#[derive(Clone, Copy, PartialEq, Eq, Structural, Debug, Default)]
pub struct CollisionSystem;

/// Physics integration; it has no work of its own yet.
#[derive(Clone, Copy, PartialEq, Eq, Structural, Debug, Default)]
pub struct Physics2DSystem;

impl<W> StageAction<W> for CollisionSystem {
    fn run(&mut self, world: &mut W, ctx: &StageContext) -> StageOutcome {
        StageOutcome::Done
    }
}

impl<W> StageAction<W> for Physics2DSystem {
    fn run(&mut self, world: &mut W, ctx: &StageContext) -> StageOutcome {
        StageOutcome::Done
    }
}

} // verus!
