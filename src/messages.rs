//! The values exchanged with viewers: colours, tuning parameters, the
//! commands a viewer sends and the state it is sent.
use crate::fixed::in_range;
use crate::vector::Vec2;
use vstd::prelude::*;

verus! {

/// A colour with channels in fixed point (`SCALE` is full intensity).
#[derive(Clone, Copy, Debug, PartialEq, Eq, Structural)]
pub struct Color {
    pub r: i64,
    pub g: i64,
    pub b: i64,
    pub a: i64,
}

impl Color {
    pub fn new(r: i64, g: i64, b: i64, a: i64) -> (c: Color)
        ensures
            c == (Color { r, g, b, a }),
    {
        Color { r, g, b, a }
    }
}

/// The nine tunables of the flock, each a fixed-point quantity.
#[derive(Clone, Copy, Debug, PartialEq, Eq, Structural)]
pub struct FlockingParameters {
    pub max_speed: i64,
    pub obstacle_avoidance_distance: i64,
    pub obstacle_avoidance_strength: i64,
    pub separation_distance: i64,
    pub alignment_distance: i64,
    pub cohesion_distance: i64,
    pub separation_strength: i64,
    pub alignment_strength: i64,
    pub cohesion_strength: i64,
}

impl FlockingParameters {
    /// Every tunable is in range, and the avoidance distance, which
    /// divides, is not zero.
    pub open spec fn wf(self) -> bool {
        &&& in_range(self.max_speed as int)
        &&& in_range(self.obstacle_avoidance_distance as int)
        &&& in_range(self.obstacle_avoidance_strength as int)
        &&& in_range(self.separation_distance as int)
        &&& in_range(self.alignment_distance as int)
        &&& in_range(self.cohesion_distance as int)
        &&& in_range(self.separation_strength as int)
        &&& in_range(self.alignment_strength as int)
        &&& in_range(self.cohesion_strength as int)
        &&& self.obstacle_avoidance_distance != 0
    }

    pub open spec fn standard() -> FlockingParameters {
        FlockingParameters {
            max_speed: 5_000_000,
            obstacle_avoidance_distance: 100_000_000,
            obstacle_avoidance_strength: 500_000,
            separation_distance: 70_000_000,
            alignment_distance: 120_000_000,
            cohesion_distance: 200_000_000,
            separation_strength: 300_000,
            alignment_strength: 250_000,
            cohesion_strength: 300_000,
        }
    }

    /// Checks `wf`, for parameters that come from outside.
    pub fn is_valid(&self) -> (r: bool)
        ensures
            r == self.wf(),
    {
        let lo = -crate::fixed::LIMIT;
        let hi = crate::fixed::LIMIT;
        lo <= self.max_speed && self.max_speed <= hi && lo <= self.obstacle_avoidance_distance
            && self.obstacle_avoidance_distance <= hi && lo <= self.obstacle_avoidance_strength
            && self.obstacle_avoidance_strength <= hi && lo <= self.separation_distance
            && self.separation_distance <= hi && lo <= self.alignment_distance
            && self.alignment_distance <= hi && lo <= self.cohesion_distance
            && self.cohesion_distance <= hi && lo <= self.separation_strength
            && self.separation_strength <= hi && lo <= self.alignment_strength
            && self.alignment_strength <= hi && lo <= self.cohesion_strength
            && self.cohesion_strength <= hi && self.obstacle_avoidance_distance != 0
    }
}

impl Default for FlockingParameters {
    fn default() -> (p: FlockingParameters)
        ensures
            p == FlockingParameters::standard(),
            p.wf(),
    {
        FlockingParameters {
            max_speed: 5_000_000,
            obstacle_avoidance_distance: 100_000_000,
            obstacle_avoidance_strength: 500_000,
            separation_distance: 70_000_000,
            alignment_distance: 120_000_000,
            cohesion_distance: 200_000_000,
            separation_strength: 300_000,
            alignment_strength: 250_000,
            cohesion_strength: 300_000,
        }
    }
}

/// What a viewer is sent of one arrow. `angle` is a vector whose polar
/// angle is the arrow's heading.
#[derive(Clone, Copy, Debug, PartialEq, Eq, Structural)]
pub struct ArrowState {
    pub position: Vec2,
    pub angle: Vec2,
    pub size: i64,
    pub color: Color,
}

#[derive(Clone, Copy, Debug, PartialEq, Eq, Structural)]
pub struct ObstacleState {
    pub position: Vec2,
    pub radius: i64,
}

/// A command from a viewer.
#[derive(Clone, Copy, Debug, PartialEq, Eq, Structural)]
pub enum ClientMessage {
    CreateObstacle { x: i64, y: i64 },
    UpdateParameters { parameters: FlockingParameters },
    ClearObstacles,
}

/// The state a viewer is sent.
#[derive(Debug)]
pub enum ServerMessage {
    GameState {
        arrows: Vec<ArrowState>,
        obstacles: Vec<ObstacleState>,
        screen_width: i64,
        screen_height: i64,
        parameters: FlockingParameters,
    },
}

} // verus!
