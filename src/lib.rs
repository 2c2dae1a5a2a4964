//! A flock of arrows steered by separation, alignment, cohesion and
//! obstacle avoidance, computed in saturating fixed-point arithmetic.
pub mod fixed;
pub mod vector;
pub mod messages;
pub mod arrow;
pub mod game;
pub mod connection;
