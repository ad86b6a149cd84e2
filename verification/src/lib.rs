//! A particle-in-cell simulation of point particles falling under gravity
//! inside a bounded rectangle, on deterministic fixed-point arithmetic.
//!
//! Particles exchange momentum with a coarse velocity grid: every frame the
//! particle velocities are splatted onto the grid with bilinear weights, the
//! change of the grid is interpolated back to the particles, and the particles
//! are advanced by one explicit Euler step with reflection at the walls.

pub mod scalar;
pub mod state;
pub mod particle;
pub mod config;
pub mod stencil;
pub mod transfer;
pub mod integrate;
pub mod occupancy;
mod random;
pub mod system;
pub mod util;

pub use crate::config::Config;
pub use crate::config::ConfigError;
pub use crate::particle::Particle;
pub use crate::state::State;
pub use crate::system::PhysSystem;
