//! A small N-body gravity core on integers.
//!
//! Positions and velocities are 16-bit integers in whole world units, masses
//! and the gravitational constant 16-bit integers. Forces are 128-bit integers
//! in units of `1 / FORCE_ONE`, each pairwise force evaluated exactly and
//! truncated toward zero. `force` holds the pairwise inverse-square law and its
//! laws, `tick` the per-tick accumulation over unordered pairs, `snapshot`
//! the store of committed kinematic state, `service` the state query, and
//! `camera` the choice of the body the view follows.

pub mod vector;
pub mod force;
pub mod tick;
pub mod snapshot;
pub mod service;
pub mod camera;
