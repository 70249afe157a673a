//! Authoritative server core for a two-player paddle/ball/brick arcade game.
//!
//! One process simulates the shared world at a fixed tick rate and streams
//! snapshots to two clients. This crate holds the deterministic heart of that
//! server: the world model and its invariants (`world`), the fixed-timestep
//! physics and collision engine (`physics`), the snapshot wire codec
//! (`codec`), the per-tick input queue (`intake`), the latest-value snapshot
//! fan-out (`fanout`), and the per-client session state machine (`session`).
//!
//! All geometry is fixed-point: positions and velocities are `i64` counts of
//! milli-units (one playfield unit = `SCALE` = 1000 counts), which keeps every
//! tick exactly reproducible on every machine.

pub mod constants;
pub mod world;
pub mod physics;
pub mod laws;
pub mod codec;
pub mod intake;
pub mod fanout;
pub mod session;
