//! Shared geometry and protocol constants.
//!
//! All lengths are in milli-units: one playfield unit is `SCALE` counts.
//! Velocities are milli-scaled unit vectors (a vertical speed of one unit per
//! `BALL_SPEED`-scaled second is stored as `SCALE`).

use vstd::prelude::*;

verus! {

/// Fixed-point scale: counts per playfield unit.
pub const SCALE: i64 = 1000;

/// Playfield width, in milli-units (1920 units).
pub const WORLD_WIDTH: i64 = 1920 * SCALE;

/// Playfield height, in milli-units (1080 units).
pub const WORLD_HEIGHT: i64 = 1080 * SCALE;

/// Side of a (square) block, in milli-units (50 units).
pub const BLOCK_SIZE: i64 = 50 * SCALE;

/// Half of `BLOCK_SIZE`.
pub const HALF_BLOCK_SIZE: i64 = 25 * SCALE;

/// Number of block columns in the default layout (playfield width divided
/// by the block side, in whole units); the centered row then leaves a
/// 10-unit margin at each wall.
pub const BLOCKS_IN_ROW: usize = 1920 / 50;

/// Number of block rows in the default layout.
pub const BLOCK_ROWS: usize = 5;

/// Hit points given to every block in the default layout.
pub const BLOCK_HITS_LIFE: usize = 1;

/// Paddle width, in milli-units (200 units).
pub const PADDLE_WIDTH: i64 = 200 * SCALE;

/// Half of `PADDLE_WIDTH`.
pub const HALF_PADDLE_WIDTH: i64 = 100 * SCALE;

/// Paddle height, in milli-units (20 units).
pub const PADDLE_HEIGHT: i64 = 20 * SCALE;

/// Half of `PADDLE_HEIGHT`.
pub const HALF_PADDLE_HEIGHT: i64 = 10 * SCALE;

/// Ball radius, in milli-units (10 units).
pub const BALL_RADIUS: i64 = 10 * SCALE;

/// Paddle speed, in units per second.
pub const PADDLE_SPEED: i64 = 300;

/// Ball speed, in units per second.
pub const BALL_SPEED: i64 = 300;

/// Fixed simulation rate: ticks per second. The timestep is its inverse.
pub const TICKS_PER_SECOND: i64 = 60;

/// Paddle displacement per movement intent, in milli-units:
/// `PADDLE_SPEED * SCALE / TICKS_PER_SECOND`.
pub const PADDLE_STEP: i64 = 5000;

/// Ball displacement per tick is `velocity * BALL_STEP_FACTOR`, with the
/// velocity a milli-scaled unit vector: `BALL_SPEED / TICKS_PER_SECOND`.
pub const BALL_STEP_FACTOR: i64 = 5;

/// Vertical velocity given to a ball when it is launched (straight up).
pub const LAUNCH_VELOCITY_Y: i64 = -1000;

/// A paddle deflects a ball's horizontal velocity to the ball's horizontal
/// offset from the paddle center divided by the half paddle width; in
/// milli-units that is a division by `HALF_PADDLE_WIDTH / SCALE`.
pub const DEFLECT_DIVISOR: i64 = 100;

/// Smallest paddle-center x position after clamping (`HALF_PADDLE_WIDTH`).
pub const PADDLE_X_MIN: i64 = 100 * SCALE;

/// Largest paddle-center x position after clamping
/// (`WORLD_WIDTH - HALF_PADDLE_WIDTH`).
pub const PADDLE_X_MAX: i64 = 1820 * SCALE;

/// Wire key code for a move-left intent.
pub const KEY_MOVE_LEFT: u32 = 263;

/// Wire key code for a move-right intent.
pub const KEY_MOVE_RIGHT: u32 = 262;

/// Wire key code for a launch intent.
pub const KEY_LAUNCH: u32 = 32;

/// Largest magnitude a ball's horizontal velocity can take: a paddle deflect
/// is bounded by the overlap geometry, everything else only flips signs.
pub const BALL_VEL_X_BOUND: i64 = 1100;

/// Largest magnitude a ball's vertical velocity can take (launch speed).
pub const BALL_VEL_Y_BOUND: i64 = 1000;

/// Lower bound of a ball's horizontal velocity (`-BALL_VEL_X_BOUND`).
pub const BALL_VEL_X_MIN: i64 = -1100;

/// Lower bound of a ball's vertical velocity (`-BALL_VEL_Y_BOUND`).
pub const BALL_VEL_Y_MIN: i64 = -1000;

/// Smallest x position a ball inside a well-formed world can reach.
pub const BALL_X_MIN: i64 = -100 * SCALE;

/// Largest x position a ball inside a well-formed world can reach.
pub const BALL_X_MAX: i64 = 2020 * SCALE;

/// Smallest y position a ball inside a well-formed world can reach.
pub const BALL_Y_MIN: i64 = -100 * SCALE;

/// Largest y position a ball inside a well-formed world can reach.
pub const BALL_Y_MAX: i64 = 1180 * SCALE;

/// Coordinates handled by the view helpers and the wire codec stay within
/// this magnitude (2 to the 40th); every coordinate of a well-formed world
/// is far inside it.
pub const COORD_LIMIT: i64 = 1099511627776;

/// The negation of `COORD_LIMIT`.
pub const COORD_LIMIT_MIN: i64 = -1099511627776;

/// Most intents a single tick will apply; the intake queue is drained once
/// per tick and cannot plausibly hold more. Keeps paddle arithmetic far from
/// the `i64` range.
pub const MAX_INTENTS_PER_TICK: usize = 100000;

/// Most block rows `create_world` accepts: the lowest row must stay inside
/// the playfield.
pub const MAX_BLOCK_ROWS: usize = 12;

} // verus!
