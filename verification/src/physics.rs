//! Physics and collision engine: advances the world by one fixed timestep.
//!
//! `step` is a pure function of (previous snapshot, queued intents); its
//! whole behaviour is pinned down by `spec_step`, the mathematical
//! description of the eight per-tick stages, applied in this order: intents,
//! paddle clamping, wall reflection, out-of-bounds removal, paddle collision,
//! block collision, block pruning, motion integration.
//!
//! The playfield is a discrete milli-unit grid, so the reference renderer's
//! epsilon-tolerant float comparisons become exact integer comparisons here.

use vstd::math::abs;
use vstd::prelude::*;

use crate::constants::BALL_RADIUS;
use crate::constants::BALL_STEP_FACTOR;
use crate::constants::BALL_VEL_X_BOUND;
use crate::constants::BALL_VEL_X_MIN;
use crate::constants::BALL_VEL_Y_BOUND;
use crate::constants::BALL_VEL_Y_MIN;
use crate::constants::BLOCK_SIZE;
use crate::constants::COORD_LIMIT;
use crate::constants::COORD_LIMIT_MIN;
use crate::constants::DEFLECT_DIVISOR;
use crate::constants::KEY_LAUNCH;
use crate::constants::KEY_MOVE_LEFT;
use crate::constants::KEY_MOVE_RIGHT;
use crate::constants::LAUNCH_VELOCITY_Y;
use crate::constants::MAX_INTENTS_PER_TICK;
use crate::constants::PADDLE_HEIGHT;
use crate::constants::PADDLE_STEP;
use crate::constants::PADDLE_WIDTH;
use crate::constants::PADDLE_X_MAX;
use crate::constants::PADDLE_X_MIN;
use crate::constants::WORLD_HEIGHT;
use crate::constants::WORLD_WIDTH;
use crate::world::ball_wf;
use crate::world::block_wf;
use crate::world::paddle_wf;
use crate::world::wf;
use crate::world::Ball;
use crate::world::Block;
use crate::world::Paddle;
use crate::world::PlayerIntent;
use crate::world::Vec2;
use crate::world::WorldData;
use crate::world::WorldView;

verus! {

/// Coarse bounds under which every arithmetic step of the engine stays far
/// inside `i64`; implied by `ball_wf`.
pub open spec fn ball_bounded(b: Ball) -> bool {
    &&& COORD_LIMIT_MIN <= b.position.x <= COORD_LIMIT
    &&& COORD_LIMIT_MIN <= b.position.y <= COORD_LIMIT
    &&& BALL_VEL_X_MIN <= b.velocity.x <= BALL_VEL_X_BOUND
    &&& BALL_VEL_Y_MIN <= b.velocity.y <= BALL_VEL_Y_BOUND
}

/// Axis-aligned overlap between a ball (treated as a square of side
/// `2 * BALL_RADIUS`) and a centered box of the given width and height.
pub open spec fn overlaps(b: Ball, pos: Vec2, width: i64, height: i64) -> bool {
    &&& b.position.x - BALL_RADIUS < pos.x + width / 2
    &&& b.position.x + BALL_RADIUS > pos.x - width / 2
    &&& b.position.y - BALL_RADIUS < pos.y + height / 2
    &&& b.position.y + BALL_RADIUS > pos.y - height / 2
}

/// Stage 1a: a horizontal move key shifts the paddle by one paddle step;
/// other keys leave it alone.
pub open spec fn move_paddle(p: Paddle, key_code: u32) -> Paddle {
    if key_code == KEY_MOVE_LEFT {
        Paddle {
            id: p.id,
            position: Vec2 { x: (p.position.x - PADDLE_STEP) as i64, y: p.position.y },
        }
    } else if key_code == KEY_MOVE_RIGHT {
        Paddle {
            id: p.id,
            position: Vec2 { x: (p.position.x + PADDLE_STEP) as i64, y: p.position.y },
        }
    } else {
        p
    }
}

/// Stage 1b: launching an attached ball gives it a straight-up velocity and
/// frees it; a launched ball is unaffected.
pub open spec fn launch_ball(b: Ball) -> Ball {
    if !b.is_free {
        Ball {
            id: b.id,
            position: b.position,
            velocity: Vec2 { x: 0, y: LAUNCH_VELOCITY_Y },
            is_free: true,
        }
    } else {
        b
    }
}

/// First index at or after `i` of a paddle owned by `id`.
pub open spec fn find_paddle_from(ps: Seq<Paddle>, id: u8, i: int) -> Option<int>
    decreases ps.len() - i,
{
    if i < 0 || i >= ps.len() {
        None
    } else if ps[i].id == id {
        Some(i)
    } else {
        find_paddle_from(ps, id, i + 1)
    }
}

/// First index at or after `i` of a ball owned by `id`.
pub open spec fn find_ball_from(bs: Seq<Ball>, id: u8, i: int) -> Option<int>
    decreases bs.len() - i,
{
    if i < 0 || i >= bs.len() {
        None
    } else if bs[i].id == id {
        Some(i)
    } else {
        find_ball_from(bs, id, i + 1)
    }
}

/// Apply one intent. An intent whose player id owns no paddle is dropped (a
/// recoverable validation failure, not a crash); a launch whose player owns
/// no surviving ball launches nothing.
pub open spec fn apply_intent(ps: Seq<Paddle>, bs: Seq<Ball>, e: PlayerIntent) -> (Seq<
    Paddle,
>, Seq<Ball>) {
    match find_paddle_from(ps, e.player_id, 0) {
        None => (ps, bs),
        Some(j) => {
            let ps2 = ps.update(j, move_paddle(ps[j], e.key_code));
            let bs2 = if e.key_code == KEY_LAUNCH {
                match find_ball_from(bs, e.player_id, 0) {
                    None => bs,
                    Some(k) => bs.update(k, launch_ball(bs[k])),
                }
            } else {
                bs
            };
            (ps2, bs2)
        },
    }
}

/// Stage 1: apply the tick's intents in arrival order.
pub open spec fn apply_intents(ps: Seq<Paddle>, bs: Seq<Ball>, intents: Seq<PlayerIntent>) -> (Seq<
    Paddle,
>, Seq<Ball>)
    decreases intents.len(),
{
    if intents.len() == 0 {
        (ps, bs)
    } else {
        let prev = apply_intents(ps, bs, intents.drop_last());
        apply_intent(prev.0, prev.1, intents.last())
    }
}

/// Stage 2: clamp a paddle's center so the paddle stays inside the field.
pub open spec fn clamp_paddle(p: Paddle) -> Paddle {
    if p.position.x <= PADDLE_X_MIN {
        Paddle { id: p.id, position: Vec2 { x: PADDLE_X_MIN, y: p.position.y } }
    } else if p.position.x >= PADDLE_X_MAX {
        Paddle { id: p.id, position: Vec2 { x: PADDLE_X_MAX, y: p.position.y } }
    } else {
        p
    }
}

pub open spec fn clamp_paddles(ps: Seq<Paddle>) -> Seq<Paddle> {
    ps.map_values(|p: Paddle| clamp_paddle(p))
}

/// A ball touches a side wall when its left edge is at or past the left
/// wall, or its right edge is at or past the right wall.
pub open spec fn touches_side_wall(b: Ball) -> bool {
    b.position.x - BALL_RADIUS <= 0 || b.position.x + BALL_RADIUS >= WORLD_WIDTH
}

/// Stage 3: invert the horizontal velocity of a ball touching a side wall.
pub open spec fn reflect_wall(b: Ball) -> Ball {
    if touches_side_wall(b) {
        Ball {
            id: b.id,
            position: b.position,
            velocity: Vec2 { x: (0 - b.velocity.x) as i64, y: b.velocity.y },
            is_free: b.is_free,
        }
    } else {
        b
    }
}

pub open spec fn reflect_fn() -> spec_fn(Ball) -> Ball {
    |b: Ball| reflect_wall(b)
}

/// Stage 4 keeps a ball whose top edge is below the top wall and whose
/// bottom edge is above the bottom wall; the rest leave the playfield.
pub open spec fn ball_in_play(b: Ball) -> bool {
    b.position.y - BALL_RADIUS > 0 && b.position.y + BALL_RADIUS < WORLD_HEIGHT
}

pub open spec fn in_play_fn() -> spec_fn(Ball) -> bool {
    |b: Ball| ball_in_play(b)
}

/// Truncating division of the paddle-center offset: the deflected horizontal
/// velocity a paddle gives a ball.
pub open spec fn deflect(diff: int) -> int {
    if diff >= 0 {
        diff / (DEFLECT_DIVISOR as int)
    } else {
        0 - ((0 - diff) / (DEFLECT_DIVISOR as int))
    }
}

/// Stage 5: a ball overlapping a paddle bounces: its vertical velocity is
/// inverted, and a non-zero horizontal offset from the paddle center steers
/// it by the deflect factor.
pub open spec fn paddle_collide(b: Ball, p: Paddle) -> Ball {
    if overlaps(b, p.position, PADDLE_WIDTH, PADDLE_HEIGHT) {
        let diff = b.position.x - p.position.x;
        let vx = if diff != 0 {
            deflect(diff) as i64
        } else {
            b.velocity.x
        };
        Ball {
            id: b.id,
            position: b.position,
            velocity: Vec2 { x: vx, y: (0 - b.velocity.y) as i64 },
            is_free: b.is_free,
        }
    } else {
        b
    }
}

/// Each ball is checked against both paddles independently, in order.
pub open spec fn paddle_collide_both(b: Ball, ps: Seq<Paddle>) -> Ball {
    paddle_collide(paddle_collide(b, ps[0]), ps[1])
}

pub open spec fn collide_fn(ps: Seq<Paddle>) -> spec_fn(Ball) -> Ball {
    |b: Ball| paddle_collide_both(b, ps)
}

/// First block at or after index `i` that the ball overlaps.
pub open spec fn first_hit_from(b: Ball, ks: Seq<Block>, i: int) -> Option<int>
    decreases ks.len() - i,
{
    if i < 0 || i >= ks.len() {
        None
    } else if overlaps(b, ks[i].position, BLOCK_SIZE, BLOCK_SIZE) {
        Some(i)
    } else {
        first_hit_from(b, ks, i + 1)
    }
}

/// Stage 6 reflection: a vertically dominant offset from the block center
/// bounces the ball vertically, otherwise horizontally.
pub open spec fn bounce_ball(b: Ball, block_pos: Vec2) -> Ball {
    let dx = b.position.x - block_pos.x;
    let dy = b.position.y - block_pos.y;
    if abs(dy) > abs(dx) {
        Ball {
            id: b.id,
            position: b.position,
            velocity: Vec2 { x: b.velocity.x, y: (0 - b.velocity.y) as i64 },
            is_free: b.is_free,
        }
    } else {
        Ball {
            id: b.id,
            position: b.position,
            velocity: Vec2 { x: (0 - b.velocity.x) as i64, y: b.velocity.y },
            is_free: b.is_free,
        }
    }
}

/// A hit costs the block one hit point (never dropping below zero).
pub open spec fn hit_block(k: Block) -> Block {
    Block {
        position: k.position,
        hits_life: if k.hits_life >= 1 {
            (k.hits_life - 1) as usize
        } else {
            0
        },
    }
}

/// Stage 6: each ball, in order, hits at most the first block it overlaps;
/// that block loses one hit point and the ball bounces off it.
pub open spec fn block_stage(bs: Seq<Ball>, ks: Seq<Block>) -> (Seq<Ball>, Seq<Block>)
    decreases bs.len(),
{
    if bs.len() == 0 {
        (bs, ks)
    } else {
        let prev = block_stage(bs.drop_last(), ks);
        let b = bs.last();
        match first_hit_from(b, prev.1, 0) {
            None => (prev.0.push(b), prev.1),
            Some(j) => (
                prev.0.push(bounce_ball(b, prev.1[j].position)),
                prev.1.update(j, hit_block(prev.1[j])),
            ),
        }
    }
}

/// What stage 6 does to one ball, described against a fixed block sequence:
/// the outcome only reads block positions, which stage 6 never changes.
pub open spec fn block_bounce_outcome(b: Ball, ks: Seq<Block>) -> Ball {
    match first_hit_from(b, ks, 0) {
        None => b,
        Some(j) => bounce_ball(b, ks[j].position),
    }
}

/// Stage 7 keeps the blocks that still have hit points.
pub open spec fn live_block(k: Block) -> bool {
    k.hits_life != 0
}

pub open spec fn live_fn() -> spec_fn(Block) -> bool {
    |k: Block| live_block(k)
}

/// Stage 8: a launched ball advances by its velocity times the fixed
/// timestep; an attached ball does not move.
pub open spec fn integrate_ball(b: Ball) -> Ball {
    if b.is_free {
        Ball {
            id: b.id,
            position: Vec2 {
                x: (b.position.x + BALL_STEP_FACTOR * b.velocity.x) as i64,
                y: (b.position.y + BALL_STEP_FACTOR * b.velocity.y) as i64,
            },
            velocity: b.velocity,
            is_free: b.is_free,
        }
    } else {
        b
    }
}

pub open spec fn integrate_fn() -> spec_fn(Ball) -> Ball {
    |b: Ball| integrate_ball(b)
}

/// One full tick: the next snapshot as a function of the previous snapshot
/// and the intents drained this tick.
pub open spec fn spec_step(w: WorldView, intents: Seq<PlayerIntent>) -> WorldView {
    let moved = apply_intents(w.paddles, w.balls, intents);
    let paddles = clamp_paddles(moved.0);
    let reflected = moved.1.map_values(reflect_fn());
    let surviving = reflected.filter(in_play_fn());
    let after_paddles = surviving.map_values(collide_fn(paddles));
    let hit = block_stage(after_paddles, w.blocks);
    let blocks = hit.1.filter(live_fn());
    let balls = hit.0.map_values(integrate_fn());
    WorldView { blocks, paddles, balls }
}

/// Axis-aligned bounding-box test between a ball and a centered object.
pub fn is_ball_collided_with_object(ball: &Ball, position: Vec2, width: i64, height: i64) -> (r:
    bool)
    requires
        COORD_LIMIT_MIN <= ball.position.x <= COORD_LIMIT,
        COORD_LIMIT_MIN <= ball.position.y <= COORD_LIMIT,
        COORD_LIMIT_MIN <= position.x <= COORD_LIMIT,
        COORD_LIMIT_MIN <= position.y <= COORD_LIMIT,
        0 <= width <= WORLD_WIDTH,
        0 <= height <= WORLD_HEIGHT,
    ensures
        r == overlaps(*ball, position, width, height),
{
    let half_w = ((width as u64) / 2) as i64;
    let half_h = ((height as u64) / 2) as i64;
    ball.position.x - BALL_RADIUS < position.x + half_w && ball.position.x + BALL_RADIUS
        > position.x - half_w && ball.position.y - BALL_RADIUS < position.y + half_h
        && ball.position.y + BALL_RADIUS > position.y - half_h
}

/// Whether a ball hit the top or bottom of a block rather than a side: the
/// vertical offset from the block center dominates the horizontal one.
pub fn is_ball_hit_top_or_bottom_of_block(ball: &Ball, block: &Block) -> (r: bool)
    requires
        COORD_LIMIT_MIN <= ball.position.x <= COORD_LIMIT,
        COORD_LIMIT_MIN <= ball.position.y <= COORD_LIMIT,
        COORD_LIMIT_MIN <= block.position.x <= COORD_LIMIT,
        COORD_LIMIT_MIN <= block.position.y <= COORD_LIMIT,
    ensures
        r == (abs(ball.position.y - block.position.y) > abs(
            ball.position.x - block.position.x,
        )),
{
    let dx = ball.position.x - block.position.x;
    let dy = ball.position.y - block.position.y;
    let adx = if dx >= 0 {
        dx
    } else {
        0 - dx
    };
    let ady = if dy >= 0 {
        dy
    } else {
        0 - dy
    };
    ady > adx
}

/// Truncating deflect division on machine integers.
fn deflect_exec(diff: i64) -> (r: i64)
    requires
        COORD_LIMIT_MIN <= diff <= COORD_LIMIT,
    ensures
        r == deflect(diff as int),
        deflect(diff as int) == r as int,
{
    if diff >= 0 {
        ((diff as u64) / (DEFLECT_DIVISOR as u64)) as i64
    } else {
        let neg = 0 - diff;
        let q = ((neg as u64) / (DEFLECT_DIVISOR as u64)) as i64;
        0 - q
    }
}

/// Stage 1, executable: apply the drained intents in order.
fn apply_intents_exec(p_in: [Paddle; 2], balls_in: Vec<Ball>, intents: &Vec<PlayerIntent>) -> (r: (
    [Paddle; 2],
    Vec<Ball>,
))
    requires
        PADDLE_X_MIN <= p_in@[0].position.x <= PADDLE_X_MAX,
        PADDLE_X_MIN <= p_in@[1].position.x <= PADDLE_X_MAX,
        intents@.len() <= MAX_INTENTS_PER_TICK,
        forall|k: int| 0 <= k < balls_in@.len() ==> ball_bounded(#[trigger] balls_in@[k]),
    ensures
        r.0@ == apply_intents(p_in@, balls_in@, intents@).0,
        r.1@ == apply_intents(p_in@, balls_in@, intents@).1,
        forall|k: int| 0 <= k < r.1@.len() ==> ball_bounded(#[trigger] r.1@[k]),
        r.0@[0].id == p_in@[0].id && r.0@[1].id == p_in@[1].id,
        r.0@[0].position.y == p_in@[0].position.y && r.0@[1].position.y == p_in@[
            1
        ].position.y,
{
    let ghost bs0 = balls_in@;
    let ghost ps0 = p_in@;
    let mut p0 = p_in[0];
    let mut p1 = p_in[1];
    let mut balls = balls_in;
    let mut i: usize = 0;
    proof {
        assert(ps0 =~= seq![p0, p1]);
        assert(intents@.take(0) =~= Seq::<PlayerIntent>::empty());
    }
    while i < intents.len()
        invariant
            i <= intents@.len(),
            intents@.len() <= MAX_INTENTS_PER_TICK,
            seq![p0, p1] == apply_intents(ps0, bs0, intents@.take(i as int)).0,
            balls@ == apply_intents(ps0, bs0, intents@.take(i as int)).1,
            PADDLE_X_MIN - PADDLE_STEP * i <= p0.position.x <= PADDLE_X_MAX + PADDLE_STEP
                * i,
            PADDLE_X_MIN - PADDLE_STEP * i <= p1.position.x <= PADDLE_X_MAX + PADDLE_STEP
                * i,
            p0.id == ps0[0].id && p1.id == ps0[1].id,
            p0.position.y == ps0[0].position.y && p1.position.y == ps0[1].position.y,
            forall|k: int| 0 <= k < balls@.len() ==> ball_bounded(#[trigger] balls@[k]),
        decreases intents@.len() - i,
    {
        let ghost pre_p = seq![p0, p1];
        let ghost pre_b = balls@;
        let e = intents[i];
        proof {
            reveal_with_fuel(find_paddle_from, 4);
        }
        let target: usize = if p0.id == e.player_id {
            0
        } else if p1.id == e.player_id {
            1
        } else {
            2
        };
        if target < 2 {
            if target == 0 {
                if e.key_code == KEY_MOVE_LEFT {
                    p0.position.x = p0.position.x - PADDLE_STEP;
                } else if e.key_code == KEY_MOVE_RIGHT {
                    p0.position.x = p0.position.x + PADDLE_STEP;
                }
            } else {
                if e.key_code == KEY_MOVE_LEFT {
                    p1.position.x = p1.position.x - PADDLE_STEP;
                } else if e.key_code == KEY_MOVE_RIGHT {
                    p1.position.x = p1.position.x + PADDLE_STEP;
                }
            }
            proof {
                let j = find_paddle_from(pre_p, e.player_id, 0).unwrap();
                assert(seq![p0, p1] =~= pre_p.update(
                    j,
                    move_paddle(pre_p[j], e.key_code),
                ));
            }
            if e.key_code == KEY_LAUNCH {
                let mut j: usize = 0;
                let mut found: bool = false;
                while !found && j < balls.len()
                    invariant
                        j <= balls@.len(),
                        find_ball_from(pre_b, e.player_id, 0) == find_ball_from(
                            pre_b,
                            e.player_id,
                            j as int,
                        ),
                        balls@ == pre_b,
                        found ==> j < balls@.len() && balls@[j as int].id == e.player_id,
                    decreases balls@.len() - j + (if found {
                        0int
                    } else {
                        1int
                    }),
                {
                    if balls[j].id == e.player_id {
                        found = true;
                    } else {
                        j = j + 1;
                    }
                }
                if found {
                    let b = balls[j];
                    if !b.is_free {
                        balls[j] = Ball {
                            id: b.id,
                            position: b.position,
                            velocity: Vec2 { x: 0, y: LAUNCH_VELOCITY_Y },
                            is_free: true,
                        };
                    }
                    proof {
                        assert(find_ball_from(pre_b, e.player_id, 0) == Some(j as int));
                        assert(balls@ =~= pre_b.update(
                            j as int,
                            launch_ball(pre_b[j as int]),
                        ));
                    }
                } else {
                    proof {
                        assert(find_ball_from(pre_b, e.player_id, 0) == None::<int>);
                    }
                }
            }
        } else {
            proof {
                assert(find_paddle_from(pre_p, e.player_id, 0) == None::<int>);
            }
        }
        proof {
            assert(intents@.take(i + 1).drop_last() =~= intents@.take(i as int));
            assert(intents@.take(i + 1).last() == intents@[i as int]);
            assert(seq![p0, p1] == apply_intent(pre_p, pre_b, e).0);
            assert(balls@ == apply_intent(pre_p, pre_b, e).1);
        }
        i = i + 1;
    }
    proof {
        assert(intents@.take(intents@.len() as int) =~= intents@);
    }
    ([p0, p1], balls)
}

/// Stage 2, executable: clamp both paddles to the playfield.
fn clamp_paddles_exec(ps: [Paddle; 2]) -> (r: [Paddle; 2])
    ensures
        r@ == clamp_paddles(ps@),
{
    let mut q0 = ps[0];
    let mut q1 = ps[1];
    if q0.position.x <= PADDLE_X_MIN {
        q0.position.x = PADDLE_X_MIN;
    } else if q0.position.x >= PADDLE_X_MAX {
        q0.position.x = PADDLE_X_MAX;
    }
    if q1.position.x <= PADDLE_X_MIN {
        q1.position.x = PADDLE_X_MIN;
    } else if q1.position.x >= PADDLE_X_MAX {
        q1.position.x = PADDLE_X_MAX;
    }
    let r = [q0, q1];
    proof {
        assert(r@ =~= clamp_paddles(ps@));
    }
    r
}

/// Stage 3, executable: wall reflection.
fn reflect_walls_exec(balls: Vec<Ball>) -> (r: Vec<Ball>)
    requires
        forall|k: int| 0 <= k < balls@.len() ==> ball_bounded(#[trigger] balls@[k]),
    ensures
        r@ == balls@.map_values(reflect_fn()),
        forall|k: int| 0 <= k < r@.len() ==> ball_bounded(#[trigger] r@[k]),
{
    let mut r: Vec<Ball> = Vec::new();
    let mut i: usize = 0;
    while i < balls.len()
        invariant
            i <= balls@.len(),
            forall|k: int| 0 <= k < balls@.len() ==> ball_bounded(#[trigger] balls@[k]),
            r@.len() == i,
            forall|k: int| 0 <= k < i ==> #[trigger] r@[k] == reflect_wall(balls@[k]),
            forall|k: int| 0 <= k < i ==> ball_bounded(#[trigger] r@[k]),
        decreases balls@.len() - i,
    {
        let b = balls[i];
        if b.position.x - BALL_RADIUS <= 0 || b.position.x + BALL_RADIUS >= WORLD_WIDTH {
            let flipped = 0 - b.velocity.x;
            r.push(
                Ball {
                    id: b.id,
                    position: b.position,
                    velocity: Vec2 { x: flipped, y: b.velocity.y },
                    is_free: b.is_free,
                },
            );
        } else {
            r.push(b);
        }
        i = i + 1;
    }
    proof {
        assert(r@ =~= balls@.map_values(reflect_fn()));
    }
    r
}

/// Stage 4, executable: drop the balls that left through the top or bottom.
fn remove_out_of_bounds_exec(balls: Vec<Ball>) -> (r: Vec<Ball>)
    requires
        forall|k: int| 0 <= k < balls@.len() ==> ball_bounded(#[trigger] balls@[k]),
    ensures
        r@ == balls@.filter(in_play_fn()),
        forall|k: int| 0 <= k < r@.len() ==> ball_bounded(#[trigger] r@[k]),
{
    let mut r: Vec<Ball> = Vec::new();
    let mut i: usize = 0;
    proof {
        assert(balls@.take(0) =~= Seq::<Ball>::empty());
        reveal(Seq::filter);
    }
    while i < balls.len()
        invariant
            i <= balls@.len(),
            forall|k: int| 0 <= k < balls@.len() ==> ball_bounded(#[trigger] balls@[k]),
            r@ == balls@.take(i as int).filter(in_play_fn()),
            forall|k: int| 0 <= k < r@.len() ==> ball_bounded(#[trigger] r@[k]),
        decreases balls@.len() - i,
    {
        let ghost pre = r@;
        let b = balls[i];
        if b.position.y - BALL_RADIUS > 0 && b.position.y + BALL_RADIUS < WORLD_HEIGHT {
            r.push(b);
        }
        proof {
            reveal(Seq::filter);
            assert(balls@.take(i + 1).drop_last() =~= balls@.take(i as int));
            assert(balls@.take(i + 1).last() == balls@[i as int]);
        }
        i = i + 1;
    }
    proof {
        assert(balls@.take(balls@.len() as int) =~= balls@);
    }
    r
}

/// Stage 5, executable: bounce each ball off each paddle it overlaps.
fn paddle_collisions_exec(balls: Vec<Ball>, paddles: &[Paddle; 2]) -> (r: Vec<Ball>)
    requires
        forall|k: int| 0 <= k < balls@.len() ==> ball_bounded(#[trigger] balls@[k]),
        PADDLE_X_MIN <= paddles@[0].position.x <= PADDLE_X_MAX,
        PADDLE_X_MIN <= paddles@[1].position.x <= PADDLE_X_MAX,
        0 <= paddles@[0].position.y <= WORLD_HEIGHT,
        0 <= paddles@[1].position.y <= WORLD_HEIGHT,
    ensures
        r@ == balls@.map_values(collide_fn(paddles@)),
        forall|k: int| 0 <= k < r@.len() ==> ball_bounded(#[trigger] r@[k]),
{
    let mut r: Vec<Ball> = Vec::new();
    let mut i: usize = 0;
    while i < balls.len()
        invariant
            i <= balls@.len(),
            forall|k: int| 0 <= k < balls@.len() ==> ball_bounded(#[trigger] balls@[k]),
            PADDLE_X_MIN <= paddles@[0].position.x <= PADDLE_X_MAX,
            PADDLE_X_MIN <= paddles@[1].position.x <= PADDLE_X_MAX,
            0 <= paddles@[0].position.y <= WORLD_HEIGHT,
            0 <= paddles@[1].position.y <= WORLD_HEIGHT,
            r@.len() == i,
            forall|k: int|
                0 <= k < i ==> #[trigger] r@[k] == paddle_collide_both(
                    balls@[k],
                    paddles@,
                ),
            forall|k: int| 0 <= k < i ==> ball_bounded(#[trigger] r@[k]),
        decreases balls@.len() - i,
    {
        let b = balls[i];
        let b1 = paddle_collide_exec(b, &paddles[0]);
        let b2 = paddle_collide_exec(b1, &paddles[1]);
        r.push(b2);
        i = i + 1;
    }
    proof {
        assert(r@ =~= balls@.map_values(collide_fn(paddles@)));
    }
    r
}

/// One ball against one paddle.
fn paddle_collide_exec(b: Ball, p: &Paddle) -> (r: Ball)
    requires
        ball_bounded(b),
        PADDLE_X_MIN <= p.position.x <= PADDLE_X_MAX,
        0 <= p.position.y <= WORLD_HEIGHT,
    ensures
        r == paddle_collide(b, *p),
        ball_bounded(r),
        r.position == b.position,
{
    if is_ball_collided_with_object(&b, p.position, PADDLE_WIDTH, PADDLE_HEIGHT) {
        let diff = b.position.x - p.position.x;
        let vx = if diff != 0 {
            let d = deflect_exec(diff);
            proof {
                assert(diff < PADDLE_WIDTH / 2 + BALL_RADIUS);
                assert(0 - (PADDLE_WIDTH / 2 + BALL_RADIUS) < diff);
                assert(BALL_VEL_X_MIN <= deflect(diff as int) <= BALL_VEL_X_BOUND);
            }
            d
        } else {
            b.velocity.x
        };
        let flipped_y = 0 - b.velocity.y;
        Ball {
            id: b.id,
            position: b.position,
            velocity: Vec2 { x: vx, y: flipped_y },
            is_free: b.is_free,
        }
    } else {
        b
    }
}

/// Stage 6, executable: every ball hits at most the first block it overlaps.
fn block_collisions_exec(balls: Vec<Ball>, blocks: Vec<Block>) -> (r: (Vec<Ball>, Vec<Block>))
    requires
        forall|k: int| 0 <= k < balls@.len() ==> ball_bounded(#[trigger] balls@[k]),
        forall|k: int|
            0 <= k < blocks@.len() ==> 0 <= (#[trigger] blocks@[k]).position.x <= WORLD_WIDTH
                && 0 <= blocks@[k].position.y <= WORLD_HEIGHT,
    ensures
        r.0@ == block_stage(balls@, blocks@).0,
        r.1@ == block_stage(balls@, blocks@).1,
        forall|k: int| 0 <= k < r.0@.len() ==> ball_bounded(#[trigger] r.0@[k]),
{
    let ghost bs0 = balls@;
    let ghost ks0 = blocks@;
    let mut out: Vec<Ball> = Vec::new();
    let mut blocks = blocks;
    let mut i: usize = 0;
    proof {
        assert(bs0.take(0) =~= Seq::<Ball>::empty());
    }
    while i < balls.len()
        invariant
            i <= bs0.len(),
            balls@ == bs0,
            forall|k: int| 0 <= k < bs0.len() ==> ball_bounded(#[trigger] bs0[k]),
            out@ == block_stage(bs0.take(i as int), ks0).0,
            blocks@ == block_stage(bs0.take(i as int), ks0).1,
            blocks@.len() == ks0.len(),
            forall|k: int|
                0 <= k < blocks@.len() ==> (#[trigger] blocks@[k]).position == ks0[
                    k
                ].position,
            forall|k: int|
                0 <= k < ks0.len() ==> 0 <= (#[trigger] ks0[k]).position.x <= WORLD_WIDTH
                    && 0 <= ks0[k].position.y <= WORLD_HEIGHT,
            forall|k: int| 0 <= k < out@.len() ==> ball_bounded(#[trigger] out@[k]),
        decreases bs0.len() - i,
    {
        let b = balls[i];
        let ghost pre_blocks = blocks@;
        let mut j: usize = 0;
        let mut hit: bool = false;
        while !hit && j < blocks.len()
            invariant
                j <= blocks@.len(),
                blocks@ == pre_blocks,
                ball_bounded(b),
                forall|k: int|
                    0 <= k < blocks@.len() ==> 0 <= (
                    #[trigger] blocks@[k]).position.x <= WORLD_WIDTH && 0 <= blocks@[
                        k
                    ].position.y <= WORLD_HEIGHT,
                first_hit_from(b, pre_blocks, 0) == first_hit_from(
                    b,
                    pre_blocks,
                    j as int,
                ),
                hit ==> j < blocks@.len() && first_hit_from(b, pre_blocks, j as int)
                    == Some(j as int),
            decreases blocks@.len() - j + (if hit {
                0int
            } else {
                1int
            }),
        {
            if is_ball_collided_with_object(&b, blocks[j].position, BLOCK_SIZE, BLOCK_SIZE) {
                hit = true;
            } else {
                j = j + 1;
            }
        }
        if hit {
            let blk = blocks[j];
            let bounced = if is_ball_hit_top_or_bottom_of_block(&b, &blk) {
                let fy = 0 - b.velocity.y;
                Ball {
                    id: b.id,
                    position: b.position,
                    velocity: Vec2 { x: b.velocity.x, y: fy },
                    is_free: b.is_free,
                }
            } else {
                let fx = 0 - b.velocity.x;
                Ball {
                    id: b.id,
                    position: b.position,
                    velocity: Vec2 { x: fx, y: b.velocity.y },
                    is_free: b.is_free,
                }
            };
            out.push(bounced);
            let new_hits: usize = if blk.hits_life >= 1 {
                blk.hits_life - 1
            } else {
                0
            };
            blocks[j] = Block { position: blk.position, hits_life: new_hits };
            proof {
                assert(bounced == bounce_ball(b, pre_blocks[j as int].position));
                assert(blocks@ =~= pre_blocks.update(
                    j as int,
                    hit_block(pre_blocks[j as int]),
                ));
            }
        } else {
            out.push(b);
        }
        proof {
            assert(bs0.take(i + 1).drop_last() =~= bs0.take(i as int));
            assert(bs0.take(i + 1).last() == bs0[i as int]);
        }
        i = i + 1;
    }
    proof {
        assert(bs0.take(bs0.len() as int) =~= bs0);
    }
    (out, blocks)
}

/// Stage 7, executable: prune the blocks that ran out of hit points.
fn prune_blocks_exec(blocks: Vec<Block>) -> (r: Vec<Block>)
    ensures
        r@ == blocks@.filter(live_fn()),
{
    let mut r: Vec<Block> = Vec::new();
    let mut i: usize = 0;
    proof {
        assert(blocks@.take(0) =~= Seq::<Block>::empty());
        reveal(Seq::filter);
    }
    while i < blocks.len()
        invariant
            i <= blocks@.len(),
            r@ == blocks@.take(i as int).filter(live_fn()),
        decreases blocks@.len() - i,
    {
        let k = blocks[i];
        if k.hits_life != 0 {
            r.push(k);
        }
        proof {
            reveal(Seq::filter);
            assert(blocks@.take(i + 1).drop_last() =~= blocks@.take(i as int));
            assert(blocks@.take(i + 1).last() == blocks@[i as int]);
        }
        i = i + 1;
    }
    proof {
        assert(blocks@.take(blocks@.len() as int) =~= blocks@);
    }
    r
}

/// Stage 8, executable: integrate the motion of the launched balls.
fn integrate_exec(balls: Vec<Ball>) -> (r: Vec<Ball>)
    requires
        forall|k: int| 0 <= k < balls@.len() ==> ball_bounded(#[trigger] balls@[k]),
    ensures
        r@ == balls@.map_values(integrate_fn()),
{
    let mut r: Vec<Ball> = Vec::new();
    let mut i: usize = 0;
    while i < balls.len()
        invariant
            i <= balls@.len(),
            forall|k: int| 0 <= k < balls@.len() ==> ball_bounded(#[trigger] balls@[k]),
            r@.len() == i,
            forall|k: int| 0 <= k < i ==> #[trigger] r@[k] == integrate_ball(balls@[k]),
        decreases balls@.len() - i,
    {
        let b = balls[i];
        if b.is_free {
            let nx = b.position.x + BALL_STEP_FACTOR * b.velocity.x;
            let ny = b.position.y + BALL_STEP_FACTOR * b.velocity.y;
            r.push(
                Ball {
                    id: b.id,
                    position: Vec2 { x: nx, y: ny },
                    velocity: b.velocity,
                    is_free: b.is_free,
                },
            );
        } else {
            r.push(b);
        }
        i = i + 1;
    }
    proof {
        assert(r@ =~= balls@.map_values(integrate_fn()));
    }
    r
}

/// Advance the world by one fixed timestep, applying the tick's intents.
/// The result is exactly `spec_step` of the previous snapshot.
pub fn step(world: &WorldData, intents: &Vec<PlayerIntent>) -> (r: WorldData)
    requires
        wf(world@),
        intents@.len() <= MAX_INTENTS_PER_TICK,
    ensures
        r@ == spec_step(world@, intents@),
        wf(r@),
{
    proof {
        crate::laws::lemma_step_preserves_wf(world@, intents@);
        assert forall|k: int| 0 <= k < world@.balls.len() implies ball_bounded(
            #[trigger] world@.balls[k],
        ) by {
            assert(ball_wf(world@.balls[k]));
        }
        assert forall|k: int|
            0 <= k < world@.blocks.len() implies 0 <= (
        #[trigger] world@.blocks[k]).position.x <= WORLD_WIDTH && 0 <= world@.blocks[
            k
        ].position.y <= WORLD_HEIGHT by {
            assert(block_wf(world@.blocks[k]));
        }
    }
    let p_arr = [world.paddles[0], world.paddles[1]];
    proof {
        assert(p_arr@ =~= world@.paddles);
    }
    let moved = apply_intents_exec(p_arr, copy_balls(&world.balls), intents);
    let paddles = clamp_paddles_exec(moved.0);
    let reflected = reflect_walls_exec(moved.1);
    let surviving = remove_out_of_bounds_exec(reflected);
    let after_paddles = paddle_collisions_exec(surviving, &paddles);
    let hit = block_collisions_exec(after_paddles, copy_blocks(&world.blocks));
    let blocks = prune_blocks_exec(hit.1);
    let balls = integrate_exec(hit.0);
    let r = WorldData { blocks, paddles, balls };
    proof {
        assert(r@.blocks =~= spec_step(world@, intents@).blocks);
        assert(r@.paddles =~= spec_step(world@, intents@).paddles);
        assert(r@.balls =~= spec_step(world@, intents@).balls);
    }
    r
}

fn copy_balls(v: &Vec<Ball>) -> (r: Vec<Ball>)
    ensures
        r@ == v@,
{
    crate::world::copy_vec(v)
}

fn copy_blocks(v: &Vec<Block>) -> (r: Vec<Block>)
    ensures
        r@ == v@,
{
    crate::world::copy_vec(v)
}

} // verus!
