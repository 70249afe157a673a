//! The engine's laws: invariant preservation, idempotence of an idle tick,
//! monotone block removal, permanence of ball removal, and the first-block
//! tie-break, each proved about `spec_step`.

use vstd::prelude::*;

use crate::constants::BALL_RADIUS;
use crate::constants::BALL_STEP_FACTOR;
use crate::constants::BALL_VEL_X_BOUND;
use crate::constants::BALL_VEL_X_MIN;
use crate::constants::BALL_VEL_Y_BOUND;
use crate::constants::BALL_VEL_Y_MIN;
use crate::constants::BALL_X_MAX;
use crate::constants::BALL_X_MIN;
use crate::constants::BALL_Y_MAX;
use crate::constants::BALL_Y_MIN;
use crate::constants::BLOCK_SIZE;
use crate::constants::KEY_MOVE_RIGHT;
use crate::constants::LAUNCH_VELOCITY_Y;
use crate::constants::PADDLE_HEIGHT;
use crate::constants::PADDLE_STEP;
use crate::constants::PADDLE_WIDTH;
use crate::constants::PADDLE_X_MAX;
use crate::constants::PADDLE_X_MIN;
use crate::constants::WORLD_HEIGHT;
use crate::constants::WORLD_WIDTH;
use crate::physics::apply_intents;
use crate::physics::ball_in_play;
use crate::physics::block_bounce_outcome;
use crate::physics::block_stage;
use crate::physics::clamp_paddles;
use crate::physics::clamp_paddle;
use crate::physics::collide_fn;
use crate::physics::find_ball_from;
use crate::physics::find_paddle_from;
use crate::physics::first_hit_from;
use crate::physics::hit_block;
use crate::physics::in_play_fn;
use crate::physics::integrate_ball;
use crate::physics::integrate_fn;
use crate::physics::launch_ball;
use crate::physics::live_fn;
use crate::physics::move_paddle;
use crate::physics::overlaps;
use crate::physics::paddle_collide;
use crate::physics::paddle_collide_both;
use crate::physics::reflect_fn;
use crate::physics::reflect_wall;
use crate::physics::spec_step;
use crate::physics::touches_side_wall;
use crate::world::ball_wf;
use crate::world::block_wf;
use crate::world::paddle_wf;
use crate::world::paddles_wf;
use crate::world::wf;
use crate::world::Ball;
use crate::world::Block;
use crate::world::Paddle;
use crate::world::PlayerIntent;
use crate::world::Vec2;
use crate::world::WorldView;

verus! {

/// How the intents stage can change one ball: either it is left alone, or it
/// has been launched.
pub open spec fn intent_ball_rel(a: Ball, b: Ball) -> bool {
    &&& b.id == a.id
    &&& b.position == a.position
    &&& ((b.velocity == a.velocity && b.is_free == a.is_free) || (b.is_free && b.velocity
        == Vec2 { x: 0, y: LAUNCH_VELOCITY_Y }))
}

/// A found ball index is in range and owns the searched id.
proof fn lemma_find_ball_props(bs: Seq<Ball>, id: u8, i: int)
    requires
        0 <= i,
    ensures
        match find_ball_from(bs, id, i) {
            Some(j) => i <= j < bs.len() && bs[j].id == id,
            None => true,
        },
    decreases bs.len() - i,
{
    if i < bs.len() {
        lemma_find_ball_props(bs, id, i + 1);
    }
}

/// The intents stage keeps both paddles (ids and heights) and every ball's
/// identity and position; a ball is at most launched.
pub proof fn lemma_apply_intents_shape(ps: Seq<Paddle>, bs: Seq<Ball>, intents: Seq<PlayerIntent>)
    requires
        ps.len() == 2,
    ensures
        ({
            let r = apply_intents(ps, bs, intents);
            &&& r.0.len() == 2
            &&& r.0[0].id == ps[0].id && r.0[1].id == ps[1].id
            &&& r.0[0].position.y == ps[0].position.y && r.0[1].position.y == ps[
                1
            ].position.y
            &&& r.1.len() == bs.len()
            &&& forall|i: int|
                0 <= i < bs.len() ==> intent_ball_rel(bs[i], #[trigger] r.1[i])
        }),
    decreases intents.len(),
{
    if intents.len() == 0 {
    } else {
        lemma_apply_intents_shape(ps, bs, intents.drop_last());
        let prev = apply_intents(ps, bs, intents.drop_last());
        let e = intents.last();
        let r = apply_intents(ps, bs, intents);
        reveal_with_fuel(find_paddle_from, 4);
        match find_paddle_from(prev.0, e.player_id, 0) {
            None => {},
            Some(j) => {
                if e.key_code == crate::constants::KEY_LAUNCH {
                    lemma_find_ball_props(prev.1, e.player_id, 0);
                    match find_ball_from(prev.1, e.player_id, 0) {
                        None => {},
                        Some(k) => {
                            assert forall|i: int| 0 <= i < bs.len() implies intent_ball_rel(
                                bs[i],
                                #[trigger] r.1[i],
                            ) by {
                                if i == k {
                                    assert(intent_ball_rel(bs[i], prev.1[i]));
                                    assert(r.1[i] == launch_ball(prev.1[i]));
                                }
                            }
                        },
                    }
                }
            },
        }
    }
}

/// A found first-hit index is the least overlapping index at or after the
/// start; a missing one means no block at or after the start overlaps.
pub proof fn lemma_first_hit_props(b: Ball, ks: Seq<Block>, i: int)
    requires
        0 <= i,
    ensures
        match first_hit_from(b, ks, i) {
            Some(j) => i <= j < ks.len() && overlaps(b, ks[j].position, BLOCK_SIZE, BLOCK_SIZE)
                && forall|k: int|
                i <= k < j ==> !overlaps(b, (#[trigger] ks[k]).position, BLOCK_SIZE, BLOCK_SIZE),
            None => forall|k: int|
                i <= k < ks.len() ==> !overlaps(
                    b,
                    (#[trigger] ks[k]).position,
                    BLOCK_SIZE,
                    BLOCK_SIZE,
                ),
        },
    decreases ks.len() - i,
{
    if i < ks.len() {
        lemma_first_hit_props(b, ks, i + 1);
    }
}

/// The first hit only reads block positions, so sequences that agree on
/// positions agree on it.
pub proof fn lemma_first_hit_stable(b: Ball, ks1: Seq<Block>, ks2: Seq<Block>, i: int)
    requires
        0 <= i,
        ks1.len() == ks2.len(),
        forall|j: int| 0 <= j < ks1.len() ==> (#[trigger] ks1[j]).position == ks2[j].position,
    ensures
        first_hit_from(b, ks1, i) == first_hit_from(b, ks2, i),
    decreases ks1.len() - i,
{
    if i < ks1.len() {
        lemma_first_hit_stable(b, ks1, ks2, i + 1);
    }
}

/// The block stage keeps both sequences' lengths, block positions, never
/// raises a hit count, and sends each ball to its bounce outcome against the
/// original block positions.
pub proof fn lemma_block_stage_shape(bs: Seq<Ball>, ks: Seq<Block>)
    ensures
        ({
            let r = block_stage(bs, ks);
            &&& r.0.len() == bs.len()
            &&& r.1.len() == ks.len()
            &&& forall|j: int|
                0 <= j < ks.len() ==> (#[trigger] r.1[j]).position == ks[j].position
            &&& forall|j: int|
                0 <= j < ks.len() ==> (#[trigger] r.1[j]).hits_life <= ks[j].hits_life
            &&& forall|i: int|
                0 <= i < bs.len() ==> #[trigger] r.0[i] == block_bounce_outcome(bs[i], ks)
        }),
    decreases bs.len(),
{
    if bs.len() == 0 {
    } else {
        let sub = bs.drop_last();
        lemma_block_stage_shape(sub, ks);
        let prev = block_stage(sub, ks);
        let b = bs.last();
        lemma_first_hit_stable(b, prev.1, ks, 0);
        lemma_first_hit_props(b, ks, 0);
        let r = block_stage(bs, ks);
        assert forall|i: int| 0 <= i < bs.len() implies #[trigger] r.0[i]
            == block_bounce_outcome(bs[i], ks) by {
            if i < sub.len() {
                assert(sub[i] == bs[i]);
                assert(r.0[i] == prev.0[i]);
            } else {
                assert(bs[i] == b);
            }
        }
    }
}

/// Every element of a filtered sequence is an element of the original.
pub proof fn lemma_filter_sub<A>(s: Seq<A>, p: spec_fn(A) -> bool)
    ensures
        forall|i: int|
            #![trigger s.filter(p)[i]]
            0 <= i < s.filter(p).len() ==> exists|j: int|
                #![trigger s[j]]
                0 <= j < s.len() && s.filter(p)[i] == s[j],
    decreases s.len(),
{
    reveal(Seq::filter);
    if s.len() == 0 {
    } else {
        let sub = s.drop_last();
        lemma_filter_sub(sub, p);
        assert forall|i: int|
            #![trigger s.filter(p)[i]]
            0 <= i < s.filter(p).len() implies exists|j: int|
            #![trigger s[j]]
            0 <= j < s.len() && s.filter(p)[i] == s[j] by {
            if i < sub.filter(p).len() {
                assert(s.filter(p)[i] == sub.filter(p)[i]);
                let j = choose|j: int|
                    #![trigger sub[j]]
                    0 <= j < sub.len() && sub.filter(p)[i] == sub[j];
                assert(sub[j] == s[j]);
                assert(0 <= j < s.len() && s.filter(p)[i] == s[j]);
            } else {
                assert(p(s.last()));
                assert(s.filter(p)[i] == s.last());
                let j = s.len() - 1;
                assert(0 <= j < s.len() && s.filter(p)[i] == s[j]);
            }
        }
    }
}

/// Filtering with a predicate that holds everywhere is the identity.
pub proof fn lemma_filter_all<A>(s: Seq<A>, p: spec_fn(A) -> bool)
    requires
        forall|i: int| 0 <= i < s.len() ==> p(#[trigger] s[i]),
    ensures
        s.filter(p) == s,
    decreases s.len(),
{
    reveal(Seq::filter);
    if s.len() == 0 {
        assert(s.filter(p) =~= s);
    } else {
        let sub = s.drop_last();
        assert forall|i: int| 0 <= i < sub.len() implies p(#[trigger] sub[i]) by {
            assert(sub[i] == s[i]);
        }
        lemma_filter_all(sub, p);
        assert(p(s.last()));
        assert(s.filter(p) =~= s);
    }
}

/// A paddle collision keeps the ball's identity, position and launch state,
/// keeps a bounded velocity bounded (a deflect is bounded by the overlap
/// geometry), and does nothing without an overlap.
pub proof fn lemma_paddle_collide_props(b: Ball, p: Paddle)
    ensures
        ({
            let r = paddle_collide(b, p);
            &&& r.position == b.position && r.id == b.id && r.is_free == b.is_free
            &&& !overlaps(b, p.position, PADDLE_WIDTH, PADDLE_HEIGHT) ==> r == b
            &&& (BALL_VEL_X_MIN <= b.velocity.x <= BALL_VEL_X_BOUND && BALL_VEL_Y_MIN
                <= b.velocity.y <= BALL_VEL_Y_BOUND) ==> (BALL_VEL_X_MIN <= r.velocity.x
                <= BALL_VEL_X_BOUND && BALL_VEL_Y_MIN <= r.velocity.y <= BALL_VEL_Y_BOUND)
        }),
{
    if overlaps(b, p.position, PADDLE_WIDTH, PADDLE_HEIGHT) {
        let diff = b.position.x - p.position.x;
        assert(diff < PADDLE_WIDTH / 2 + BALL_RADIUS);
        assert(0 - (PADDLE_WIDTH / 2 + BALL_RADIUS) < diff);
        assert(BALL_VEL_X_MIN <= crate::physics::deflect(diff));
        assert(crate::physics::deflect(diff) <= BALL_VEL_X_BOUND);
    }
}

/// The chain one surviving ball goes through after the intents stage, ending
/// well formed. The margin argument: strictly inside the walls a tick moves
/// the ball by less than the margin; at or beyond a wall but near it, the
/// move is still small; far beyond a wall nothing can touch the ball except
/// the wall flip, which exactly retraces the previous tick's move.
proof fn lemma_ball_chain_wf(b0: Ball, b1: Ball, paddles: Seq<Paddle>, blocks: Seq<Block>)
    requires
        ball_wf(b0),
        intent_ball_rel(b0, b1),
        paddles.len() == 2,
        PADDLE_X_MIN <= paddles[0].position.x <= PADDLE_X_MAX,
        PADDLE_X_MIN <= paddles[1].position.x <= PADDLE_X_MAX,
        forall|k: int|
            0 <= k < blocks.len() ==> 0 <= (#[trigger] blocks[k]).position.x <= WORLD_WIDTH,
        ball_in_play(reflect_wall(b1)),
    ensures
        ball_wf(
            integrate_ball(
                block_bounce_outcome(
                    paddle_collide_both(reflect_wall(b1), paddles),
                    blocks,
                ),
            ),
        ),
{
    let b3 = reflect_wall(b1);
    let b5 = paddle_collide_both(b3, paddles);
    let b6 = block_bounce_outcome(b5, blocks);
    let r = integrate_ball(b6);
    let px = b0.position.x;
    let py = b0.position.y;
    lemma_paddle_collide_props(b3, paddles[0]);
    lemma_paddle_collide_props(paddle_collide(b3, paddles[0]), paddles[1]);
    lemma_first_hit_props(b5, blocks, 0);
    assert(b3.position == b0.position && b5.position == b0.position && b6.position
        == b0.position);
    assert(BALL_VEL_X_MIN <= b3.velocity.x <= BALL_VEL_X_BOUND);
    assert(BALL_VEL_Y_MIN <= b3.velocity.y <= BALL_VEL_Y_BOUND);
    assert(BALL_VEL_X_MIN <= b6.velocity.x <= BALL_VEL_X_BOUND);
    assert(BALL_VEL_Y_MIN <= b6.velocity.y <= BALL_VEL_Y_BOUND);
    assert(BALL_RADIUS < py < WORLD_HEIGHT - BALL_RADIUS);
    if b6.is_free {
        // Vertical: the ball survived removal, so one step keeps it inside
        // the margin.
        assert(BALL_Y_MIN <= py + BALL_STEP_FACTOR * b6.velocity.y <= BALL_Y_MAX);
        // Horizontal: zone analysis.
        if px <= BALL_RADIUS {
            assert(touches_side_wall(b1));
            if px <= 0 - (BLOCK_SIZE / 2 + BALL_RADIUS) {
                // Far beyond the left wall: no paddle or block reaches it.
                assert(!overlaps(b3, paddles[0].position, PADDLE_WIDTH, PADDLE_HEIGHT));
                assert(!overlaps(b3, paddles[1].position, PADDLE_WIDTH, PADDLE_HEIGHT));
                assert(b5 == b3);
                match first_hit_from(b5, blocks, 0) {
                    Some(h) => {
                        assert(overlaps(b5, blocks[h].position, BLOCK_SIZE, BLOCK_SIZE));
                        assert(false);
                    },
                    None => {},
                }
                assert(b6 == b3);
                assert(b6.velocity.x == (0 - b1.velocity.x) as i64);
                if b1.velocity == b0.velocity && b1.is_free == b0.is_free {
                    assert(BALL_X_MIN <= px - BALL_STEP_FACTOR * b0.velocity.x
                        <= BALL_X_MAX);
                    assert(BALL_X_MIN <= px + BALL_STEP_FACTOR * b6.velocity.x
                        <= BALL_X_MAX);
                } else {
                    assert(b6.velocity.x == 0);
                }
            } else {
                assert(BALL_X_MIN <= px + BALL_STEP_FACTOR * b6.velocity.x <= BALL_X_MAX);
            }
        } else if px >= WORLD_WIDTH - BALL_RADIUS {
            assert(touches_side_wall(b1));
            if px >= WORLD_WIDTH + BLOCK_SIZE / 2 + BALL_RADIUS {
                // Far beyond the right wall: symmetric.
                assert(!overlaps(b3, paddles[0].position, PADDLE_WIDTH, PADDLE_HEIGHT));
                assert(!overlaps(b3, paddles[1].position, PADDLE_WIDTH, PADDLE_HEIGHT));
                assert(b5 == b3);
                match first_hit_from(b5, blocks, 0) {
                    Some(h) => {
                        assert(overlaps(b5, blocks[h].position, BLOCK_SIZE, BLOCK_SIZE));
                        assert(false);
                    },
                    None => {},
                }
                assert(b6 == b3);
                assert(b6.velocity.x == (0 - b1.velocity.x) as i64);
                if b1.velocity == b0.velocity && b1.is_free == b0.is_free {
                    assert(BALL_X_MIN <= px - BALL_STEP_FACTOR * b0.velocity.x
                        <= BALL_X_MAX);
                    assert(BALL_X_MIN <= px + BALL_STEP_FACTOR * b6.velocity.x
                        <= BALL_X_MAX);
                } else {
                    assert(b6.velocity.x == 0);
                }
            } else {
                assert(BALL_X_MIN <= px + BALL_STEP_FACTOR * b6.velocity.x <= BALL_X_MAX);
            }
        } else {
            assert(BALL_X_MIN <= px + BALL_STEP_FACTOR * b6.velocity.x <= BALL_X_MAX);
        }
        assert(r.position.x == px + BALL_STEP_FACTOR * b6.velocity.x);
        assert(r.position.y == py + BALL_STEP_FACTOR * b6.velocity.y);
        assert(BALL_X_MIN <= r.position.x - BALL_STEP_FACTOR * r.velocity.x <= BALL_X_MAX);
    }
}

/// One step of a well-formed world is well formed: there are always exactly
/// two paddles clamped to the field, and every surviving ball stays inside
/// the fixed margins around the playfield.
pub proof fn lemma_step_preserves_wf(w: WorldView, intents: Seq<PlayerIntent>)
    requires
        wf(w),
    ensures
        wf(spec_step(w, intents)),
{
    let moved = apply_intents(w.paddles, w.balls, intents);
    lemma_apply_intents_shape(w.paddles, w.balls, intents);
    let paddles = clamp_paddles(moved.0);
    assert(paddle_wf(paddles[0]) && paddle_wf(paddles[1]));
    assert(paddles_wf(paddles));
    let reflected = moved.1.map_values(reflect_fn());
    let surviving = reflected.filter(in_play_fn());
    lemma_filter_sub(reflected, in_play_fn());
    let after_paddles = surviving.map_values(collide_fn(paddles));
    let hit = block_stage(after_paddles, w.blocks);
    lemma_block_stage_shape(after_paddles, w.blocks);
    let blocks2 = hit.1.filter(live_fn());
    lemma_filter_sub(hit.1, live_fn());
    let balls2 = hit.0.map_values(integrate_fn());
    let result = spec_step(w, intents);

    assert forall|i: int| 0 <= i < blocks2.len() implies block_wf(#[trigger] blocks2[i]) by {
        hit.1.lemma_filter_pred(live_fn(), i);
        let j = choose|j: int| #![trigger hit.1[j]] 0 <= j < hit.1.len() && hit.1.filter(
            live_fn(),
        )[i] == hit.1[j];
        assert(block_wf(w.blocks[j]));
    }

    assert forall|i: int| 0 <= i < balls2.len() implies ball_wf(#[trigger] balls2[i]) by {
        reflected.lemma_filter_pred(in_play_fn(), i);
        let j = choose|j: int| #![trigger reflected[j]] 0 <= j < reflected.len()
            && reflected.filter(in_play_fn())[i] == reflected[j];
        let b1 = moved.1[j];
        assert(intent_ball_rel(w.balls[j], b1));
        assert(ball_wf(w.balls[j]));
        assert(surviving[i] == reflect_wall(b1));
        lemma_ball_chain_wf(w.balls[j], b1, paddles, w.blocks);
        assert(balls2[i] == integrate_ball(
            block_bounce_outcome(paddle_collide_both(reflect_wall(b1), paddles), w.blocks),
        ));
    }
}

/// A world at rest: every ball is attached, still, inside the playfield, and
/// clear of every paddle and block.
pub open spec fn resting_world(w: WorldView) -> bool {
    forall|i: int|
        0 <= i < w.balls.len() ==> ({
            let b = #[trigger] w.balls[i];
            &&& !b.is_free
            &&& b.velocity == Vec2 { x: 0, y: 0 }
            &&& ball_in_play(b)
            &&& forall|k: int|
                0 <= k < w.paddles.len() ==> !overlaps(
                    b,
                    (#[trigger] w.paddles[k]).position,
                    PADDLE_WIDTH,
                    PADDLE_HEIGHT,
                )
            &&& forall|k: int|
                0 <= k < w.blocks.len() ==> !overlaps(
                    b,
                    (#[trigger] w.blocks[k]).position,
                    BLOCK_SIZE,
                    BLOCK_SIZE,
                )
        })
}

/// When no ball overlaps any block, the block stage changes nothing.
proof fn lemma_block_stage_no_hit(bs: Seq<Ball>, ks: Seq<Block>)
    requires
        forall|i: int, k: int|
            0 <= i < bs.len() && 0 <= k < ks.len() ==> !overlaps(
                #[trigger] bs[i],
                (#[trigger] ks[k]).position,
                BLOCK_SIZE,
                BLOCK_SIZE,
            ),
    ensures
        block_stage(bs, ks).0 == bs,
        block_stage(bs, ks).1 == ks,
    decreases bs.len(),
{
    if bs.len() == 0 {
        assert(block_stage(bs, ks).0 =~= bs);
    } else {
        let sub = bs.drop_last();
        assert forall|i: int, k: int|
            0 <= i < sub.len() && 0 <= k < ks.len() implies !overlaps(
            #[trigger] sub[i],
            (#[trigger] ks[k]).position,
            BLOCK_SIZE,
            BLOCK_SIZE,
        ) by {
            assert(sub[i] == bs[i]);
        }
        lemma_block_stage_no_hit(sub, ks);
        let b = bs.last();
        lemma_first_hit_props(b, ks, 0);
        match first_hit_from(b, ks, 0) {
            Some(h) => {
                assert(overlaps(b, ks[h].position, BLOCK_SIZE, BLOCK_SIZE));
                assert(false);
            },
            None => {},
        }
        assert(block_stage(bs, ks).0 =~= bs);
    }
}

/// Idle tick idempotence: stepping a well-formed world at rest with no
/// intents returns the same snapshot.
pub proof fn lemma_step_idle_identity(w: WorldView)
    requires
        wf(w),
        resting_world(w),
    ensures
        spec_step(w, Seq::<PlayerIntent>::empty()) == w,
{
    let e = Seq::<PlayerIntent>::empty();
    let moved = apply_intents(w.paddles, w.balls, e);
    assert(moved.0 == w.paddles && moved.1 == w.balls);
    let paddles = clamp_paddles(moved.0);
    assert forall|j: int| 0 <= j < w.paddles.len() implies #[trigger] paddles[j] == w.paddles[
        j
    ] by {
        assert(paddle_wf(w.paddles[j]) || j >= 2);
        if j < 2 {
            assert(paddle_wf(w.paddles[j]));
        }
    }
    assert(paddles =~= w.paddles);
    let reflected = moved.1.map_values(reflect_fn());
    assert forall|i: int| 0 <= i < w.balls.len() implies #[trigger] reflected[i] == w.balls[
        i
    ] by {
        assert(w.balls[i].velocity == Vec2 { x: 0, y: 0 });
    }
    assert(reflected =~= w.balls);
    assert forall|i: int| 0 <= i < w.balls.len() implies in_play_fn()(
        #[trigger] w.balls[i],
    ) by {}
    lemma_filter_all(w.balls, in_play_fn());
    let surviving = reflected.filter(in_play_fn());
    assert(surviving == w.balls);
    let after_paddles = surviving.map_values(collide_fn(paddles));
    assert forall|i: int| 0 <= i < w.balls.len() implies #[trigger] after_paddles[i]
        == w.balls[i] by {
        let b = w.balls[i];
        assert(!overlaps(b, w.paddles[0].position, PADDLE_WIDTH, PADDLE_HEIGHT));
        assert(!overlaps(b, w.paddles[1].position, PADDLE_WIDTH, PADDLE_HEIGHT));
        lemma_paddle_collide_props(b, paddles[0]);
        lemma_paddle_collide_props(paddle_collide(b, paddles[0]), paddles[1]);
    }
    assert(after_paddles =~= w.balls);
    lemma_block_stage_no_hit(w.balls, w.blocks);
    let hit = block_stage(after_paddles, w.blocks);
    assert(hit.0 == w.balls && hit.1 == w.blocks);
    assert forall|k: int| 0 <= k < w.blocks.len() implies live_fn()(
        #[trigger] w.blocks[k],
    ) by {
        assert(block_wf(w.blocks[k]));
    }
    lemma_filter_all(w.blocks, live_fn());
    let balls2 = hit.0.map_values(integrate_fn());
    assert forall|i: int| 0 <= i < w.balls.len() implies #[trigger] balls2[i] == w.balls[
        i
    ] by {
        assert(!w.balls[i].is_free);
    }
    assert(balls2 =~= w.balls);
    assert(spec_step(w, e) =~= w);
}

/// After a step of a well-formed world, no surviving ball's horizontal
/// extent leaves the playfield by more than the fixed margin the invariant
/// names, and its vertical extent stays within the matching margin. (The
/// reflection rule inverts velocity without clamping position, so a ball at
/// a wall can overshoot it by up to one tick's displacement; the margin, not
/// a mere epsilon, is the bound that actually holds.)
pub proof fn lemma_balls_stay_near_field(w: WorldView, intents: Seq<PlayerIntent>)
    requires
        wf(w),
    ensures
        forall|i: int|
            0 <= i < spec_step(w, intents).balls.len() ==> ({
                let b = #[trigger] spec_step(w, intents).balls[i];
                BALL_X_MIN <= b.position.x <= BALL_X_MAX && BALL_Y_MIN <= b.position.y
                    <= BALL_Y_MAX
            }),
{
    lemma_step_preserves_wf(w, intents);
    assert forall|i: int|
        0 <= i < spec_step(w, intents).balls.len() implies ({
        let b = #[trigger] spec_step(w, intents).balls[i];
        BALL_X_MIN <= b.position.x <= BALL_X_MAX && BALL_Y_MIN <= b.position.y
            <= BALL_Y_MAX
    }) by {
        assert(ball_wf(spec_step(w, intents).balls[i]));
    }
}

/// `b` descends from a block of `old`: same position, no more hit points.
pub open spec fn block_descends(b: Block, old: Seq<Block>) -> bool {
    exists|j: int|
        #![trigger old[j]]
        0 <= j < old.len() && b.position == old[j].position && b.hits_life <= old[
            j
        ].hits_life
}

/// Every block of `new` descends from a block of `old` at the same position
/// with at least as many hit points. In particular a position absent from
/// `old` is absent from `new`: blocks never reappear.
pub open spec fn blocks_come_from(new: Seq<Block>, old: Seq<Block>) -> bool {
    forall|i: int| 0 <= i < new.len() ==> block_descends(#[trigger] new[i], old)
}

/// Monotonic block removal: every block of the next snapshot comes from a
/// block of the previous one at the same position with at least as many hit
/// points; a position absent from a snapshot therefore never reappears.
pub proof fn lemma_blocks_monotone(w: WorldView, intents: Seq<PlayerIntent>)
    ensures
        blocks_come_from(spec_step(w, intents).blocks, w.blocks),
{
    let moved = apply_intents(w.paddles, w.balls, intents);
    let paddles = clamp_paddles(moved.0);
    let reflected = moved.1.map_values(reflect_fn());
    let surviving = reflected.filter(in_play_fn());
    let after_paddles = surviving.map_values(collide_fn(paddles));
    let hit = block_stage(after_paddles, w.blocks);
    lemma_block_stage_shape(after_paddles, w.blocks);
    lemma_filter_sub(hit.1, live_fn());
    let blocks2 = spec_step(w, intents).blocks;
    assert(blocks2 == hit.1.filter(live_fn()));
    assert forall|i: int| 0 <= i < blocks2.len() implies block_descends(
        #[trigger] blocks2[i],
        w.blocks,
    ) by {
        assert(blocks2[i] == hit.1.filter(live_fn())[i]);
        let j = choose|j: int| #![trigger hit.1[j]] 0 <= j < hit.1.len() && hit.1.filter(
            live_fn(),
        )[i] == hit.1[j];
        assert(0 <= j < w.blocks.len() && blocks2[i].position == w.blocks[j].position
            && blocks2[i].hits_life <= w.blocks[j].hits_life);
    }
}

/// Ball removal is permanent: a step never invents a ball, so a player id
/// with no ball in a snapshot has none in any later snapshot either.
pub proof fn lemma_ball_removal_permanent(w: WorldView, intents: Seq<PlayerIntent>, id: u8)
    requires
        w.paddles.len() == 2,
        forall|j: int| 0 <= j < w.balls.len() ==> (#[trigger] w.balls[j]).id != id,
    ensures
        forall|i: int|
            0 <= i < spec_step(w, intents).balls.len() ==> (#[trigger] spec_step(
                w,
                intents,
            ).balls[i]).id != id,
        spec_step(w, intents).balls.len() <= w.balls.len(),
{
    let moved = apply_intents(w.paddles, w.balls, intents);
    lemma_apply_intents_shape(w.paddles, w.balls, intents);
    let paddles = clamp_paddles(moved.0);
    let reflected = moved.1.map_values(reflect_fn());
    let surviving = reflected.filter(in_play_fn());
    lemma_filter_sub(reflected, in_play_fn());
    reflected.lemma_filter_len(in_play_fn());
    let after_paddles = surviving.map_values(collide_fn(paddles));
    let hit = block_stage(after_paddles, w.blocks);
    lemma_block_stage_shape(after_paddles, w.blocks);
    let balls2 = spec_step(w, intents).balls;
    assert forall|i: int| 0 <= i < balls2.len() implies (#[trigger] balls2[i]).id != id by {
        let j = choose|j: int| #![trigger reflected[j]] 0 <= j < reflected.len()
            && reflected.filter(in_play_fn())[i] == reflected[j];
        assert(intent_ball_rel(w.balls[j], moved.1[j]));
        assert(surviving[i] == reflect_wall(moved.1[j]));
        let b5 = paddle_collide_both(surviving[i], paddles);
        lemma_paddle_collide_props(surviving[i], paddles[0]);
        lemma_paddle_collide_props(paddle_collide(surviving[i], paddles[0]), paddles[1]);
        assert(balls2[i] == integrate_ball(block_bounce_outcome(b5, w.blocks)));
    }
}

/// A whole run: the world after a sequence of ticks, each tick carrying the
/// intents drained for it.
pub open spec fn run_ticks(w: WorldView, ticks: Seq<Seq<PlayerIntent>>) -> WorldView
    decreases ticks.len(),
{
    if ticks.len() == 0 {
        w
    } else {
        spec_step(run_ticks(w, ticks.drop_last()), ticks.last())
    }
}

/// Well-formedness holds after any run of ticks, whatever intents arrive.
pub proof fn lemma_run_preserves_wf(w: WorldView, ticks: Seq<Seq<PlayerIntent>>)
    requires
        wf(w),
    ensures
        wf(run_ticks(w, ticks)),
    decreases ticks.len(),
{
    if ticks.len() > 0 {
        lemma_run_preserves_wf(w, ticks.drop_last());
        lemma_step_preserves_wf(run_ticks(w, ticks.drop_last()), ticks.last());
    }
}

/// Block descent composes across snapshots.
proof fn lemma_blocks_come_from_trans(a: Seq<Block>, b: Seq<Block>, c: Seq<Block>)
    requires
        blocks_come_from(c, b),
        blocks_come_from(b, a),
    ensures
        blocks_come_from(c, a),
{
    assert forall|i: int| 0 <= i < c.len() implies block_descends(#[trigger] c[i], a) by {
        assert(block_descends(c[i], b));
        let j = choose|j: int|
            #![trigger b[j]]
            0 <= j < b.len() && c[i].position == b[j].position && c[i].hits_life <= b[
                j
            ].hits_life;
        assert(block_descends(b[j], a));
        let k = choose|k: int|
            #![trigger a[k]]
            0 <= k < a.len() && b[j].position == a[k].position && b[j].hits_life <= a[
                k
            ].hits_life;
        assert(0 <= k < a.len() && c[i].position == a[k].position && c[i].hits_life
            <= a[k].hits_life);
    }
}

/// Over any whole run: every surviving block descends from a block of the
/// starting snapshot, so a position absent from any snapshot stays absent
/// from every later one, and no hit count ever recovers.
pub proof fn lemma_blocks_monotone_run(w: WorldView, ticks: Seq<Seq<PlayerIntent>>)
    ensures
        blocks_come_from(run_ticks(w, ticks).blocks, w.blocks),
    decreases ticks.len(),
{
    if ticks.len() == 0 {
        assert forall|i: int| 0 <= i < w.blocks.len() implies block_descends(
            #[trigger] w.blocks[i],
            w.blocks,
        ) by {
            assert(0 <= i < w.blocks.len() && w.blocks[i].position == w.blocks[i].position
                && w.blocks[i].hits_life <= w.blocks[i].hits_life);
        }
    } else {
        let prev = run_ticks(w, ticks.drop_last());
        lemma_blocks_monotone_run(w, ticks.drop_last());
        lemma_blocks_monotone(prev, ticks.last());
        lemma_blocks_come_from_trans(w.blocks, prev.blocks, run_ticks(w, ticks).blocks);
    }
}

/// Over any whole run: a player id that owns no ball never regains one —
/// a dropped ball is gone from every later snapshot.
pub proof fn lemma_ball_removal_permanent_run(
    w: WorldView,
    ticks: Seq<Seq<PlayerIntent>>,
    id: u8,
)
    requires
        w.paddles.len() == 2,
        forall|j: int| 0 <= j < w.balls.len() ==> (#[trigger] w.balls[j]).id != id,
    ensures
        run_ticks(w, ticks).paddles.len() == 2,
        forall|i: int|
            0 <= i < run_ticks(w, ticks).balls.len() ==> (#[trigger] run_ticks(
                w,
                ticks,
            ).balls[i]).id != id,
    decreases ticks.len(),
{
    if ticks.len() > 0 {
        lemma_ball_removal_permanent_run(w, ticks.drop_last(), id);
        let prev = run_ticks(w, ticks.drop_last());
        lemma_ball_removal_permanent(prev, ticks.last(), id);
        lemma_apply_intents_shape(prev.paddles, prev.balls, ticks.last());
    }
}

/// A run in which every tick drains exactly one move-right intent from one
/// player.
pub open spec fn move_right_ticks(p: u8, n: nat) -> Seq<Seq<PlayerIntent>> {
    Seq::new(n, |i: int| seq![PlayerIntent { player_id: p, key_code: KEY_MOVE_RIGHT }])
}

/// Held move-right input accumulates exactly one paddle step per tick until
/// the right clamp: after `n` such ticks the paddle's center is
/// `min(x + n * PADDLE_STEP, PADDLE_X_MAX)`. (One second of ticks at paddle
/// speed 300 therefore moves it by up to 300 units, clamped at the wall.)
pub proof fn lemma_move_right_accumulates(w: WorldView, j: int, n: nat)
    requires
        wf(w),
        0 <= j < 2,
    ensures
        ({
            let p = w.paddles[j].id;
            let r = run_ticks(w, move_right_ticks(p, n));
            let goal = w.paddles[j].position.x + n * PADDLE_STEP;
            &&& wf(r)
            &&& r.paddles.len() == 2
            &&& r.paddles[j].id == p
            &&& r.paddles[j].position.x == (if goal >= PADDLE_X_MAX {
                PADDLE_X_MAX as int
            } else {
                goal
            })
        }),
    decreases n,
{
    let p = w.paddles[j].id;
    let ticks = move_right_ticks(p, n);
    if n == 0 {
        assert(ticks =~= Seq::<Seq<PlayerIntent>>::empty());
        assert(paddle_wf(w.paddles[j]));
    } else {
        lemma_move_right_accumulates(w, j, (n - 1) as nat);
        let ticks_prev = move_right_ticks(p, (n - 1) as nat);
        assert(ticks.drop_last() =~= ticks_prev);
        let e = PlayerIntent { player_id: p, key_code: KEY_MOVE_RIGHT };
        assert(ticks.last() == seq![e]);
        let prev = run_ticks(w, ticks_prev);
        let x_prev = prev.paddles[j].position.x;
        assert(paddle_wf(prev.paddles[j]));
        lemma_step_preserves_wf(prev, seq![e]);
        let moved = apply_intents(prev.paddles, prev.balls, seq![e]);
        assert(seq![e].drop_last() =~= Seq::<PlayerIntent>::empty());
        assert(apply_intents(prev.paddles, prev.balls, Seq::<PlayerIntent>::empty()) == (
        prev.paddles,
        prev.balls,
        ));
        reveal_with_fuel(find_paddle_from, 4);
        assert(find_paddle_from(prev.paddles, p, 0) == Some(j));
        assert(moved.0 == prev.paddles.update(j, move_paddle(prev.paddles[j], KEY_MOVE_RIGHT)));
        assert(moved.0[j].position.x == x_prev + PADDLE_STEP);
        assert(moved.0[j].id == p);
        let stepped = spec_step(prev, seq![e]);
        assert(stepped.paddles[j] == clamp_paddle(moved.0[j]));
        assert(run_ticks(w, ticks) == stepped);
    }
}

/// Collision tie-break: a ball overlapping two blocks hits only the first of
/// them in sequence order; the block stage for that ball decrements exactly
/// the least overlapping index, and any later overlapped block is untouched.
pub proof fn lemma_block_collision_tie_break(b: Ball, ks: Seq<Block>, j1: int, j2: int)
    requires
        0 <= j1 < j2 < ks.len(),
        overlaps(b, ks[j1].position, BLOCK_SIZE, BLOCK_SIZE),
        overlaps(b, ks[j2].position, BLOCK_SIZE, BLOCK_SIZE),
    ensures
        first_hit_from(b, ks, 0) is Some,
        first_hit_from(b, ks, 0).unwrap() <= j1,
        block_stage(seq![b], ks).1 == ks.update(
            first_hit_from(b, ks, 0).unwrap(),
            hit_block(ks[first_hit_from(b, ks, 0).unwrap()]),
        ),
        block_stage(seq![b], ks).1[j2] == ks[j2],
{
    lemma_first_hit_props(b, ks, 0);
    match first_hit_from(b, ks, 0) {
        None => {
            assert(!overlaps(b, ks[j1].position, BLOCK_SIZE, BLOCK_SIZE));
        },
        Some(h) => {
            if h > j1 {
                assert(!overlaps(b, ks[j1].position, BLOCK_SIZE, BLOCK_SIZE));
            }
            let s = seq![b];
            assert(s.drop_last() =~= Seq::<Ball>::empty());
            assert(block_stage(s.drop_last(), ks) == (s.drop_last(), ks));
            assert(s.last() == b);
            assert(block_stage(s, ks).1 == ks.update(h, hit_block(ks[h])));
        },
    }
}

} // verus!
