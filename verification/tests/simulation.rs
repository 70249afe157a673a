use blockpong::constants::BALL_RADIUS;
use blockpong::constants::KEY_LAUNCH;
use blockpong::constants::KEY_MOVE_LEFT;
use blockpong::constants::KEY_MOVE_RIGHT;
use blockpong::constants::PADDLE_X_MAX;
use blockpong::constants::PADDLE_X_MIN;
use blockpong::constants::SCALE;
use blockpong::constants::WORLD_HEIGHT;
use blockpong::constants::WORLD_WIDTH;
use blockpong::physics::is_ball_collided_with_object;
use blockpong::physics::is_ball_hit_top_or_bottom_of_block;
use blockpong::physics::step;
use blockpong::world::check_well_formed;
use blockpong::world::create_world;
use blockpong::world::create_world_data;
use blockpong::world::rotate_180_around_world_center;
use blockpong::world::Ball;
use blockpong::world::Block;
use blockpong::world::Paddle;
use blockpong::world::PlayerIntent;
use blockpong::world::Vec2;
use blockpong::world::WorldData;

fn standard_paddles() -> [Paddle; 2] {
    [
        Paddle { id: 1, position: Vec2 { x: 960 * SCALE, y: 20 * SCALE } },
        Paddle { id: 0, position: Vec2 { x: 960 * SCALE, y: 1060 * SCALE } },
    ]
}

fn intent(player_id: u8, key_code: u32) -> PlayerIntent {
    PlayerIntent { player_id, key_code }
}

#[test]
fn initial_world_layout() {
    let w = create_world_data();
    assert_eq!(w.blocks.len(), 5 * 38);
    // 38 columns of 50-unit blocks span 1900 units, centered: 10 units of
    // margin at each wall.
    assert_eq!(w.blocks[0].position, Vec2 { x: 35 * SCALE, y: 440 * SCALE });
    assert_eq!(w.blocks[0].hits_life, 1);
    assert_eq!(w.blocks[37].position, Vec2 { x: 1885 * SCALE, y: 440 * SCALE });
    assert_eq!(w.blocks[39].position, Vec2 { x: 85 * SCALE, y: 490 * SCALE });
    // Every block's extent stays inside the playfield.
    for k in &w.blocks {
        assert!(k.position.x - 25 * SCALE >= 0);
        assert!(k.position.x + 25 * SCALE <= WORLD_WIDTH);
    }
    assert_eq!(w.paddles[0].id, 1);
    assert_eq!(w.paddles[0].position, Vec2 { x: 960 * SCALE, y: 20 * SCALE });
    assert_eq!(w.paddles[1].id, 0);
    assert_eq!(w.paddles[1].position, Vec2 { x: 960 * SCALE, y: 1060 * SCALE });
    assert_eq!(w.balls.len(), 2);
    assert_eq!(w.balls[0].id, 1);
    assert_eq!(w.balls[0].position, Vec2 { x: 960 * SCALE, y: 40 * SCALE });
    assert_eq!(w.balls[1].id, 0);
    assert_eq!(w.balls[1].position, Vec2 { x: 960 * SCALE, y: 1040 * SCALE });
    for b in &w.balls {
        assert!(!b.is_free);
        assert_eq!(b.velocity, Vec2 { x: 0, y: 0 });
    }
    assert!(check_well_formed(&w));
}

#[test]
fn well_formed_rejects_stray_paddle() {
    let mut w = create_world_data();
    w.paddles[0].position.x = PADDLE_X_MAX + 1;
    assert!(!check_well_formed(&w));
}

#[test]
fn idle_tick_changes_nothing() {
    let w = create_world_data();
    let before = w.clone();
    let after = step(&w, &Vec::new());
    assert_eq!(after, before);
}

#[test]
fn paddles_stay_exactly_two_and_clamped() {
    let mut w = create_world_data();
    // Hammer both paddles outward for plenty of ticks.
    for _ in 0..400 {
        let intents = vec![intent(0, KEY_MOVE_RIGHT), intent(1, KEY_MOVE_LEFT)];
        w = step(&w, &intents);
        assert_eq!(w.paddles.len(), 2);
        for p in &w.paddles {
            assert!(p.position.x >= PADDLE_X_MIN);
            assert!(p.position.x <= PADDLE_X_MAX);
        }
    }
    // Player 0 owns the bottom paddle (index 1) and hit the right wall.
    assert_eq!(w.paddles[1].position.x, PADDLE_X_MAX);
    assert_eq!(w.paddles[0].position.x, PADDLE_X_MIN);
}

#[test]
fn one_second_of_move_right() {
    // paddle_speed 300 for one second of ticks: 300 units to the right.
    let mut w = create_world_data();
    for _ in 0..60 {
        let intents = vec![intent(0, KEY_MOVE_RIGHT)];
        w = step(&w, &intents);
    }
    assert_eq!(w.paddles[1].position.x, (960 + 300) * SCALE);
}

#[test]
fn unknown_key_and_unknown_player_are_ignored() {
    let w = create_world_data();
    let before = w.clone();
    let intents = vec![intent(0, 9999), intent(7, KEY_MOVE_RIGHT)];
    let after = step(&w, &intents);
    assert_eq!(after, before);
}

#[test]
fn launch_sets_ball_free_and_upward() {
    let w = create_world_data();
    let intents = vec![intent(0, KEY_LAUNCH)];
    let after = step(&w, &intents);
    let ball0 = after.balls.iter().find(|b| b.id == 0).unwrap();
    assert!(ball0.is_free);
    assert_eq!(ball0.velocity, Vec2 { x: 0, y: -SCALE });
    // It moved up by 5 units this very tick.
    assert_eq!(ball0.position.y, 1035 * SCALE);
    let ball1 = after.balls.iter().find(|b| b.id == 1).unwrap();
    assert!(!ball1.is_free);
}

#[test]
fn ball_leaving_the_top_is_removed() {
    let w = WorldData {
        blocks: Vec::new(),
        paddles: standard_paddles(),
        balls: vec![Ball {
            id: 0,
            position: Vec2 { x: 960 * SCALE, y: 0 },
            velocity: Vec2 { x: 0, y: -SCALE },
            is_free: true,
        }],
    };
    assert!(check_well_formed(&w));
    let after = step(&w, &Vec::new());
    assert!(after.balls.is_empty());
    // And it never comes back.
    let later = step(&after, &Vec::new());
    assert!(later.balls.is_empty());
}

#[test]
fn launched_ball_breaks_the_block_above() {
    // One centered row of three blocks (hits 1): centers at x = 910, 960,
    // 1010, so the middle one sits right above player 0's ball.
    let mut w = create_world(1, 3, 1);
    assert_eq!(w.blocks[1].position, Vec2 { x: 960 * SCALE, y: 440 * SCALE });
    w = step(&w, &vec![intent(0, KEY_LAUNCH)]);
    for _ in 0..120 {
        w = step(&w, &Vec::new());
    }
    // The middle block is gone for good; its neighbours survive.
    assert_eq!(w.blocks.len(), 2);
    assert!(w.blocks.iter().all(|k| k.position.x != 960 * SCALE));
    assert!(w.blocks.iter().all(|k| k.hits_life == 1));
    // The launched ball's vertical velocity flipped exactly once: it now
    // falls; the other ball is still attached to its paddle.
    let ball0 = w.balls.iter().find(|b| b.id == 0).unwrap();
    assert_eq!(ball0.velocity, Vec2 { x: 0, y: SCALE });
    assert!(w.balls.iter().any(|b| b.id == 1 && !b.is_free));
}

#[test]
fn overlapping_two_blocks_hits_only_the_first() {
    let blocks = vec![
        Block { position: Vec2 { x: 960 * SCALE, y: 500 * SCALE }, hits_life: 1 },
        Block { position: Vec2 { x: 980 * SCALE, y: 500 * SCALE }, hits_life: 1 },
    ];
    let w = WorldData {
        blocks,
        paddles: standard_paddles(),
        balls: vec![Ball {
            id: 0,
            position: Vec2 { x: 970 * SCALE, y: 500 * SCALE },
            velocity: Vec2 { x: 0, y: -SCALE },
            is_free: true,
        }],
    };
    assert!(check_well_formed(&w));
    let after = step(&w, &Vec::new());
    // Only the first block in sequence order was decremented (and pruned).
    assert_eq!(after.blocks.len(), 1);
    assert_eq!(after.blocks[0].position, Vec2 { x: 980 * SCALE, y: 500 * SCALE });
    assert_eq!(after.blocks[0].hits_life, 1);
}

#[test]
fn block_hits_decrease_one_per_tick_of_contact() {
    let blocks = vec![Block {
        position: Vec2 { x: 960 * SCALE, y: 500 * SCALE },
        hits_life: 3,
    }];
    let mut w = WorldData {
        blocks,
        paddles: standard_paddles(),
        balls: vec![Ball {
            id: 0,
            position: Vec2 { x: 960 * SCALE, y: 510 * SCALE },
            velocity: Vec2 { x: 0, y: SCALE },
            is_free: false,
        }],
    };
    assert!(check_well_formed(&w));
    let mut hits = 3;
    for _ in 0..2 {
        w = step(&w, &Vec::new());
        assert_eq!(w.blocks.len(), 1);
        assert!(w.blocks[0].hits_life < hits);
        hits = w.blocks[0].hits_life;
    }
}

#[test]
fn paddle_deflects_by_center_offset() {
    let w = WorldData {
        blocks: Vec::new(),
        paddles: standard_paddles(),
        balls: vec![Ball {
            id: 0,
            position: Vec2 { x: 1000 * SCALE, y: 1045 * SCALE },
            velocity: Vec2 { x: 0, y: SCALE },
            is_free: true,
        }],
    };
    assert!(check_well_formed(&w));
    let after = step(&w, &Vec::new());
    let b = &after.balls[0];
    // Offset 40 units from the paddle center, half paddle width 100 units:
    // deflect factor 0.4 (400 milli); vertical velocity inverted.
    assert_eq!(b.velocity, Vec2 { x: 400, y: -SCALE });
    assert_eq!(b.position, Vec2 { x: 1000 * SCALE + 2000, y: 1045 * SCALE - 5000 });
}

#[test]
fn wall_reflection_flips_horizontal_velocity() {
    let w = WorldData {
        blocks: Vec::new(),
        paddles: standard_paddles(),
        balls: vec![Ball {
            id: 0,
            position: Vec2 { x: 5 * SCALE, y: 500 * SCALE },
            velocity: Vec2 { x: -500, y: -SCALE },
            is_free: true,
        }],
    };
    assert!(check_well_formed(&w));
    let after = step(&w, &Vec::new());
    let b = &after.balls[0];
    assert_eq!(b.velocity.x, 500);
    assert_eq!(b.position.x, 5 * SCALE + 2500);
    // The right wall reflects too, with equality included.
    let w2 = WorldData {
        blocks: Vec::new(),
        paddles: standard_paddles(),
        balls: vec![Ball {
            id: 0,
            position: Vec2 { x: WORLD_WIDTH - BALL_RADIUS, y: 500 * SCALE },
            velocity: Vec2 { x: 700, y: -SCALE },
            is_free: true,
        }],
    };
    let after2 = step(&w2, &Vec::new());
    assert_eq!(after2.balls[0].velocity.x, -700);
}

#[test]
fn collision_helpers_match_geometry() {
    let ball = Ball {
        id: 0,
        position: Vec2 { x: 100 * SCALE, y: 100 * SCALE },
        velocity: Vec2 { x: 0, y: 0 },
        is_free: false,
    };
    // A 50x50 box centered 30 units away horizontally overlaps the
    // 10-radius ball (30 < 25 + 10); one 40 units away does not.
    assert!(is_ball_collided_with_object(
        &ball,
        Vec2 { x: 130 * SCALE, y: 100 * SCALE },
        50 * SCALE,
        50 * SCALE,
    ));
    assert!(!is_ball_collided_with_object(
        &ball,
        Vec2 { x: 140 * SCALE, y: 100 * SCALE },
        50 * SCALE,
        50 * SCALE,
    ));
    let block = Block { position: Vec2 { x: 100 * SCALE, y: 120 * SCALE }, hits_life: 1 };
    assert!(is_ball_hit_top_or_bottom_of_block(&ball, &block));
    let side = Block { position: Vec2 { x: 130 * SCALE, y: 100 * SCALE }, hits_life: 1 };
    assert!(!is_ball_hit_top_or_bottom_of_block(&ball, &side));
}

#[test]
fn custom_grid_dimensions() {
    let w = create_world(1, 3, 2);
    assert_eq!(w.blocks.len(), 3);
    assert!(w.blocks.iter().all(|k| k.hits_life == 2));
    // Three 50-unit columns span 150 units, centered: 885 units of margin.
    assert_eq!(w.blocks[0].position, Vec2 { x: 910 * SCALE, y: 440 * SCALE });
    assert_eq!(w.blocks[2].position, Vec2 { x: 1010 * SCALE, y: 440 * SCALE });
    assert!(check_well_formed(&w));
}

#[test]
fn rotate_mirrors_around_center() {
    let r = rotate_180_around_world_center(Vec2 { x: 25 * SCALE, y: 440 * SCALE });
    assert_eq!(r, Vec2 { x: WORLD_WIDTH - 25 * SCALE, y: WORLD_HEIGHT - 440 * SCALE });
    let center = rotate_180_around_world_center(Vec2 { x: 960 * SCALE, y: 540 * SCALE });
    assert_eq!(center, Vec2 { x: 960 * SCALE, y: 540 * SCALE });
}
