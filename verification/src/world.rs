//! World model: pure data plus its invariants, and the initial layout.

use vstd::prelude::*;

use crate::constants::BALL_RADIUS;
use crate::constants::BALL_STEP_FACTOR;
use crate::constants::BALL_VEL_X_BOUND;
use crate::constants::BALL_VEL_X_MIN;
use crate::constants::BALL_VEL_Y_BOUND;
use crate::constants::BALL_VEL_Y_MIN;
use crate::constants::BALL_X_MAX;
use crate::constants::BALL_X_MIN;
use crate::constants::BALL_Y_MAX;
use crate::constants::BALL_Y_MIN;
use crate::constants::BLOCKS_IN_ROW;
use crate::constants::BLOCK_HITS_LIFE;
use crate::constants::BLOCK_ROWS;
use crate::constants::BLOCK_SIZE;
use crate::constants::COORD_LIMIT;
use crate::constants::COORD_LIMIT_MIN;
use crate::constants::HALF_BLOCK_SIZE;
use crate::constants::HALF_PADDLE_HEIGHT;
use crate::constants::MAX_BLOCK_ROWS;
use crate::constants::PADDLE_HEIGHT;
use crate::constants::PADDLE_X_MAX;
use crate::constants::PADDLE_X_MIN;
use crate::constants::SCALE;
use crate::constants::WORLD_HEIGHT;
use crate::constants::WORLD_WIDTH;

verus! {

/// A 2-dimensional fixed-point vector (milli-units).
#[derive(Clone, Copy, PartialEq, Eq, Structural, Debug)]
pub struct Vec2 {
    pub x: i64,
    pub y: i64,
}

/// A destructible block. It is removed from the world once `hits_life`
/// reaches zero.
#[derive(Clone, Copy, PartialEq, Eq, Structural, Debug)]
pub struct Block {
    pub position: Vec2,
    pub hits_life: usize,
}

/// One player's paddle; `position` is its center.
#[derive(Clone, Copy, PartialEq, Eq, Structural, Debug)]
pub struct Paddle {
    pub id: u8,
    pub position: Vec2,
}

/// A ball. While `is_free` is false it sits attached to its paddle and does
/// not move; launching sets `is_free` and a straight-up velocity.
#[derive(Clone, Copy, PartialEq, Eq, Structural, Debug)]
pub struct Ball {
    pub id: u8,
    pub position: Vec2,
    pub velocity: Vec2,
    pub is_free: bool,
}

/// A single discrete input event from one player.
#[derive(Clone, Copy, PartialEq, Eq, Structural, Debug)]
pub struct PlayerIntent {
    pub player_id: u8,
    pub key_code: u32,
}

/// A complete snapshot of the simulated world at one tick.
#[derive(PartialEq, Debug)]
pub struct WorldData {
    pub blocks: Vec<Block>,
    pub paddles: [Paddle; 2],
    pub balls: Vec<Ball>,
}

/// The mathematical model of a snapshot: plain sequences of entities.
#[verifier::ext_equal]
pub struct WorldView {
    pub blocks: Seq<Block>,
    pub paddles: Seq<Paddle>,
    pub balls: Seq<Ball>,
}

impl View for WorldData {
    type V = WorldView;

    open spec fn view(&self) -> WorldView {
        WorldView { blocks: self.blocks@, paddles: self.paddles@, balls: self.balls@ }
    }
}

/// A paddle's center stays clamped to the playfield and its height never
/// changes.
pub open spec fn paddle_wf(p: Paddle) -> bool {
    &&& PADDLE_X_MIN <= p.position.x <= PADDLE_X_MAX
    &&& 0 <= p.position.y <= WORLD_HEIGHT
}

/// There are exactly two paddles, one per player id in {0, 1}.
pub open spec fn paddles_wf(ps: Seq<Paddle>) -> bool {
    &&& ps.len() == 2
    &&& ps[0].id <= 1
    &&& ps[1].id <= 1
    &&& ps[0].id != ps[1].id
    &&& paddle_wf(ps[0])
    &&& paddle_wf(ps[1])
}

/// A live block's whole extent sits inside the playfield and it has at
/// least one hit left.
pub open spec fn block_wf(k: Block) -> bool {
    &&& HALF_BLOCK_SIZE <= k.position.x <= WORLD_WIDTH - HALF_BLOCK_SIZE
    &&& HALF_BLOCK_SIZE <= k.position.y <= WORLD_HEIGHT - HALF_BLOCK_SIZE
    &&& 1 <= k.hits_life
}

/// A ball's velocity is bounded (a deflect is bounded by the paddle overlap
/// geometry, everything else only flips signs) and its position can leave
/// the playfield by at most a fixed margin. For a launched ball the position
/// one step backwards along its velocity is inside the same margin; that is
/// what makes the bound inductive across ticks.
pub open spec fn ball_wf(b: Ball) -> bool {
    &&& BALL_VEL_X_MIN <= b.velocity.x <= BALL_VEL_X_BOUND
    &&& BALL_VEL_Y_MIN <= b.velocity.y <= BALL_VEL_Y_BOUND
    &&& BALL_X_MIN <= b.position.x <= BALL_X_MAX
    &&& BALL_Y_MIN <= b.position.y <= BALL_Y_MAX
    &&& b.is_free ==> BALL_X_MIN <= b.position.x - BALL_STEP_FACTOR * b.velocity.x
        <= BALL_X_MAX
}

/// Well-formedness of a whole snapshot; established at initialization and
/// preserved by every physics step.
pub open spec fn wf(w: WorldView) -> bool {
    &&& paddles_wf(w.paddles)
    &&& forall|i: int| 0 <= i < w.blocks.len() ==> block_wf(#[trigger] w.blocks[i])
    &&& forall|i: int| 0 <= i < w.balls.len() ==> ball_wf(#[trigger] w.balls[i])
}

/// The block of the initial grid at a given row and column of a `cols`-wide
/// layout. Columns sit side by side at the block pitch and the whole row is
/// centered horizontally, so every block's extent stays inside the
/// playfield; rows are offset into the upper half of the field.
pub open spec fn grid_block(row: int, col: int, cols: int, hits: usize) -> Block {
    Block {
        position: Vec2 {
            x: ((WORLD_WIDTH - cols * BLOCK_SIZE) / 2 + col * BLOCK_SIZE
                + HALF_BLOCK_SIZE) as i64,
            y: (row * BLOCK_SIZE + HALF_BLOCK_SIZE + WORLD_HEIGHT / 2 - (2 * BLOCK_SIZE
                + HALF_BLOCK_SIZE)) as i64,
        },
        hits_life: hits,
    }
}

/// The two initial paddles: player 1 near the top edge, player 0 near the
/// bottom edge, both centered horizontally.
pub open spec fn initial_paddles() -> Seq<Paddle> {
    seq![
        Paddle { id: 1, position: Vec2 { x: (WORLD_WIDTH / 2) as i64, y: PADDLE_HEIGHT } },
        Paddle {
            id: 0,
            position: Vec2 {
                x: (WORLD_WIDTH / 2) as i64,
                y: (WORLD_HEIGHT - PADDLE_HEIGHT) as i64,
            },
        },
    ]
}

/// The two initial balls, one attached to each paddle, centered on it and
/// offset outward by the ball radius, not launched.
pub open spec fn initial_balls() -> Seq<Ball> {
    let top = Ball {
        id: 1,
        position: Vec2 {
            x: initial_paddles()[0].position.x,
            y: (initial_paddles()[0].position.y + HALF_PADDLE_HEIGHT + BALL_RADIUS) as i64,
        },
        velocity: Vec2 { x: 0, y: 0 },
        is_free: false,
    };
    let bottom = Ball {
        id: 0,
        position: Vec2 {
            x: initial_paddles()[1].position.x,
            y: (initial_paddles()[1].position.y - HALF_PADDLE_HEIGHT - BALL_RADIUS) as i64,
        },
        velocity: Vec2 { x: 0, y: 0 },
        is_free: false,
    };
    seq![top, bottom]
}

/// The initial world: a `rows x cols` grid of blocks with `hits` hit points
/// each, the two paddles, and one attached ball per paddle.
pub open spec fn initial_world(rows: usize, cols: usize, hits: usize) -> WorldView {
    WorldView {
        blocks: Seq::new(
            (rows * cols) as nat,
            |i: int| grid_block(i / cols as int, i % cols as int, cols as int, hits),
        ),
        paddles: initial_paddles(),
        balls: initial_balls(),
    }
}

/// Copy the elements of a vector into a fresh vector.
pub fn copy_vec<T: Copy>(v: &Vec<T>) -> (r: Vec<T>)
    ensures
        r@ == v@,
{
    let mut r: Vec<T> = Vec::new();
    let mut i: usize = 0;
    while i < v.len()
        invariant
            i <= v.len(),
            r@ =~= v@.take(i as int),
        decreases v.len() - i,
    {
        r.push(v[i]);
        i = i + 1;
    }
    assert(v@.take(v@.len() as int) =~= v@);
    r
}

impl Clone for WorldData {
    /// A deep copy: the clone has the same model as the original.
    fn clone(&self) -> (r: Self)
        ensures
            r@ == self@,
    {
        WorldData {
            blocks: copy_vec(&self.blocks),
            paddles: [self.paddles[0], self.paddles[1]],
            balls: copy_vec(&self.balls),
        }
    }
}

/// Build the initial world for a `rows x cols` block grid with `hits` hit
/// points per block. The grid caps keep every block inside the playfield.
pub fn create_world(rows: usize, cols: usize, hits: usize) -> (r: WorldData)
    requires
        rows <= MAX_BLOCK_ROWS,
        cols <= BLOCKS_IN_ROW,
        1 <= hits,
    ensures
        r@ == initial_world(rows, cols, hits),
        wf(r@),
{
    let cols_span: i64 = (cols as i64) * BLOCK_SIZE;
    let margin: i64 = (((WORLD_WIDTH - cols_span) as u64) / 2) as i64;
    proof {
        vstd::arithmetic::div_mod::lemma_fundamental_div_mod(
            WORLD_WIDTH - (cols as int) * BLOCK_SIZE,
            2,
        );
        assert(margin == (WORLD_WIDTH - (cols as int) * BLOCK_SIZE) / 2);
        assert(2 * margin <= WORLD_WIDTH - (cols as int) * BLOCK_SIZE);
    }
    let mut blocks: Vec<Block> = Vec::new();
    let mut row: usize = 0;
    while row < rows
        invariant
            rows <= MAX_BLOCK_ROWS,
            cols <= BLOCKS_IN_ROW,
            row <= rows,
            margin == (WORLD_WIDTH - (cols as int) * BLOCK_SIZE) / 2,
            0 <= margin,
            2 * margin <= WORLD_WIDTH - (cols as int) * BLOCK_SIZE,
            blocks@.len() == row * cols,
            forall|k: int|
                0 <= k < blocks@.len() ==> #[trigger] blocks@[k] == grid_block(
                    k / cols as int,
                    k % cols as int,
                    cols as int,
                    hits,
                ),
            1 <= hits,
            forall|k: int| 0 <= k < blocks@.len() ==> block_wf(#[trigger] blocks@[k]),
        decreases rows - row,
    {
        let mut col: usize = 0;
        while col < cols
            invariant
                rows <= MAX_BLOCK_ROWS,
                cols <= BLOCKS_IN_ROW,
                row < rows,
                col <= cols,
                margin == (WORLD_WIDTH - (cols as int) * BLOCK_SIZE) / 2,
                0 <= margin,
                2 * margin <= WORLD_WIDTH - (cols as int) * BLOCK_SIZE,
                blocks@.len() == row * cols + col,
                forall|k: int|
                    0 <= k < blocks@.len() ==> #[trigger] blocks@[k] == grid_block(
                        k / cols as int,
                        k % cols as int,
                        cols as int,
                        hits,
                    ),
                1 <= hits,
                forall|k: int| 0 <= k < blocks@.len() ==> block_wf(#[trigger] blocks@[k]),
            decreases cols - col,
        {
            proof {
                vstd::arithmetic::div_mod::lemma_fundamental_div_mod_converse(
                    (row * cols + col) as int,
                    cols as int,
                    row as int,
                    col as int,
                );
            }
            let block = Block {
                position: Vec2 {
                    x: margin + (col as i64) * BLOCK_SIZE + HALF_BLOCK_SIZE,
                    y: (row as i64) * BLOCK_SIZE + 440 * SCALE,
                },
                hits_life: hits,
            };
            proof {
                assert((col as int) * BLOCK_SIZE + BLOCK_SIZE <= (cols as int)
                    * BLOCK_SIZE) by (nonlinear_arith)
                    requires
                        (col as int) < (cols as int),
                ;
                assert(block_wf(block));
            }
            blocks.push(block);
            col = col + 1;
        }
        proof {
            assert((row + 1) * cols == row * cols + cols) by (nonlinear_arith);
        }
        row = row + 1;
    }

    let paddles: [Paddle; 2] = [
        Paddle { id: 1, position: Vec2 { x: 960 * SCALE, y: PADDLE_HEIGHT } },
        Paddle { id: 0, position: Vec2 { x: 960 * SCALE, y: WORLD_HEIGHT - PADDLE_HEIGHT } },
    ];

    let ball_top = Ball {
        id: 1,
        position: Vec2 {
            x: paddles[0].position.x,
            y: paddles[0].position.y + HALF_PADDLE_HEIGHT + BALL_RADIUS,
        },
        velocity: Vec2 { x: 0, y: 0 },
        is_free: false,
    };
    let ball_bottom = Ball {
        id: 0,
        position: Vec2 {
            x: paddles[1].position.x,
            y: paddles[1].position.y - HALF_PADDLE_HEIGHT - BALL_RADIUS,
        },
        velocity: Vec2 { x: 0, y: 0 },
        is_free: false,
    };
    let balls: Vec<Ball> = vec![ball_top, ball_bottom];

    let r = WorldData { blocks, paddles, balls };
    proof {
        assert(r@.blocks =~= initial_world(rows, cols, hits).blocks);
        assert(r@.paddles =~= initial_paddles());
        assert(r@.balls =~= initial_balls());
    }
    r
}

/// Build the default world layout.
pub fn create_world_data() -> (r: WorldData)
    ensures
        r@ == initial_world(BLOCK_ROWS, BLOCKS_IN_ROW, BLOCK_HITS_LIFE),
        wf(r@),
{
    create_world(BLOCK_ROWS, BLOCKS_IN_ROW, BLOCK_HITS_LIFE)
}

/// Rotate a point half a turn around the playfield center; the view helper a
/// client uses to draw player 1's mirrored perspective.
pub fn rotate_180_around_world_center(v: Vec2) -> (r: Vec2)
    requires
        COORD_LIMIT_MIN <= v.x <= COORD_LIMIT,
        COORD_LIMIT_MIN <= v.y <= COORD_LIMIT,
    ensures
        r.x == WORLD_WIDTH - v.x,
        r.y == WORLD_HEIGHT - v.y,
{
    Vec2 { x: WORLD_WIDTH - v.x, y: WORLD_HEIGHT - v.y }
}

/// Runtime check of the full well-formedness invariant, for callers outside
/// the verified world that need to validate a snapshot before simulating on
/// it.
pub fn check_well_formed(w: &WorldData) -> (r: bool)
    ensures
        r == wf(w@),
{
    let p0 = w.paddles[0];
    let p1 = w.paddles[1];
    let paddles_ok = p0.id <= 1 && p1.id <= 1 && p0.id != p1.id && paddle_ok(&p0) && paddle_ok(
        &p1,
    );
    if !paddles_ok {
        return false;
    }
    let mut i: usize = 0;
    while i < w.blocks.len()
        invariant
            i <= w.blocks@.len(),
            forall|k: int| 0 <= k < i ==> block_wf(#[trigger] w.blocks@[k]),
        decreases w.blocks@.len() - i,
    {
        let k = &w.blocks[i];
        if !(HALF_BLOCK_SIZE <= k.position.x && k.position.x <= WORLD_WIDTH - HALF_BLOCK_SIZE
            && HALF_BLOCK_SIZE <= k.position.y && k.position.y <= WORLD_HEIGHT
            - HALF_BLOCK_SIZE && 1 <= k.hits_life) {
            assert(!block_wf(w@.blocks[i as int]));
            return false;
        }
        i = i + 1;
    }
    let mut j: usize = 0;
    while j < w.balls.len()
        invariant
            j <= w.balls@.len(),
            forall|k: int| 0 <= k < j ==> ball_wf(#[trigger] w.balls@[k]),
        decreases w.balls@.len() - j,
    {
        if !ball_ok(&w.balls[j]) {
            assert(!ball_wf(w@.balls[j as int]));
            return false;
        }
        j = j + 1;
    }
    true
}

fn paddle_ok(p: &Paddle) -> (r: bool)
    ensures
        r == paddle_wf(*p),
{
    PADDLE_X_MIN <= p.position.x && p.position.x <= PADDLE_X_MAX && 0 <= p.position.y
        && p.position.y <= WORLD_HEIGHT
}

fn ball_ok(b: &Ball) -> (r: bool)
    ensures
        r == ball_wf(*b),
{
    let vel_ok = BALL_VEL_X_MIN <= b.velocity.x && b.velocity.x <= BALL_VEL_X_BOUND
        && BALL_VEL_Y_MIN <= b.velocity.y && b.velocity.y <= BALL_VEL_Y_BOUND;
    let pos_ok = BALL_X_MIN <= b.position.x && b.position.x <= BALL_X_MAX && BALL_Y_MIN
        <= b.position.y && b.position.y <= BALL_Y_MAX;
    if !(vel_ok && pos_ok) {
        return false;
    }
    if b.is_free {
        let back: i128 = b.position.x as i128 - (BALL_STEP_FACTOR as i128) * (
        b.velocity.x as i128);
        (BALL_X_MIN as i128) <= back && back <= (BALL_X_MAX as i128)
    } else {
        true
    }
}

} // verus!
