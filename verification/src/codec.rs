//! Snapshot wire codec: a self-describing big-endian binary encoding of a
//! snapshot, and the length-prefixed framing used on the stream.
//!
//! Layout of a snapshot payload: a 32-bit block count, the blocks (each two
//! coordinates and a 64-bit hit count), the two paddles (id byte and two
//! coordinates), a 32-bit ball count, the balls (id byte, four coordinates,
//! launch flag byte). Coordinates travel offset by `COORD_LIMIT`, as 64-bit
//! unsigned values. A frame is a 32-bit payload length followed by the
//! payload. Decoding rejects malformed or undersized payloads; framing
//! reports incomplete buffers so a caller can keep reading.

use vstd::prelude::*;

use crate::constants::COORD_LIMIT;
use crate::constants::COORD_LIMIT_MIN;
use crate::world::Ball;
use crate::world::Block;
use crate::world::Paddle;
use crate::world::Vec2;
use crate::world::wf;
use crate::world::WorldData;
use crate::world::WorldView;

verus! {

/// Largest value an encoded, offset coordinate can take (`2 * COORD_LIMIT`).
pub const COORD_SPAN: u64 = 2199023255552;

/// Most blocks or balls a snapshot on the wire may carry; keeps every frame
/// length well under the 32-bit length prefix.
pub const WIRE_MAX_ENTITIES: usize = 50000000;

/// Bytes of one encoded block.
pub const BLOCK_WIRE_BYTES: usize = 24;

/// Bytes of one encoded ball.
pub const BALL_WIRE_BYTES: usize = 34;

pub open spec fn enc_u64(v: u64) -> Seq<u8> {
    seq![
        ((v >> 56) & 0xff) as u8,
        ((v >> 48) & 0xff) as u8,
        ((v >> 40) & 0xff) as u8,
        ((v >> 32) & 0xff) as u8,
        ((v >> 24) & 0xff) as u8,
        ((v >> 16) & 0xff) as u8,
        ((v >> 8) & 0xff) as u8,
        (v & 0xff) as u8,
    ]
}

pub open spec fn dec_u64(s: Seq<u8>) -> u64 {
    (((s[0] as u64) << 56) | ((s[1] as u64) << 48) | ((s[2] as u64) << 40) | ((
    s[3] as u64) << 32) | ((s[4] as u64) << 24) | ((s[5] as u64) << 16) | ((s[6] as u64)
        << 8) | (s[7] as u64)) as u64
}

pub open spec fn enc_u32(v: u32) -> Seq<u8> {
    seq![
        ((v >> 24) & 0xff) as u8,
        ((v >> 16) & 0xff) as u8,
        ((v >> 8) & 0xff) as u8,
        (v & 0xff) as u8,
    ]
}

pub open spec fn dec_u32(s: Seq<u8>) -> u32 {
    (((s[0] as u32) << 24) | ((s[1] as u32) << 16) | ((s[2] as u32) << 8) | (
    s[3] as u32)) as u32
}

/// A coordinate the codec can carry.
pub open spec fn coord_ok(c: i64) -> bool {
    COORD_LIMIT_MIN <= c <= COORD_LIMIT
}

pub open spec fn enc_coord(c: i64) -> Seq<u8> {
    enc_u64(((c + COORD_LIMIT) as u64))
}

pub open spec fn dec_coord(u: u64) -> Option<i64> {
    if u <= COORD_SPAN {
        Some(((u as i64) - COORD_LIMIT) as i64)
    } else {
        None
    }
}

pub open spec fn enc_block(k: Block) -> Seq<u8> {
    enc_coord(k.position.x) + enc_coord(k.position.y) + enc_u64(k.hits_life as u64)
}

pub open spec fn dec_block_at(s: Seq<u8>, off: int) -> Option<Block> {
    let ux = dec_u64(s.subrange(off, off + 8));
    let uy = dec_u64(s.subrange(off + 8, off + 16));
    let h = dec_u64(s.subrange(off + 16, off + 24));
    match (dec_coord(ux), dec_coord(uy)) {
        (Some(x), Some(y)) => Some(
            Block { position: Vec2 { x, y }, hits_life: h as usize },
        ),
        _ => None,
    }
}

pub open spec fn enc_blocks(ks: Seq<Block>) -> Seq<u8>
    decreases ks.len(),
{
    if ks.len() == 0 {
        Seq::empty()
    } else {
        enc_blocks(ks.drop_last()) + enc_block(ks.last())
    }
}

pub open spec fn dec_blocks(s: Seq<u8>, off: int, n: int) -> Option<Seq<Block>>
    decreases n,
{
    if n <= 0 {
        Some(Seq::empty())
    } else {
        match dec_blocks(s, off, n - 1) {
            None => None,
            Some(pre) => match dec_block_at(s, off + (n - 1) * 24) {
                None => None,
                Some(k) => Some(pre.push(k)),
            },
        }
    }
}

pub open spec fn enc_paddle(p: Paddle) -> Seq<u8> {
    seq![p.id] + enc_coord(p.position.x) + enc_coord(p.position.y)
}

pub open spec fn dec_paddle_at(s: Seq<u8>, off: int) -> Option<Paddle> {
    let ux = dec_u64(s.subrange(off + 1, off + 9));
    let uy = dec_u64(s.subrange(off + 9, off + 17));
    match (dec_coord(ux), dec_coord(uy)) {
        (Some(x), Some(y)) => Some(Paddle { id: s[off], position: Vec2 { x, y } }),
        _ => None,
    }
}

pub open spec fn enc_ball(b: Ball) -> Seq<u8> {
    seq![b.id] + enc_coord(b.position.x) + enc_coord(b.position.y) + enc_coord(
        b.velocity.x,
    ) + enc_coord(b.velocity.y) + seq![
        if b.is_free {
            1u8
        } else {
            0u8
        },
    ]
}

pub open spec fn dec_ball_at(s: Seq<u8>, off: int) -> Option<Ball> {
    let upx = dec_u64(s.subrange(off + 1, off + 9));
    let upy = dec_u64(s.subrange(off + 9, off + 17));
    let uvx = dec_u64(s.subrange(off + 17, off + 25));
    let uvy = dec_u64(s.subrange(off + 25, off + 33));
    let flag = s[off + 33];
    match (dec_coord(upx), dec_coord(upy), dec_coord(uvx), dec_coord(uvy)) {
        (Some(px), Some(py), Some(vx), Some(vy)) => if flag == 0 || flag == 1 {
            Some(
                Ball {
                    id: s[off],
                    position: Vec2 { x: px, y: py },
                    velocity: Vec2 { x: vx, y: vy },
                    is_free: flag == 1,
                },
            )
        } else {
            None
        },
        _ => None,
    }
}

pub open spec fn enc_balls(bs: Seq<Ball>) -> Seq<u8>
    decreases bs.len(),
{
    if bs.len() == 0 {
        Seq::empty()
    } else {
        enc_balls(bs.drop_last()) + enc_ball(bs.last())
    }
}

pub open spec fn dec_balls(s: Seq<u8>, off: int, n: int) -> Option<Seq<Ball>>
    decreases n,
{
    if n <= 0 {
        Some(Seq::empty())
    } else {
        match dec_balls(s, off, n - 1) {
            None => None,
            Some(pre) => match dec_ball_at(s, off + (n - 1) * 34) {
                None => None,
                Some(b) => Some(pre.push(b)),
            },
        }
    }
}

/// A snapshot the codec can carry: exactly two paddles, bounded entity
/// counts, and every coordinate within the codec's range.
pub open spec fn encodable(w: WorldView) -> bool {
    &&& w.paddles.len() == 2
    &&& w.blocks.len() <= WIRE_MAX_ENTITIES
    &&& w.balls.len() <= WIRE_MAX_ENTITIES
    &&& forall|i: int|
        0 <= i < w.blocks.len() ==> coord_ok((#[trigger] w.blocks[i]).position.x) && coord_ok(
            w.blocks[i].position.y,
        )
    &&& coord_ok(w.paddles[0].position.x) && coord_ok(w.paddles[0].position.y)
    &&& coord_ok(w.paddles[1].position.x) && coord_ok(w.paddles[1].position.y)
    &&& forall|i: int|
        0 <= i < w.balls.len() ==> coord_ok((#[trigger] w.balls[i]).position.x) && coord_ok(
            w.balls[i].position.y,
        ) && coord_ok(w.balls[i].velocity.x) && coord_ok(w.balls[i].velocity.y)
}

/// The full snapshot payload.
pub open spec fn spec_encode(w: WorldView) -> Seq<u8> {
    enc_u32(w.blocks.len() as u32) + enc_blocks(w.blocks) + enc_paddle(w.paddles[0])
        + enc_paddle(w.paddles[1]) + enc_u32(w.balls.len() as u32) + enc_balls(w.balls)
}

/// The snapshot a payload describes, or nothing for a malformed payload.
pub open spec fn spec_decode(s: Seq<u8>) -> Option<WorldView> {
    if s.len() < 4 {
        None
    } else {
        let nb = dec_u32(s.subrange(0, 4)) as int;
        let be = 4 + nb * 24;
        if s.len() < be + 38 {
            None
        } else {
            let nballs = dec_u32(s.subrange(be + 34, be + 38)) as int;
            if s.len() != be + 38 + nballs * 34 {
                None
            } else {
                match (dec_blocks(s, 4, nb), dec_paddle_at(s, be), dec_paddle_at(s, be + 17),
                dec_balls(s, be + 38, nballs)) {
                    (Some(ks), Some(p0), Some(p1), Some(bs)) => Some(
                        WorldView { blocks: ks, paddles: seq![p0, p1], balls: bs },
                    ),
                    _ => None,
                }
            }
        }
    }
}

/// A well-formed world with bounded entity counts fits on the wire.
pub proof fn lemma_wf_encodable(w: WorldView)
    requires
        wf(w),
        w.blocks.len() <= WIRE_MAX_ENTITIES,
        w.balls.len() <= WIRE_MAX_ENTITIES,
    ensures
        encodable(w),
{
    assert forall|i: int|
        0 <= i < w.blocks.len() implies coord_ok((#[trigger] w.blocks[i]).position.x)
        && coord_ok(w.blocks[i].position.y) by {
        assert(crate::world::block_wf(w.blocks[i]));
    }
    assert forall|i: int|
        0 <= i < w.balls.len() implies coord_ok((#[trigger] w.balls[i]).position.x)
        && coord_ok(w.balls[i].position.y) && coord_ok(w.balls[i].velocity.x) && coord_ok(
        w.balls[i].velocity.y,
    ) by {
        assert(crate::world::ball_wf(w.balls[i]));
    }
}

pub proof fn lemma_enc_blocks_len(ks: Seq<Block>)
    ensures
        enc_blocks(ks).len() == 24 * ks.len(),
    decreases ks.len(),
{
    if ks.len() > 0 {
        lemma_enc_blocks_len(ks.drop_last());
    }
}

pub proof fn lemma_enc_balls_len(bs: Seq<Ball>)
    ensures
        enc_balls(bs).len() == 34 * bs.len(),
    decreases bs.len(),
{
    if bs.len() > 0 {
        lemma_enc_balls_len(bs.drop_last());
    }
}

proof fn lemma_u64_round(v: u64)
    ensures
        dec_u64(enc_u64(v)) == v,
{
    assert((((((v >> 56) & 0xff) as u8) as u64) << 56) | (((((v >> 48) & 0xff) as u8) as u64)
        << 48) | (((((v >> 40) & 0xff) as u8) as u64) << 40) | (((((v >> 32) & 0xff) as u8) as u64)
        << 32) | (((((v >> 24) & 0xff) as u8) as u64) << 24) | (((((v >> 16) & 0xff) as u8) as u64)
        << 16) | (((((v >> 8) & 0xff) as u8) as u64) << 8) | (((v & 0xff) as u8) as u64) == v)
        by (bit_vector);
}

proof fn lemma_u32_round(v: u32)
    ensures
        dec_u32(enc_u32(v)) == v,
{
    assert((((((v >> 24) & 0xff) as u8) as u32) << 24) | (((((v >> 16) & 0xff) as u8) as u32)
        << 16) | (((((v >> 8) & 0xff) as u8) as u32) << 8) | (((v & 0xff) as u8) as u32) == v)
        by (bit_vector);
}

proof fn lemma_coord_round(c: i64)
    requires
        coord_ok(c),
    ensures
        dec_coord((c + COORD_LIMIT) as u64) == Some(c),
{
}

proof fn lemma_chunk(s: Seq<u8>, off: int, len: int, a: int, b: int, whole: Seq<u8>)
    requires
        0 <= off,
        off + len <= s.len(),
        s.subrange(off, off + len) == whole,
        0 <= a <= b <= len,
        whole.len() == len,
    ensures
        s.subrange(off + a, off + b) == whole.subrange(a, b),
{
    assert forall|t: int| 0 <= t < b - a implies s[off + a + t] == #[trigger] whole[a
        + t] by {
        assert(whole[a + t] == s.subrange(off, off + len)[a + t]);
    }
    assert(s.subrange(off + a, off + b) =~= whole.subrange(a, b));
}

proof fn lemma_block_round(s: Seq<u8>, off: int, k: Block)
    requires
        0 <= off,
        off + 24 <= s.len(),
        s.subrange(off, off + 24) == enc_block(k),
        coord_ok(k.position.x),
        coord_ok(k.position.y),
    ensures
        dec_block_at(s, off) == Some(k),
{
    let w = enc_block(k);
    lemma_chunk(s, off, 24, 0, 8, w);
    assert(w.subrange(0, 8) =~= enc_coord(k.position.x));
    lemma_chunk(s, off, 24, 8, 16, w);
    assert(w.subrange(8, 16) =~= enc_coord(k.position.y));
    lemma_chunk(s, off, 24, 16, 24, w);
    assert(w.subrange(16, 24) =~= enc_u64(k.hits_life as u64));
    lemma_u64_round((k.position.x + COORD_LIMIT) as u64);
    lemma_u64_round((k.position.y + COORD_LIMIT) as u64);
    lemma_u64_round(k.hits_life as u64);
    lemma_coord_round(k.position.x);
    lemma_coord_round(k.position.y);
}

proof fn lemma_blocks_round(s: Seq<u8>, off: int, ks: Seq<Block>)
    requires
        0 <= off,
        off + 24 * ks.len() <= s.len(),
        s.subrange(off, off + 24 * ks.len()) == enc_blocks(ks),
        forall|i: int|
            0 <= i < ks.len() ==> coord_ok((#[trigger] ks[i]).position.x) && coord_ok(
                ks[i].position.y,
            ),
    ensures
        dec_blocks(s, off, ks.len() as int) == Some(ks),
    decreases ks.len(),
{
    if ks.len() > 0 {
        let sub = ks.drop_last();
        lemma_enc_blocks_len(sub);
        lemma_enc_blocks_len(ks);
        let w = enc_blocks(ks);
        lemma_chunk(s, off, 24 * ks.len() as int, 0, 24 * sub.len() as int, w);
        assert(w.subrange(0, 24 * sub.len() as int) =~= enc_blocks(sub));
        lemma_blocks_round(s, off, sub);
        lemma_chunk(
            s,
            off,
            24 * ks.len() as int,
            24 * sub.len() as int,
            24 * ks.len() as int,
            w,
        );
        assert(w.subrange(24 * sub.len() as int, 24 * ks.len() as int) =~= enc_block(
            ks.last(),
        ));
        lemma_block_round(s, off + 24 * sub.len(), ks.last());
        assert(sub.push(ks.last()) =~= ks);
    }
}

proof fn lemma_paddle_round(s: Seq<u8>, off: int, p: Paddle)
    requires
        0 <= off,
        off + 17 <= s.len(),
        s.subrange(off, off + 17) == enc_paddle(p),
        coord_ok(p.position.x),
        coord_ok(p.position.y),
    ensures
        dec_paddle_at(s, off) == Some(p),
{
    let w = enc_paddle(p);
    assert(s[off] == p.id) by {
        assert(w[0] == s.subrange(off, off + 17)[0]);
    }
    lemma_chunk(s, off, 17, 1, 9, w);
    assert(w.subrange(1, 9) =~= enc_coord(p.position.x));
    lemma_chunk(s, off, 17, 9, 17, w);
    assert(w.subrange(9, 17) =~= enc_coord(p.position.y));
    lemma_u64_round((p.position.x + COORD_LIMIT) as u64);
    lemma_u64_round((p.position.y + COORD_LIMIT) as u64);
    lemma_coord_round(p.position.x);
    lemma_coord_round(p.position.y);
}

proof fn lemma_ball_round(s: Seq<u8>, off: int, b: Ball)
    requires
        0 <= off,
        off + 34 <= s.len(),
        s.subrange(off, off + 34) == enc_ball(b),
        coord_ok(b.position.x),
        coord_ok(b.position.y),
        coord_ok(b.velocity.x),
        coord_ok(b.velocity.y),
    ensures
        dec_ball_at(s, off) == Some(b),
{
    let w = enc_ball(b);
    assert(s[off] == b.id) by {
        assert(w[0] == s.subrange(off, off + 34)[0]);
    }
    assert(s[off + 33] == (if b.is_free { 1u8 } else { 0u8 })) by {
        assert(w[33] == s.subrange(off, off + 34)[33]);
    }
    lemma_chunk(s, off, 34, 1, 9, w);
    assert(w.subrange(1, 9) =~= enc_coord(b.position.x));
    lemma_chunk(s, off, 34, 9, 17, w);
    assert(w.subrange(9, 17) =~= enc_coord(b.position.y));
    lemma_chunk(s, off, 34, 17, 25, w);
    assert(w.subrange(17, 25) =~= enc_coord(b.velocity.x));
    lemma_chunk(s, off, 34, 25, 33, w);
    assert(w.subrange(25, 33) =~= enc_coord(b.velocity.y));
    lemma_u64_round((b.position.x + COORD_LIMIT) as u64);
    lemma_u64_round((b.position.y + COORD_LIMIT) as u64);
    lemma_u64_round((b.velocity.x + COORD_LIMIT) as u64);
    lemma_u64_round((b.velocity.y + COORD_LIMIT) as u64);
    lemma_coord_round(b.position.x);
    lemma_coord_round(b.position.y);
    lemma_coord_round(b.velocity.x);
    lemma_coord_round(b.velocity.y);
}

proof fn lemma_balls_round(s: Seq<u8>, off: int, bs: Seq<Ball>)
    requires
        0 <= off,
        off + 34 * bs.len() <= s.len(),
        s.subrange(off, off + 34 * bs.len()) == enc_balls(bs),
        forall|i: int|
            0 <= i < bs.len() ==> coord_ok((#[trigger] bs[i]).position.x) && coord_ok(
                bs[i].position.y,
            ) && coord_ok(bs[i].velocity.x) && coord_ok(bs[i].velocity.y),
    ensures
        dec_balls(s, off, bs.len() as int) == Some(bs),
    decreases bs.len(),
{
    if bs.len() > 0 {
        let sub = bs.drop_last();
        lemma_enc_balls_len(sub);
        lemma_enc_balls_len(bs);
        let w = enc_balls(bs);
        lemma_chunk(s, off, 34 * bs.len() as int, 0, 34 * sub.len() as int, w);
        assert(w.subrange(0, 34 * sub.len() as int) =~= enc_balls(sub));
        lemma_balls_round(s, off, sub);
        lemma_chunk(
            s,
            off,
            34 * bs.len() as int,
            34 * sub.len() as int,
            34 * bs.len() as int,
            w,
        );
        assert(w.subrange(34 * sub.len() as int, 34 * bs.len() as int) =~= enc_ball(
            bs.last(),
        ));
        lemma_ball_round(s, off + 34 * sub.len(), bs.last());
        assert(sub.push(bs.last()) =~= bs);
    }
}

/// The encoded payload splits into its six sections at fixed offsets.
#[verifier::rlimit(100)]
proof fn lemma_encode_sections(w: WorldView)
    requires
        encodable(w),
    ensures
        ({
            let s = spec_encode(w);
            let nb = w.blocks.len() as int;
            let nballs = w.balls.len() as int;
            let be = 4 + nb * 24;
            &&& s.len() == be + 38 + nballs * 34
            &&& s.subrange(0, 4) == enc_u32(nb as u32)
            &&& s.subrange(4, 4 + 24 * nb) == enc_blocks(w.blocks)
            &&& s.subrange(be, be + 17) == enc_paddle(w.paddles[0])
            &&& s.subrange(be + 17, be + 34) == enc_paddle(w.paddles[1])
            &&& s.subrange(be + 34, be + 38) == enc_u32(nballs as u32)
            &&& s.subrange(be + 38, be + 38 + 34 * nballs) == enc_balls(w.balls)
        }),
{
    let s = spec_encode(w);
    let nb = w.blocks.len() as int;
    let nballs = w.balls.len() as int;
    lemma_enc_blocks_len(w.blocks);
    lemma_enc_balls_len(w.balls);
    let be = 4 + nb * 24;
    assert(s.len() == be + 38 + nballs * 34);
    assert(s.subrange(0, 4) =~= enc_u32(nb as u32));
    assert(s.subrange(4, 4 + 24 * nb) =~= enc_blocks(w.blocks));
    assert(s.subrange(be, be + 17) =~= enc_paddle(w.paddles[0]));
    assert(s.subrange(be + 17, be + 34) =~= enc_paddle(w.paddles[1]));
    assert(s.subrange(be + 34, be + 38) =~= enc_u32(nballs as u32));
    assert(s.subrange(be + 38, be + 38 + 34 * nballs) =~= enc_balls(w.balls));
}

/// Round trip: decoding an encoded snapshot gives the snapshot back.
#[verifier::rlimit(100)]
pub proof fn lemma_codec_round_trip(w: WorldView)
    requires
        encodable(w),
    ensures
        spec_decode(spec_encode(w)) == Some(w),
{
    let s = spec_encode(w);
    let nb = w.blocks.len() as int;
    let nballs = w.balls.len() as int;
    lemma_enc_blocks_len(w.blocks);
    lemma_enc_balls_len(w.balls);
    let be = 4 + nb * 24;
    lemma_encode_sections(w);
    lemma_u32_round(nb as u32);
    assert(dec_u32(s.subrange(0, 4)) as int == nb);
    lemma_u32_round(nballs as u32);
    assert(dec_u32(s.subrange(be + 34, be + 38)) as int == nballs);
    lemma_blocks_round(s, 4, w.blocks);
    lemma_paddle_round(s, be, w.paddles[0]);
    lemma_paddle_round(s, be + 17, w.paddles[1]);
    lemma_balls_round(s, be + 38, w.balls);
    assert(seq![w.paddles[0], w.paddles[1]] =~= w.paddles);
    assert(spec_decode(s).unwrap() =~= w);
}

fn push_u64(out: &mut Vec<u8>, v: u64)
    ensures
        final(out)@ == old(out)@ + enc_u64(v),
{
    proof {
        assert((v >> 56) & 0xff < 256 && (v >> 48) & 0xff < 256 && (v >> 40) & 0xff < 256 && (v
            >> 32) & 0xff < 256 && (v >> 24) & 0xff < 256 && (v >> 16) & 0xff < 256 && (v >> 8)
            & 0xff < 256 && v & 0xff < 256) by (bit_vector);
    }
    out.push(((v >> 56) & 0xff) as u8);
    out.push(((v >> 48) & 0xff) as u8);
    out.push(((v >> 40) & 0xff) as u8);
    out.push(((v >> 32) & 0xff) as u8);
    out.push(((v >> 24) & 0xff) as u8);
    out.push(((v >> 16) & 0xff) as u8);
    out.push(((v >> 8) & 0xff) as u8);
    out.push((v & 0xff) as u8);
    proof {
        assert(out@ =~= old(out)@ + enc_u64(v));
    }
}

fn push_u32(out: &mut Vec<u8>, v: u32)
    ensures
        final(out)@ == old(out)@ + enc_u32(v),
{
    proof {
        assert((v >> 24) & 0xff < 256 && (v >> 16) & 0xff < 256 && (v >> 8) & 0xff < 256 && v
            & 0xff < 256) by (bit_vector);
    }
    out.push(((v >> 24) & 0xff) as u8);
    out.push(((v >> 16) & 0xff) as u8);
    out.push(((v >> 8) & 0xff) as u8);
    out.push((v & 0xff) as u8);
    proof {
        assert(out@ =~= old(out)@ + enc_u32(v));
    }
}

fn push_coord(out: &mut Vec<u8>, c: i64)
    requires
        coord_ok(c),
    ensures
        final(out)@ == old(out)@ + enc_coord(c),
{
    push_u64(out, (c + COORD_LIMIT) as u64);
}

/// Encode a snapshot into its wire payload.
#[verifier::rlimit(80)]
pub fn encode_snapshot(w: &WorldData) -> (r: Vec<u8>)
    requires
        encodable(w@),
    ensures
        r@ == spec_encode(w@),
{
    let mut out: Vec<u8> = Vec::new();
    push_u32(&mut out, w.blocks.len() as u32);
    let ghost header = out@;
    let mut i: usize = 0;
    proof {
        assert(w.blocks@.take(0) =~= Seq::<Block>::empty());
        assert(out@ =~= header + enc_blocks(w.blocks@.take(0)));
    }
    while i < w.blocks.len()
        invariant
            i <= w.blocks@.len(),
            encodable(w@),
            out@ == header + enc_blocks(w.blocks@.take(i as int)),
        decreases w.blocks@.len() - i,
    {
        let k = &w.blocks[i];
        proof {
            assert(coord_ok(w.blocks@[i as int].position.x) && coord_ok(
                w.blocks@[i as int].position.y,
            ));
        }
        push_coord(&mut out, k.position.x);
        push_coord(&mut out, k.position.y);
        push_u64(&mut out, k.hits_life as u64);
        proof {
            assert(w.blocks@.take(i + 1).drop_last() =~= w.blocks@.take(i as int));
            assert(w.blocks@.take(i + 1).last() == w.blocks@[i as int]);
            assert(out@ =~= header + enc_blocks(w.blocks@.take(i + 1)));
        }
        i = i + 1;
    }
    proof {
        assert(w.blocks@.take(w.blocks@.len() as int) =~= w.blocks@);
    }
    let p0 = w.paddles[0];
    out.push(p0.id);
    push_coord(&mut out, p0.position.x);
    push_coord(&mut out, p0.position.y);
    let p1 = w.paddles[1];
    out.push(p1.id);
    push_coord(&mut out, p1.position.x);
    push_coord(&mut out, p1.position.y);
    push_u32(&mut out, w.balls.len() as u32);
    let ghost before_balls = out@;
    let mut j: usize = 0;
    proof {
        assert(w.balls@.take(0) =~= Seq::<Ball>::empty());
        assert(out@ =~= before_balls + enc_balls(w.balls@.take(0)));
    }
    while j < w.balls.len()
        invariant
            j <= w.balls@.len(),
            encodable(w@),
            out@ == before_balls + enc_balls(w.balls@.take(j as int)),
        decreases w.balls@.len() - j,
    {
        let b = &w.balls[j];
        proof {
            assert(coord_ok(w.balls@[j as int].position.x) && coord_ok(
                w.balls@[j as int].position.y,
            ) && coord_ok(w.balls@[j as int].velocity.x) && coord_ok(
                w.balls@[j as int].velocity.y,
            ));
        }
        out.push(b.id);
        push_coord(&mut out, b.position.x);
        push_coord(&mut out, b.position.y);
        push_coord(&mut out, b.velocity.x);
        push_coord(&mut out, b.velocity.y);
        if b.is_free {
            out.push(1u8);
        } else {
            out.push(0u8);
        }
        proof {
            assert(w.balls@.take(j + 1).drop_last() =~= w.balls@.take(j as int));
            assert(w.balls@.take(j + 1).last() == w.balls@[j as int]);
            assert(out@ =~= before_balls + enc_balls(w.balls@.take(j + 1)));
        }
        j = j + 1;
    }
    proof {
        assert(w.balls@.take(w.balls@.len() as int) =~= w.balls@);
        assert(out@ =~= spec_encode(w@));
    }
    out
}

fn read_u64(bytes: &Vec<u8>, off: usize) -> (r: u64)
    requires
        off + 8 <= bytes@.len(),
    ensures
        r == dec_u64(bytes@.subrange(off as int, off as int + 8)),
{
    let _n = bytes.len();
    let r = ((bytes[off] as u64) << 56) | ((bytes[off + 1] as u64) << 48) | ((
    bytes[off + 2] as u64) << 40) | ((bytes[off + 3] as u64) << 32) | ((bytes[off + 4] as u64)
        << 24) | ((bytes[off + 5] as u64) << 16) | ((bytes[off + 6] as u64) << 8) | (
    bytes[off + 7] as u64);
    proof {
        let s = bytes@.subrange(off as int, off as int + 8);
        assert(s[0] == bytes@[off as int] && s[1] == bytes@[off as int + 1] && s[2] == bytes@[
            off as int + 2] && s[3] == bytes@[off as int + 3] && s[4] == bytes@[off as int + 4]
            && s[5] == bytes@[off as int + 5] && s[6] == bytes@[off as int + 6] && s[7] == bytes@[
            off as int + 7]);
    }
    r
}

fn read_u32(bytes: &Vec<u8>, off: usize) -> (r: u32)
    requires
        off + 4 <= bytes@.len(),
    ensures
        r == dec_u32(bytes@.subrange(off as int, off as int + 4)),
{
    let _n = bytes.len();
    let r = ((bytes[off] as u32) << 24) | ((bytes[off + 1] as u32) << 16) | ((
    bytes[off + 2] as u32) << 8) | (bytes[off + 3] as u32);
    proof {
        let s = bytes@.subrange(off as int, off as int + 4);
        assert(s[0] == bytes@[off as int] && s[1] == bytes@[off as int + 1] && s[2] == bytes@[
            off as int + 2] && s[3] == bytes@[off as int + 3]);
    }
    r
}

fn read_coord(bytes: &Vec<u8>, off: usize) -> (r: Option<i64>)
    requires
        off + 8 <= bytes@.len(),
    ensures
        r == dec_coord(dec_u64(bytes@.subrange(off as int, off as int + 8))),
{
    let u = read_u64(bytes, off);
    if u <= COORD_SPAN {
        Some((u as i64) - COORD_LIMIT)
    } else {
        None
    }
}

proof fn lemma_dec_blocks_none(s: Seq<u8>, off: int, n: int, i: int)
    requires
        0 <= i < n,
        dec_block_at(s, off + i * 24) is None,
    ensures
        dec_blocks(s, off, n) is None,
    decreases n,
{
    if i < n - 1 {
        lemma_dec_blocks_none(s, off, n - 1, i);
    }
}

proof fn lemma_dec_balls_none(s: Seq<u8>, off: int, n: int, i: int)
    requires
        0 <= i < n,
        dec_ball_at(s, off + i * 34) is None,
    ensures
        dec_balls(s, off, n) is None,
    decreases n,
{
    if i < n - 1 {
        lemma_dec_balls_none(s, off, n - 1, i);
    }
}

/// Decode a snapshot payload; `None` for a malformed or undersized payload.
#[verifier::rlimit(80)]
pub fn decode_snapshot(bytes: &Vec<u8>) -> (r: Option<WorldData>)
    ensures
        ({
            let d = spec_decode(bytes@);
            match r {
                Some(w) => d == Some(w@),
                None => d is None,
            }
        }),
{
    let n = bytes.len();
    if n < 4 {
        return None;
    }
    let nb = read_u32(bytes, 0);
    let be64: u64 = 4 + (nb as u64) * 24;
    if (n as u64) < be64 + 38 {
        return None;
    }
    let be: usize = be64 as usize;
    let nballs = read_u32(bytes, be + 34);
    let total64: u64 = be64 + 38 + (nballs as u64) * 34;
    if (n as u64) != total64 {
        return None;
    }
    proof {
        assert(be as int == 4 + (nb as int) * 24);
        assert(bytes@.len() == 4 + (nb as int) * 24 + 38 + (nballs as int) * 34);
    }
    let mut blocks: Vec<Block> = Vec::new();
    let mut i: usize = 0;
    while i < nb as usize
        invariant
            i <= nb as usize,
            n == bytes@.len(),
            bytes@.len() == 4 + (nb as int) * 24 + 38 + (nballs as int) * 34,
            nb == dec_u32(bytes@.subrange(0, 4)),
            nballs == dec_u32(
                bytes@.subrange(4 + (nb as int) * 24 + 34, 4 + (nb as int) * 24 + 38),
            ),
            dec_blocks(bytes@, 4, i as int) == Some(blocks@),
        decreases nb as usize - i,
    {
        let off: usize = 4 + i * 24;
        let x = match read_coord(bytes, off) {
            Some(x) => x,
            None => {
                proof {
                    assert(dec_block_at(bytes@, 4 + (i as int) * 24) is None);
                    lemma_dec_blocks_none(bytes@, 4, nb as int, i as int);
                    assert(dec_blocks(bytes@, 4, nb as int) is None);
                    assert(spec_decode(bytes@) is None);
                }
                return None;
            },
        };
        let y = match read_coord(bytes, off + 8) {
            Some(y) => y,
            None => {
                proof {
                    assert(dec_block_at(bytes@, 4 + (i as int) * 24) is None);
                    lemma_dec_blocks_none(bytes@, 4, nb as int, i as int);
                    assert(dec_blocks(bytes@, 4, nb as int) is None);
                    assert(spec_decode(bytes@) is None);
                }
                return None;
            },
        };
        let h = read_u64(bytes, off + 16);
        blocks.push(Block { position: Vec2 { x, y }, hits_life: h as usize });
        i = i + 1;
    }
    let p0 = match decode_paddle(bytes, be) {
        Some(p) => p,
        None => {
            return None;
        },
    };
    let p1 = match decode_paddle(bytes, be + 17) {
        Some(p) => p,
        None => {
            return None;
        },
    };
    let mut balls: Vec<Ball> = Vec::new();
    let mut j: usize = 0;
    let balls_base: usize = be + 38;
    while j < nballs as usize
        invariant
            j <= nballs as usize,
            n == bytes@.len(),
            balls_base == 4 + (nb as int) * 24 + 38,
            bytes@.len() == balls_base + (nballs as int) * 34,
            nb == dec_u32(bytes@.subrange(0, 4)),
            nballs == dec_u32(
                bytes@.subrange(4 + (nb as int) * 24 + 34, 4 + (nb as int) * 24 + 38),
            ),
            dec_balls(bytes@, balls_base as int, j as int) == Some(balls@),
        decreases nballs as usize - j,
    {
        let off: usize = balls_base + j * 34;
        let b = match decode_ball(bytes, off) {
            Some(b) => b,
            None => {
                proof {
                    assert(dec_ball_at(bytes@, balls_base as int + (j as int) * 34)
                        is None);
                    lemma_dec_balls_none(
                        bytes@,
                        balls_base as int,
                        nballs as int,
                        j as int,
                    );
                    assert(dec_balls(bytes@, balls_base as int, nballs as int) is None);
                    assert(spec_decode(bytes@) is None);
                }
                return None;
            },
        };
        balls.push(b);
        j = j + 1;
    }
    Some(WorldData { blocks, paddles: [p0, p1], balls })
}

fn decode_paddle(bytes: &Vec<u8>, off: usize) -> (r: Option<Paddle>)
    requires
        off + 17 <= bytes@.len(),
    ensures
        r == dec_paddle_at(bytes@, off as int),
{
    let _n = bytes.len();
    let x = match read_coord(bytes, off + 1) {
        Some(x) => x,
        None => {
            return None;
        },
    };
    let y = match read_coord(bytes, off + 9) {
        Some(y) => y,
        None => {
            return None;
        },
    };
    Some(Paddle { id: bytes[off], position: Vec2 { x, y } })
}

fn decode_ball(bytes: &Vec<u8>, off: usize) -> (r: Option<Ball>)
    requires
        off + 34 <= bytes@.len(),
    ensures
        r == dec_ball_at(bytes@, off as int),
{
    let _n = bytes.len();
    let px = match read_coord(bytes, off + 1) {
        Some(v) => v,
        None => {
            return None;
        },
    };
    let py = match read_coord(bytes, off + 9) {
        Some(v) => v,
        None => {
            return None;
        },
    };
    let vx = match read_coord(bytes, off + 17) {
        Some(v) => v,
        None => {
            return None;
        },
    };
    let vy = match read_coord(bytes, off + 25) {
        Some(v) => v,
        None => {
            return None;
        },
    };
    let flag = bytes[off + 33];
    if flag == 0 || flag == 1 {
        Some(
            Ball {
                id: bytes[off],
                position: Vec2 { x: px, y: py },
                velocity: Vec2 { x: vx, y: vy },
                is_free: flag == 1,
            },
        )
    } else {
        None
    }
}

/// Wrap a payload in a length-prefixed frame.
pub fn encode_frame(w: &WorldData) -> (r: Vec<u8>)
    requires
        encodable(w@),
    ensures
        r@ == enc_u32(spec_encode(w@).len() as u32) + spec_encode(w@),
{
    let payload = encode_snapshot(w);
    proof {
        lemma_enc_blocks_len(w.blocks@);
        lemma_enc_balls_len(w.balls@);
    }
    let mut out: Vec<u8> = Vec::new();
    push_u32(&mut out, payload.len() as u32);
    let ghost header = out@;
    let mut i: usize = 0;
    while i < payload.len()
        invariant
            i <= payload@.len(),
            out@ == header + payload@.take(i as int),
        decreases payload@.len() - i,
    {
        out.push(payload[i]);
        proof {
            assert(out@ =~= header + payload@.take(i + 1));
        }
        i = i + 1;
    }
    proof {
        assert(payload@.take(payload@.len() as int) =~= payload@);
    }
    out
}

/// What a receive buffer holds: not yet a whole frame, a complete frame
/// carrying a snapshot plus the bytes it consumed, or a malformed frame.
pub enum FrameStatus {
    NeedMore,
    Complete(WorldData, usize),
    Malformed,
}

/// Inspect a receive buffer for one leading frame. Partial data is not an
/// error: the caller keeps the buffer and reads more.
pub fn decode_frame(buf: &Vec<u8>) -> (r: FrameStatus)
    ensures
        buf@.len() < 4 ==> r is NeedMore,
        buf@.len() >= 4 ==> ({
            let total = 4 + dec_u32(buf@.subrange(0, 4)) as int;
            &&& buf@.len() < total ==> r is NeedMore
            &&& buf@.len() >= total ==> match spec_decode(buf@.subrange(4, total)) {
                Some(w) => r matches FrameStatus::Complete(d, consumed) && d@ == w && consumed
                    == total,
                None => r is Malformed,
            }
        }),
{
    if buf.len() < 4 {
        return FrameStatus::NeedMore;
    }
    let n = read_u32(buf, 0);
    let total64: u64 = 4 + n as u64;
    if (buf.len() as u64) < total64 {
        return FrameStatus::NeedMore;
    }
    let total: usize = total64 as usize;
    let mut payload: Vec<u8> = Vec::new();
    let mut i: usize = 4;
    while i < total
        invariant
            4 <= i <= total,
            total <= buf@.len(),
            payload@ == buf@.subrange(4, i as int),
        decreases total - i,
    {
        payload.push(buf[i]);
        proof {
            assert(payload@ =~= buf@.subrange(4, i + 1));
        }
        i = i + 1;
    }
    match decode_snapshot(&payload) {
        Some(w) => FrameStatus::Complete(w, total),
        None => FrameStatus::Malformed,
    }
}

} // verus!
