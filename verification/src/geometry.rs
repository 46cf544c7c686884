//! Conversions between the four coordinate spaces of the world.
//!
//! * a *world position* is a point of the lattice of whole world units;
//! * a *chunk coordinate* names a chunk; chunk `c` is centred on the world
//!   position `c * extent`, where `extent = chunk size * tile size`;
//! * a *tile coordinate* names a tile inside its chunk, from `(0, 0)` at the
//!   chunk's negative corner;
//! * a *global tile coordinate* names a tile independently of chunks.
//!
//! Every division that can meet a negative numerator rounds toward negative
//! infinity. Only the halving of a size, which centres a chunk on its
//! coordinate, is a division of a non-negative number.

use vstd::prelude::*;
use vstd::arithmetic::div_mod::lemma_fundamental_div_mod;
use vstd::arithmetic::div_mod::lemma_fundamental_div_mod_converse;
use vstd::arithmetic::div_mod::lemma_mod_bound;
use crate::coords::IVec2;
use crate::coords::UVec2;

verus! {

/// World units covered by one chunk along one axis.
pub open spec fn extent(size: u32, tile_size: u32) -> int {
    size as int * tile_size as int
}

/// World position of the centre of chunk `chunk` along one axis.
pub open spec fn chunk_to_world(chunk: int, size: u32, tile_size: u32) -> int {
    chunk * extent(size, tile_size)
}

/// The chunk that holds world position `pos` along one axis: chunk `c` covers
/// the positions from `c * extent - extent / 2` up to, not including,
/// `(c + 1) * extent - extent / 2`.
pub open spec fn world_to_chunk(pos: int, size: u32, tile_size: u32) -> int {
    (pos + extent(size, tile_size) / 2) / extent(size, tile_size)
}

/// The tile, inside its chunk, that holds world position `pos` along one axis.
pub open spec fn world_to_tile(pos: int, size: u32, tile_size: u32) -> int {
    ((pos + extent(size, tile_size) / 2) % extent(size, tile_size)) / (tile_size as int)
}

/// The global coordinate of tile `tile` of chunk `chunk` along one axis.
pub open spec fn tile_to_global(tile: int, chunk: int, size: u32) -> int {
    chunk * size + tile - size / 2
}

/// The tile coordinate, inside its chunk, of global coordinate `global`.
pub open spec fn global_to_tile(global: int, size: u32) -> int {
    (global + size / 2) % (size as int)
}

/// The chunk that holds global coordinate `global`.
pub open spec fn global_to_chunk(global: int, size: u32) -> int {
    (global + size / 2) / (size as int)
}

/// Offset of the centre of tile `tile` from the centre of its chunk, in whole
/// world units (half a unit is dropped where the tile size is odd).
pub open spec fn tile_to_world_off(tile: int, size: u32, tile_size: u32) -> int {
    (tile - size / 2) * tile_size + tile_size / 2
}

/// The global coordinate of the tile that holds world position `pos`.
pub open spec fn world_to_global(pos: int, size: u32, tile_size: u32) -> int {
    tile_to_global(world_to_tile(pos, size, tile_size), world_to_chunk(pos, size, tile_size), size)
}

/// World position of the centre of the tile with global coordinate `global`.
pub open spec fn global_to_world(global: int, size: u32, tile_size: u32) -> int {
    chunk_to_world(global_to_chunk(global, size), size, tile_size)
        + tile_to_world_off(global_to_tile(global, size), size, tile_size)
}

/// Whether `v` can be held in an `i32`.
pub open spec fn fits_i32(v: int) -> bool {
    i32::MIN <= v <= i32::MAX
}

/// Quotient and remainder of `a` by a positive `b`, the quotient rounded
/// toward negative infinity and the remainder never negative.
fn div_floor(a: i128, b: i128) -> (qr: (i128, i128))
    requires
        0 < b < 0x1_0000_0000_0000_0000,
        -0x1_0000_0000_0000_0000_0000 < a < 0x1_0000_0000_0000_0000_0000,
    ensures
        qr.0 == a / b,
        qr.1 == a % b,
{
    if a >= 0 {
        (a / b, a % b)
    } else {
        let n: i128 = -a - 1;
        let q: i128 = n / b;
        let r: i128 = n % b;
        proof {
            lemma_fundamental_div_mod(n as int, b as int);
            assert((-(q as int) - 1) * b == -(b * q) - b) by (nonlinear_arith);
            lemma_fundamental_div_mod_converse(a as int, b as int, -(q as int) - 1, b - 1 - r);
        }
        (-q - 1, b - 1 - r)
    }
}


/// Product of a factor of at most 33 bits and a non-negative factor of at most 64 bits.
fn mul_wide(a: i128, b: i128) -> (p: i128)
    requires
        -0x1_0000_0000 <= a <= 0x1_0000_0000,
        0 <= b < 0x1_0000_0000_0000_0000,
    ensures
        p == a * b,
        -0x1_0000_0000_0000_0000_0000_0000 <= p <= 0x1_0000_0000_0000_0000_0000_0000,
{
    proof {
        assert(-0x1_0000_0000_0000_0000_0000_0000 <= a * b <= 0x1_0000_0000_0000_0000_0000_0000)
            by (nonlinear_arith)
            requires
                -0x1_0000_0000 <= a <= 0x1_0000_0000,
                0 <= b < 0x1_0000_0000_0000_0000,
        ;
    }
    a * b
}

/// World units covered by one chunk along one axis.
fn extent_of(size: u32, tile_size: u32) -> (e: i128)
    ensures
        e == extent(size, tile_size),
        0 <= e < 0x1_0000_0000_0000_0000,
        size > 0 && tile_size > 0 ==> e >= 1,
{
    proof {
        let s = size as int;
        let t = tile_size as int;
        assert(0 <= s * t < 0x1_0000_0000_0000_0000) by (nonlinear_arith)
            requires
                0 <= s < 0x1_0000_0000,
                0 <= t < 0x1_0000_0000,
        ;
        assert(s > 0 && t > 0 ==> s * t >= 1) by (nonlinear_arith);
    }
    mul_wide(size as i128, tile_size as i128)
}

/// A quotient `q` of `pos + half` by `d`, where `pos` fits an `i32` and `half`
/// is at most half of `d`, fits an `i32` too.
proof fn lemma_centered_quotient_fits(pos: int, half: int, d: int, q: int, r: int)
    requires
        fits_i32(pos),
        d >= 1,
        0 <= half,
        2 * half <= d,
        0 <= r < d,
        pos + half == q * d + r,
    ensures
        fits_i32(q),
{
    assert(q <= i32::MAX) by (nonlinear_arith)
        requires
            pos <= 0x7fff_ffff,
            d >= 1,
            2 * half <= d,
            0 <= r,
            pos + half == q * d + r,
    ;
    assert(q >= i32::MIN) by (nonlinear_arith)
        requires
            pos >= -0x8000_0000,
            d >= 1,
            0 <= half,
            r < d,
            pos + half == q * d + r,
    ;
}

/// Adding a multiple of the divisor moves the quotient and keeps the remainder.
proof fn lemma_div_mod_shift(x: int, k: int, d: int)
    requires
        d > 0,
    ensures
        (x + k * d) / d == x / d + k,
        (x + k * d) % d == x % d,
{
    lemma_fundamental_div_mod(x, d);
    assert((x / d + k) * d == d * (x / d) + k * d) by (nonlinear_arith);
    lemma_mod_bound(x, d);
    lemma_fundamental_div_mod_converse(x + k * d, d, x / d + k, x % d);
}

/// Dividing by `b` what was left of dividing by `a * b` picks the digit
/// between the two: `x / b == (x / (a * b)) * a + (x % (a * b)) / b`.
proof fn lemma_div_nested(x: int, a: int, b: int)
    requires
        a > 0,
        b > 0,
    ensures
        a * b > 0,
        0 <= (x % (a * b)) / b < a,
        x / b == (x / (a * b)) * a + (x % (a * b)) / b,
{
    let e = a * b;
    assert(e > 0) by (nonlinear_arith)
        requires
            a > 0,
            b > 0,
            e == a * b,
    ;
    let c = x / e;
    let m = x % e;
    lemma_fundamental_div_mod(x, e);
    lemma_mod_bound(x, e);
    let t = m / b;
    let r = m % b;
    lemma_fundamental_div_mod(m, b);
    lemma_mod_bound(m, b);
    assert(0 <= t < a) by (nonlinear_arith)
        requires
            0 <= m < a * b,
            m == b * t + r,
            0 <= r < b,
            a > 0,
            b > 0,
    ;
    assert(x == (c * a + t) * b + r) by (nonlinear_arith)
        requires
            x == e * c + m,
            e == a * b,
            m == b * t + r,
    ;
    lemma_fundamental_div_mod_converse(x, b, c * a + t, r);
}

/// Converting a chunk coordinate to the world position of its centre and
/// back gives the chunk coordinate again.
pub proof fn lemma_chunk_world_round_trip(chunk: int, size: u32, tile_size: u32)
    requires
        size > 0,
        tile_size > 0,
    ensures
        world_to_chunk(chunk_to_world(chunk, size, tile_size), size, tile_size) == chunk,
{
    let e = extent(size, tile_size);
    assert(e >= 1) by (nonlinear_arith)
        requires
            e == size as int * tile_size as int,
            size > 0,
            tile_size > 0,
    ;
    lemma_fundamental_div_mod_converse(chunk * e + e / 2, e, chunk, e / 2);
}

/// Every position that a chunk covers converts to that chunk: chunk `c`
/// covers `extent` positions, starting `extent / 2` below its centre, so that
/// neighbouring chunks neither overlap nor leave a gap.
pub proof fn lemma_chunk_covers(chunk: int, pos: int, size: u32, tile_size: u32)
    requires
        size > 0,
        tile_size > 0,
    ensures
        world_to_chunk(pos, size, tile_size) == chunk <==> {
            let e = extent(size, tile_size);
            chunk * e - e / 2 <= pos < (chunk + 1) * e - e / 2
        },
{
    let e = extent(size, tile_size);
    assert(e >= 1) by (nonlinear_arith)
        requires
            e == size as int * tile_size as int,
            size > 0,
            tile_size > 0,
    ;
    let a = pos + e / 2;
    lemma_fundamental_div_mod(a, e);
    lemma_mod_bound(a, e);
    assert((chunk + 1) * e == chunk * e + e) by (nonlinear_arith);
    if chunk * e - e / 2 <= pos < (chunk + 1) * e - e / 2 {
        lemma_fundamental_div_mod_converse(a, e, chunk, a - chunk * e);
    }
    if a / e == chunk {
        assert(e * (a / e) == chunk * e) by (nonlinear_arith)
            requires
                a / e == chunk,
        ;
    }
}

/// A global tile coordinate splits into a chunk and a tile inside it, and
/// putting the two together gives the global coordinate again.
pub proof fn lemma_global_split_joins(global: int, size: u32)
    requires
        size > 0,
    ensures
        0 <= global_to_tile(global, size) < size,
        tile_to_global(global_to_tile(global, size), global_to_chunk(global, size), size)
            == global,
{
    let a = global + size / 2;
    lemma_fundamental_div_mod(a, size as int);
    lemma_mod_bound(a, size as int);
    assert((a / (size as int)) * size == size * (a / (size as int))) by (nonlinear_arith);
}

/// The global coordinate of a tile of a chunk splits into that chunk and
/// that tile again, for every chunk, negative ones too.
pub proof fn lemma_global_join_splits(tile: int, chunk: int, size: u32)
    requires
        0 <= tile < size,
    ensures
        global_to_chunk(tile_to_global(tile, chunk, size), size) == chunk,
        global_to_tile(tile_to_global(tile, chunk, size), size) == tile,
{
    lemma_fundamental_div_mod_converse(chunk * size + tile, size as int, chunk, tile);
}

/// The global coordinate under a world position is the position divided by
/// the tile size, once the position is measured from the negative corner of
/// tile 0 of chunk 0.
pub proof fn lemma_world_to_global_closed_form(pos: int, size: u32, tile_size: u32)
    requires
        size > 0,
        tile_size > 0,
    ensures
        0 <= world_to_tile(pos, size, tile_size) < size,
        world_to_global(pos, size, tile_size) == (pos + extent(size, tile_size) / 2) / (
        tile_size as int) - size / 2,
{
    let a = pos + extent(size, tile_size) / 2;
    lemma_div_nested(a, size as int, tile_size as int);
}

/// World position of the centre of a tile, from its global coordinate alone.
pub proof fn lemma_global_to_world_closed_form(global: int, size: u32, tile_size: u32)
    requires
        size > 0,
    ensures
        global_to_world(global, size, tile_size) == global * tile_size + tile_size / 2,
{
    lemma_global_split_joins(global, size);
    let c = global_to_chunk(global, size);
    let t = global_to_tile(global, size);
    let h = (size / 2) as int;
    assert(c * (size as int * tile_size as int) + (t - h) * tile_size == (c * size + t - h)
        * tile_size) by (nonlinear_arith);
}


/// The global coordinate under a world position always fits an `i32`: it is
/// the position divided by the tile size, measured from the tile's negative
/// edge where the chunk size is even and from its centre where it is odd.
pub proof fn lemma_world_to_global_fits(pos: int, size: u32, tile_size: u32)
    requires
        size > 0,
        tile_size > 0,
        fits_i32(pos),
    ensures
        world_to_global(pos, size, tile_size) == (pos + (size % 2) * (tile_size / 2)) / (
        tile_size as int),
        fits_i32(world_to_global(pos, size, tile_size)),
{
    lemma_world_to_global_closed_form(pos, size, tile_size);
    let ts = tile_size as int;
    let k = (size / 2) as int;
    let e = extent(size, tile_size);
    if size % 2 == 0 {
        assert(e == (k * ts) * 2) by (nonlinear_arith)
            requires
                e == size as int * ts,
                size as int == 2 * k,
        ;
        lemma_div_mod_shift(0, k * ts, 2);
        assert(e / 2 == k * ts);
        lemma_div_mod_shift(pos, k, ts);
        let q = pos / ts;
        lemma_fundamental_div_mod(pos, ts);
        lemma_mod_bound(pos, ts);
        assert(q * ts == ts * q) by (nonlinear_arith);
        lemma_centered_quotient_fits(pos, 0, ts, q, pos % ts);
    } else {
        assert(e == ts + (k * ts) * 2) by (nonlinear_arith)
            requires
                e == size as int * ts,
                size as int == 2 * k + 1,
        ;
        lemma_div_mod_shift(ts, k * ts, 2);
        assert(e / 2 == ts / 2 + k * ts);
        lemma_div_mod_shift(pos + ts / 2, k, ts);
        let q = (pos + ts / 2) / ts;
        lemma_fundamental_div_mod(pos + ts / 2, ts);
        lemma_mod_bound(pos + ts / 2, ts);
        assert(q * ts == ts * q) by (nonlinear_arith);
        assert((size % 2) * (tile_size / 2) == ts / 2) by (nonlinear_arith)
            requires
                size % 2 == 1,
                (tile_size / 2) as int == ts / 2,
        ;
        lemma_centered_quotient_fits(pos, ts / 2, ts, q, (pos + ts / 2) % ts);
    }
}

fn axis_chunk_to_world(chunk: i32, size: u32, tile_size: u32) -> (pos: i128)
    ensures
        pos == chunk_to_world(chunk as int, size, tile_size),
        -0x1_0000_0000_0000_0000_0000_0000 <= pos <= 0x1_0000_0000_0000_0000_0000_0000,
{
    let e: i128 = extent_of(size, tile_size);
    mul_wide(chunk as i128, e)
}

fn axis_world_to_chunk(pos: i32, size: u32, tile_size: u32) -> (chunk: i32)
    requires
        size > 0,
        tile_size > 0,
    ensures
        chunk == world_to_chunk(pos as int, size, tile_size),
{
    let e: i128 = extent_of(size, tile_size);
    let a: i128 = pos as i128 + e / 2;
    let (q, r) = div_floor(a, e);
    proof {
        lemma_fundamental_div_mod(a as int, e as int);
        lemma_mod_bound(a as int, e as int);
        assert(q * e == e * q) by (nonlinear_arith);
        lemma_centered_quotient_fits(pos as int, (e / 2) as int, e as int, q as int, r as int);
    }
    q as i32
}

fn axis_world_to_tile(pos: i32, size: u32, tile_size: u32) -> (tile: u32)
    requires
        size > 0,
        tile_size > 0,
    ensures
        tile == world_to_tile(pos as int, size, tile_size),
        tile < size,
{
    let e: i128 = extent_of(size, tile_size);
    let a: i128 = pos as i128 + e / 2;
    let (_q, m) = div_floor(a, e);
    proof {
        lemma_mod_bound(a as int, e as int);
        lemma_div_nested(a as int, size as int, tile_size as int);
    }
    let t: i128 = m / (tile_size as i128);
    t as u32
}

fn axis_tile_to_global(tile: u32, chunk: i32, size: u32) -> (global: i128)
    ensures
        global == tile_to_global(tile as int, chunk as int, size),
        -0x1_0000_0000_0000_0000_0000 < global < 0x1_0000_0000_0000_0000_0000,
{
    let p: i128 = mul_wide(chunk as i128, size as i128);
    proof {
        assert(-0x8000_0000_0000_0000 <= chunk as int * size as int <= 0x8000_0000_0000_0000)
            by (nonlinear_arith)
            requires
                -0x8000_0000 <= chunk as int <= 0x8000_0000,
                0 <= size as int <= 0x1_0000_0000,
        ;
    }
    p + tile as i128 - (size / 2) as i128
}

fn axis_global_to_tile(global: i32, size: u32) -> (tile: u32)
    requires
        size > 0,
    ensures
        tile == global_to_tile(global as int, size),
        tile < size,
{
    let a: i128 = global as i128 + (size / 2) as i128;
    let (_q, r) = div_floor(a, size as i128);
    proof {
        lemma_mod_bound(a as int, size as int);
    }
    r as u32
}

fn axis_global_to_chunk(global: i32, size: u32) -> (chunk: i32)
    requires
        size > 0,
    ensures
        chunk == global_to_chunk(global as int, size),
{
    let a: i128 = global as i128 + (size / 2) as i128;
    let (q, r) = div_floor(a, size as i128);
    proof {
        lemma_fundamental_div_mod(a as int, size as int);
        lemma_mod_bound(a as int, size as int);
        assert(q * size == size * q) by (nonlinear_arith);
        lemma_centered_quotient_fits(
            global as int,
            (size / 2) as int,
            size as int,
            q as int,
            r as int,
        );
    }
    q as i32
}

fn axis_tile_to_world_off(tile: u32, size: u32, tile_size: u32) -> (off: i128)
    ensures
        off == tile_to_world_off(tile as int, size, tile_size),
        -0x1_0000_0000_0000_0000_0000_0000 < off < 0x1_0000_0000_0000_0000_0000_0000,
{
    let d: i128 = tile as i128 - (size / 2) as i128;
    let p: i128 = mul_wide(d, tile_size as i128);
    proof {
        assert(-0x1_0000_0000_0000_0000 <= d * tile_size as int <= 0x1_0000_0000_0000_0000)
            by (nonlinear_arith)
            requires
                -0x1_0000_0000 <= d <= 0x1_0000_0000,
                0 <= tile_size as int <= 0x1_0000_0000,
        ;
    }
    p + (tile_size / 2) as i128
}

fn fits(v: i128) -> (b: bool)
    ensures
        b == fits_i32(v as int),
{
    -0x8000_0000 <= v && v <= 0x7fff_ffff
}

/// Whether the centre of the chunk is a world position.
pub fn has_world_pos(chunk_coord: &IVec2, size: &UVec2, tile_size: &UVec2) -> (b: bool)
    ensures
        b == (fits_i32(chunk_to_world(chunk_coord.x as int, size.x, tile_size.x)) && fits_i32(
            chunk_to_world(chunk_coord.y as int, size.y, tile_size.y),
        )),
{
    fits(axis_chunk_to_world(chunk_coord.x, size.x, tile_size.x)) && fits(
        axis_chunk_to_world(chunk_coord.y, size.y, tile_size.y),
    )
}

/// Whether the tile of the chunk has a global coordinate.
pub fn has_global_coord(tile_coord: &UVec2, chunk_coord: &IVec2, size: &UVec2) -> (b: bool)
    ensures
        b == (fits_i32(tile_to_global(tile_coord.x as int, chunk_coord.x as int, size.x))
            && fits_i32(tile_to_global(tile_coord.y as int, chunk_coord.y as int, size.y))),
{
    fits(axis_tile_to_global(tile_coord.x, chunk_coord.x, size.x)) && fits(
        axis_tile_to_global(tile_coord.y, chunk_coord.y, size.y),
    )
}

/// Whether the offset of the tile's centre from the centre of its chunk is
/// a world position.
pub fn has_world_off(tile_coord: &UVec2, size: &UVec2, tile_size: &UVec2) -> (b: bool)
    ensures
        b == (fits_i32(tile_to_world_off(tile_coord.x as int, size.x, tile_size.x)) && fits_i32(
            tile_to_world_off(tile_coord.y as int, size.y, tile_size.y),
        )),
{
    fits(axis_tile_to_world_off(tile_coord.x, size.x, tile_size.x)) && fits(
        axis_tile_to_world_off(tile_coord.y, size.y, tile_size.y),
    )
}

/// Convert a chunk coordinate to the world position of the chunk's centre.
pub fn chunk_coord_to_world_pos(chunk_coord: &IVec2, size: &UVec2, tile_size: &UVec2) -> (world_pos:
    IVec2)
    requires
        fits_i32(chunk_to_world(chunk_coord.x as int, size.x, tile_size.x)),
        fits_i32(chunk_to_world(chunk_coord.y as int, size.y, tile_size.y)),
    ensures
        world_pos.x == chunk_to_world(chunk_coord.x as int, size.x, tile_size.x),
        world_pos.y == chunk_to_world(chunk_coord.y as int, size.y, tile_size.y),
{
    let x: i128 = axis_chunk_to_world(chunk_coord.x, size.x, tile_size.x);
    let y: i128 = axis_chunk_to_world(chunk_coord.y, size.y, tile_size.y);
    IVec2 { x: x as i32, y: y as i32 }
}

/// Convert a world position to the coordinate of the chunk that holds it.
/// The division rounds toward negative infinity on both axes.
pub fn world_pos_to_chunk_coord(world_pos: &IVec2, size: &UVec2, tile_size: &UVec2) -> (chunk_coord:
    IVec2)
    requires
        size.x > 0,
        size.y > 0,
        tile_size.x > 0,
        tile_size.y > 0,
    ensures
        chunk_coord.x == world_to_chunk(world_pos.x as int, size.x, tile_size.x),
        chunk_coord.y == world_to_chunk(world_pos.y as int, size.y, tile_size.y),
{
    IVec2 {
        x: axis_world_to_chunk(world_pos.x, size.x, tile_size.x),
        y: axis_world_to_chunk(world_pos.y, size.y, tile_size.y),
    }
}

/// Convert a world position to the coordinate, inside its chunk, of the tile
/// that holds it.
pub fn world_pos_to_tile_coord(world_pos: &IVec2, size: &UVec2, tile_size: &UVec2) -> (tile_coord:
    UVec2)
    requires
        size.x > 0,
        size.y > 0,
        tile_size.x > 0,
        tile_size.y > 0,
    ensures
        tile_coord.x == world_to_tile(world_pos.x as int, size.x, tile_size.x),
        tile_coord.y == world_to_tile(world_pos.y as int, size.y, tile_size.y),
        tile_coord.x < size.x,
        tile_coord.y < size.y,
{
    UVec2 {
        x: axis_world_to_tile(world_pos.x, size.x, tile_size.x),
        y: axis_world_to_tile(world_pos.y, size.y, tile_size.y),
    }
}

/// Convert a tile coordinate to a global tile coordinate, by taking into
/// account the chunk.
pub fn tile_coord_to_global_coord(tile_coord: &UVec2, chunk_coord: &IVec2, size: &UVec2) -> (global_coord:
    IVec2)
    requires
        fits_i32(tile_to_global(tile_coord.x as int, chunk_coord.x as int, size.x)),
        fits_i32(tile_to_global(tile_coord.y as int, chunk_coord.y as int, size.y)),
    ensures
        global_coord.x == tile_to_global(tile_coord.x as int, chunk_coord.x as int, size.x),
        global_coord.y == tile_to_global(tile_coord.y as int, chunk_coord.y as int, size.y),
{
    let x: i128 = axis_tile_to_global(tile_coord.x, chunk_coord.x, size.x);
    let y: i128 = axis_tile_to_global(tile_coord.y, chunk_coord.y, size.y);
    IVec2 { x: x as i32, y: y as i32 }
}

/// Convert a global tile coordinate to the coordinate of the tile inside its
/// chunk. The remainder is never negative.
pub fn global_coord_to_tile_coord(global_coord: &IVec2, size: &UVec2) -> (tile_coord: UVec2)
    requires
        size.x > 0,
        size.y > 0,
    ensures
        tile_coord.x == global_to_tile(global_coord.x as int, size.x),
        tile_coord.y == global_to_tile(global_coord.y as int, size.y),
        tile_coord.x < size.x,
        tile_coord.y < size.y,
{
    UVec2 {
        x: axis_global_to_tile(global_coord.x, size.x),
        y: axis_global_to_tile(global_coord.y, size.y),
    }
}

/// Convert a global tile coordinate to the coordinate of the chunk that holds it.
pub fn global_coord_to_chunk_coord(global_coord: &IVec2, size: &UVec2) -> (chunk_coord: IVec2)
    requires
        size.x > 0,
        size.y > 0,
    ensures
        chunk_coord.x == global_to_chunk(global_coord.x as int, size.x),
        chunk_coord.y == global_to_chunk(global_coord.y as int, size.y),
{
    IVec2 {
        x: axis_global_to_chunk(global_coord.x, size.x),
        y: axis_global_to_chunk(global_coord.y, size.y),
    }
}

/// Convert a tile coordinate to the offset of the tile's centre from the
/// centre of its chunk.
pub fn tile_coord_to_world_off(tile_coord: &UVec2, size: &UVec2, tile_size: &UVec2) -> (offset:
    IVec2)
    requires
        fits_i32(tile_to_world_off(tile_coord.x as int, size.x, tile_size.x)),
        fits_i32(tile_to_world_off(tile_coord.y as int, size.y, tile_size.y)),
    ensures
        offset.x == tile_to_world_off(tile_coord.x as int, size.x, tile_size.x),
        offset.y == tile_to_world_off(tile_coord.y as int, size.y, tile_size.y),
{
    let x: i128 = axis_tile_to_world_off(tile_coord.x, size.x, tile_size.x);
    let y: i128 = axis_tile_to_world_off(tile_coord.y, size.y, tile_size.y);
    IVec2 { x: x as i32, y: y as i32 }
}

/// Convert a world position to the global coordinate of the tile that holds it.
pub fn world_pos_to_global_coord(world_pos: &IVec2, size: &UVec2, tile_size: &UVec2) -> (global_coord:
    IVec2)
    requires
        size.x > 0,
        size.y > 0,
        tile_size.x > 0,
        tile_size.y > 0,
    ensures
        global_coord.x == world_to_global(world_pos.x as int, size.x, tile_size.x),
        global_coord.y == world_to_global(world_pos.y as int, size.y, tile_size.y),
{
    let chunk_coord = world_pos_to_chunk_coord(world_pos, size, tile_size);
    let coord = world_pos_to_tile_coord(world_pos, size, tile_size);
    proof {
        lemma_world_to_global_fits(world_pos.x as int, size.x, tile_size.x);
        lemma_world_to_global_fits(world_pos.y as int, size.y, tile_size.y);
    }
    tile_coord_to_global_coord(&coord, &chunk_coord, size)
}

fn axis_global_to_world(global: i32, size: u32, tile_size: u32) -> (pos: i128)
    requires
        size > 0,
    ensures
        pos == global_to_world(global as int, size, tile_size),
{
    let chunk: i32 = axis_global_to_chunk(global, size);
    let tile: u32 = axis_global_to_tile(global, size);
    axis_chunk_to_world(chunk, size, tile_size) + axis_tile_to_world_off(tile, size, tile_size)
}

/// Whether the centre of the tile with the global coordinate is a world position.
pub fn global_has_world_pos(global_coord: &IVec2, size: &UVec2, tile_size: &UVec2) -> (b: bool)
    requires
        size.x > 0,
        size.y > 0,
    ensures
        b == (fits_i32(global_to_world(global_coord.x as int, size.x, tile_size.x)) && fits_i32(
            global_to_world(global_coord.y as int, size.y, tile_size.y),
        )),
{
    fits(axis_global_to_world(global_coord.x, size.x, tile_size.x)) && fits(
        axis_global_to_world(global_coord.y, size.y, tile_size.y),
    )
}

/// Convert a global tile coordinate to the world position of the tile's centre.
pub fn global_coord_to_world_pos(global_coord: &IVec2, size: &UVec2, tile_size: &UVec2) -> (world_pos:
    IVec2)
    requires
        size.x > 0,
        size.y > 0,
        fits_i32(global_to_world(global_coord.x as int, size.x, tile_size.x)),
        fits_i32(global_to_world(global_coord.y as int, size.y, tile_size.y)),
    ensures
        world_pos.x == global_to_world(global_coord.x as int, size.x, tile_size.x),
        world_pos.y == global_to_world(global_coord.y as int, size.y, tile_size.y),
{
    let x: i128 = axis_global_to_world(global_coord.x, size.x, tile_size.x);
    let y: i128 = axis_global_to_world(global_coord.y, size.y, tile_size.y);
    IVec2 { x: x as i32, y: y as i32 }
}

/// Whether the centre of the tile that holds the world position is a world
/// position.
pub fn can_snap_to_tile(world_pos: &IVec2, size: &UVec2, tile_size: &UVec2) -> (b: bool)
    requires
        size.x > 0,
        size.y > 0,
        tile_size.x > 0,
        tile_size.y > 0,
    ensures
        b == (fits_i32(
            global_to_world(
                world_to_global(world_pos.x as int, size.x, tile_size.x),
                size.x,
                tile_size.x,
            ),
        ) && fits_i32(
            global_to_world(
                world_to_global(world_pos.y as int, size.y, tile_size.y),
                size.y,
                tile_size.y,
            ),
        )),
{
    let tile_coord = world_pos_to_global_coord(world_pos, size, tile_size);
    global_has_world_pos(&tile_coord, size, tile_size)
}

/// Move a world position to the centre of the tile that holds it.
pub fn snap_to_tile(world_pos: &IVec2, size: &UVec2, tile_size: &UVec2) -> (tile_pos: IVec2)
    requires
        size.x > 0,
        size.y > 0,
        tile_size.x > 0,
        tile_size.y > 0,
        fits_i32(
            global_to_world(
                world_to_global(world_pos.x as int, size.x, tile_size.x),
                size.x,
                tile_size.x,
            ),
        ),
        fits_i32(
            global_to_world(
                world_to_global(world_pos.y as int, size.y, tile_size.y),
                size.y,
                tile_size.y,
            ),
        ),
    ensures
        tile_pos.x == global_to_world(
            world_to_global(world_pos.x as int, size.x, tile_size.x),
            size.x,
            tile_size.x,
        ),
        tile_pos.y == global_to_world(
            world_to_global(world_pos.y as int, size.y, tile_size.y),
            size.y,
            tile_size.y,
        ),
{
    let tile_coord = world_pos_to_global_coord(world_pos, size, tile_size);
    global_coord_to_world_pos(&tile_coord, size, tile_size)
}


/// Whether the tile at `index` of a row-major array has a tile coordinate.
pub fn has_tile_coord(index: usize, size: &UVec2) -> (b: bool)
    requires
        size.x > 0,
    ensures
        b == (index / (size.x as usize) <= u32::MAX),
{
    index / size.x as usize <= u32::MAX as usize
}

/// Whether the tile has an index in a row-major array.
pub fn has_index(tile_coord: &UVec2, size: &UVec2) -> (b: bool)
    ensures
        b == (tile_coord.y * size.x + tile_coord.x <= usize::MAX),
{
    proof {
        let y = tile_coord.y as int;
        let w = size.x as int;
        assert(0 <= y * w <= 0xffff_ffff * 0xffff_ffff) by (nonlinear_arith)
            requires
                0 <= y <= 0xffff_ffff,
                0 <= w <= 0xffff_ffff,
        ;
    }
    let index: u64 = tile_coord.y as u64 * size.x as u64 + tile_coord.x as u64;
    index <= usize::MAX as u64
}

/// Convert a tile index to a tile coordinate. Tiles are counted row by row,
/// and the tile at the negative corner is (0, 0).
pub fn index_to_tile_coord(index: usize, size: &UVec2) -> (tile_coord: UVec2)
    requires
        size.x > 0,
        index / (size.x as usize) <= u32::MAX,
    ensures
        tile_coord.x == index % (size.x as usize),
        tile_coord.y == index / (size.x as usize),
{
    let x: usize = index % size.x as usize;
    let y: usize = index / size.x as usize;
    UVec2 { x: x as u32, y: y as u32 }
}

/// Convert a tile coordinate to the index of the tile in a row-major array.
pub fn tile_coord_to_index(tile_coord: &UVec2, size: &UVec2) -> (index: usize)
    requires
        tile_coord.y * size.x + tile_coord.x <= usize::MAX,
    ensures
        index == tile_coord.y * size.x + tile_coord.x,
{
    proof {
        let y = tile_coord.y as int;
        let w = size.x as int;
        assert(0 <= y * w <= 0xffff_ffff * 0xffff_ffff) by (nonlinear_arith)
            requires
                0 <= y <= 0xffff_ffff,
                0 <= w <= 0xffff_ffff,
        ;
    }
    let index: u64 = tile_coord.y as u64 * size.x as u64 + tile_coord.x as u64;
    index as usize
}

/// A tile index converts to a tile coordinate inside the row, and that
/// coordinate converts to the index again.
pub proof fn lemma_index_round_trip(index: int, width: int)
    requires
        0 <= index,
        0 < width,
    ensures
        0 <= index % width < width,
        (index / width) * width + index % width == index,
{
    lemma_fundamental_div_mod(index, width);
    lemma_mod_bound(index, width);
    assert((index / width) * width == width * (index / width)) by (nonlinear_arith);
}

/// A tile coordinate inside the row converts to an index, and that index
/// converts to the tile coordinate again.
pub proof fn lemma_tile_coord_round_trip(x: int, y: int, width: int)
    requires
        0 <= x < width,
        0 <= y,
    ensures
        (y * width + x) % width == x,
        (y * width + x) / width == y,
{
    lemma_fundamental_div_mod_converse(y * width + x, width, y, x);
}

/// How many chunks an area of `tiles` tiles reaches in each direction: the
/// tiles divided by the longer side of a chunk, rounded up.
pub open spec fn area_radius(tiles: u32, size: UVec2) -> int {
    let side = if size.x >= size.y { size.x as int } else { size.y as int };
    (tiles + side - 1) / side
}

/// The chunk coordinates of the square of half-width `radius` around
/// `center`, row by row from the negative corner.
pub open spec fn square_around(center: IVec2, radius: int) -> Seq<IVec2> {
    let side = 2 * radius + 1;
    Seq::new(
        (side * side) as nat,
        |i: int| IVec2 { x: (center.x - radius + i % side) as i32, y: (center.y - radius + i / side) as i32 },
    )
}

/// Whether the square of half-width `radius` around `center` can be listed:
/// its corners are chunk coordinates and its cells can be counted.
pub open spec fn square_fits(center: IVec2, radius: int) -> bool {
    &&& 0 <= radius
    &&& fits_i32(center.x - radius)
    &&& fits_i32(center.x + radius)
    &&& fits_i32(center.y - radius)
    &&& fits_i32(center.y + radius)
    &&& (2 * radius + 1) * (2 * radius + 1) <= usize::MAX
}

/// Whether the square of half-width `radius` around `center` can be listed.
pub fn can_list_square(center: &IVec2, radius: i64) -> (b: bool)
    ensures
        b == square_fits(*center, radius as int),
{
    if radius < 0 || radius > 0xffff_ffff {
        proof {
            if radius > 0xffff_ffff {
                assert(!fits_i32(center.x + radius));
            }
        }
        return false;
    }
    let side: u128 = 2 * radius as u128 + 1;
    proof {
        assert(0 <= side * side <= 0x2_0000_0000 * 0x2_0000_0000) by (nonlinear_arith)
            requires
                0 <= side <= 0x2_0000_0000,
        ;
    }
    fits(center.x as i128 - radius as i128) && fits(center.x as i128 + radius as i128) && fits(
        center.y as i128 - radius as i128,
    ) && fits(center.y as i128 + radius as i128) && side * side <= usize::MAX as u128
}

/// The chunk coordinates of the square of half-width `radius` around `center`.
pub fn chunk_coords_around(center: &IVec2, radius: i32) -> (coords: Vec<IVec2>)
    requires
        square_fits(*center, radius as int),
    ensures
        coords@ == square_around(*center, radius as int),
{
    let side: i64 = 2 * radius as i64 + 1;
    let mut coords: Vec<IVec2> = Vec::new();
    let mut row: i64 = 0;
    while row < side
        invariant
            square_fits(*center, radius as int),
            side == 2 * radius + 1,
            0 <= row <= side,
            coords@.len() == row * side,
            forall|i: int|
                0 <= i < coords@.len() ==> coords@[i] == square_around(*center, radius as int)[i],
        decreases side - row,
    {
        let mut col: i64 = 0;
        while col < side
            invariant
                square_fits(*center, radius as int),
                side == 2 * radius + 1,
                0 <= row < side,
                0 <= col <= side,
                coords@.len() == row * side + col,
                forall|i: int|
                    0 <= i < coords@.len() ==> coords@[i] == square_around(
                        *center,
                        radius as int,
                    )[i],
            decreases side - col,
        {
            proof {
                lemma_fundamental_div_mod_converse(
                    row * side + col,
                    side as int,
                    row as int,
                    col as int,
                );
                assert(row * side + col < side * side) by (nonlinear_arith)
                    requires
                        0 <= row < side,
                        0 <= col < side,
                ;
            }
            let x: i64 = center.x as i64 - radius as i64 + col;
            let y: i64 = center.y as i64 - radius as i64 + row;
            coords.push(IVec2 { x: x as i32, y: y as i32 });
            col = col + 1;
        }
        proof {
            assert((row + 1) * side == row * side + side) by (nonlinear_arith);
        }
        row = row + 1;
    }
    coords
}

/// Whether the chunks that an area of `tiles` tiles around a world position
/// touches can be listed.
pub fn can_list_area(world_pos: &IVec2, tiles: u32, size: &UVec2, tile_size: &UVec2) -> (b: bool)
    requires
        size.x > 0,
        size.y > 0,
        tile_size.x > 0,
        tile_size.y > 0,
    ensures
        b == square_fits(
            IVec2 {
                x: world_to_chunk(world_pos.x as int, size.x, tile_size.x) as i32,
                y: world_to_chunk(world_pos.y as int, size.y, tile_size.y) as i32,
            },
            area_radius(tiles, *size),
        ),
{
    let chunk_coord = world_pos_to_chunk_coord(world_pos, size, tile_size);
    let side: u64 = if size.x >= size.y { size.x as u64 } else { size.y as u64 };
    let chunk_radius: u64 = (tiles as u64 + side - 1) / side;
    can_list_square(&chunk_coord, chunk_radius as i64)
}

/// The chunks that an area of `tiles` tiles around a world position touches.
pub fn world_area_to_chunk_coords(world_pos: &IVec2, tiles: u32, size: &UVec2, tile_size: &UVec2) -> (coords:
    Vec<IVec2>)
    requires
        size.x > 0,
        size.y > 0,
        tile_size.x > 0,
        tile_size.y > 0,
        square_fits(
            IVec2 {
                x: world_to_chunk(world_pos.x as int, size.x, tile_size.x) as i32,
                y: world_to_chunk(world_pos.y as int, size.y, tile_size.y) as i32,
            },
            area_radius(tiles, *size),
        ),
    ensures
        coords@ == square_around(
            IVec2 {
                x: world_to_chunk(world_pos.x as int, size.x, tile_size.x) as i32,
                y: world_to_chunk(world_pos.y as int, size.y, tile_size.y) as i32,
            },
            area_radius(tiles, *size),
        ),
{
    let chunk_coord = world_pos_to_chunk_coord(world_pos, size, tile_size);
    let side: u64 = if size.x >= size.y { size.x as u64 } else { size.y as u64 };
    let chunk_radius: u64 = (tiles as u64 + side - 1) / side;
    chunk_coords_around(&chunk_coord, chunk_radius as i32)
}

} // verus!
