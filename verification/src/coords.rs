//! Coordinates and the arithmetic that ties block, chunk and cell positions together.
//!
//! A chunk is a column of 16 x 384 x 16 cells. Cell `(x, y, z)` of a chunk, with
//! `x, z` in `0..16` and `y` in `0..384`, lives at index `z * 6144 + y * 16 + x`
//! of the chunk's array. A block at absolute `(gx, gy, gz)` belongs to the chunk
//! at `(floor(gx / 16), floor(gz / 16))`.

use vstd::prelude::*;

verus! {

/// Cells along each horizontal axis of a chunk.
pub const CHUNK_WIDTH: usize = 16;

/// Cells along the vertical axis of a chunk.
pub const CHUNK_HEIGHT: usize = 384;

/// Cells in one horizontal row of layers, i.e. the stride of the local `z` axis.
pub const CHUNK_SLAB: usize = 6144;

/// Cells in a whole chunk: `16 * 384 * 16`.
pub const CHUNK_CELLS: usize = 98304;

/// Chunks along each axis of a region.
pub const REGION_WIDTH: usize = 32;

/// A horizontal position: of a region, or of a chunk.
#[derive(Clone, Copy, Debug, PartialEq, Eq, Hash, Structural)]
pub struct Vec2 {
    pub x: i32,
    pub z: i32,
}

impl Vec2 {
    pub fn new(x: i32, z: i32) -> (v: Vec2)
        ensures
            v.x == x,
            v.z == z,
    {
        Vec2 { x, z }
    }
}

/// An absolute block position.
#[derive(Clone, Copy, Debug, PartialEq, Eq, Hash, Structural)]
pub struct Vec3 {
    pub x: i32,
    pub y: i32,
    pub z: i32,
}

impl Vec3 {
    pub fn new(x: i32, y: i32, z: i32) -> (v: Vec3)
        ensures
            v.x == x,
            v.y == y,
            v.z == z,
    {
        Vec3 { x, y, z }
    }
}

/// Index of the cell at local `(x, y, z)` in a chunk's array.
pub open spec fn cell_index(x: int, y: int, z: int) -> int {
    z * 6144 + y * 16 + x
}

/// Local `x` of the cell at index `i`.
pub open spec fn cell_x(i: int) -> int {
    i % 16
}

/// Local `y` of the cell at index `i`.
pub open spec fn cell_y(i: int) -> int {
    (i % 6144) / 16
}

/// Local `z` of the cell at index `i`.
pub open spec fn cell_z(i: int) -> int {
    i / 6144
}

/// Whether `(x, y, z)` names a cell of a chunk.
pub open spec fn is_local(x: int, y: int, z: int) -> bool {
    0 <= x < 16 && 0 <= y < 384 && 0 <= z < 16
}

/// Chunk coordinate that holds the block coordinate `g`: the floor of `g / 16`.
pub open spec fn chunk_of(g: int) -> int {
    g / 16
}

/// Offset of the block coordinate `g` inside its chunk, in `0..16`.
pub open spec fn local_of(g: int) -> int {
    g % 16
}

/// Half of `d`, rounded toward zero.
pub open spec fn half_toward_zero(d: int) -> int {
    if d >= 0 {
        d / 2
    } else {
        -((-d) / 2)
    }
}

/// The point of the interval from `lo` to `hi` that output coordinates are
/// measured from: `lo + (hi - lo) / 2`, the division rounding toward zero.
pub open spec fn centre(lo: int, hi: int) -> int {
    lo + half_toward_zero(hi - lo)
}

/// Whether a chunk coordinate passes the optional inclusive bounds. Each axis is
/// tested on its own.
pub open spec fn chunk_in_bounds(cx: int, cz: int, min: Option<Vec2>, max: Option<Vec2>) -> bool {
    &&& min matches Some(lo) ==> lo.x <= cx && lo.z <= cz
    &&& max matches Some(hi) ==> cx <= hi.x && cz <= hi.z
}

/// Whether a block position lies in the inclusive box from `min` to `max`.
pub open spec fn in_box(gx: int, gy: int, gz: int, min: Vec3, max: Vec3) -> bool {
    &&& min.x <= gx <= max.x
    &&& min.y <= gy <= max.y
    &&& min.z <= gz <= max.z
}

/// The three local coordinates of a cell index are a cell, and give the index back.
pub proof fn lemma_cell_coords(i: int)
    requires
        0 <= i < 98304,
    ensures
        is_local(cell_x(i), cell_y(i), cell_z(i)),
        cell_index(cell_x(i), cell_y(i), cell_z(i)) == i,
{
}

/// A cell's index is in range, and gives the three local coordinates back.
pub proof fn lemma_cell_index(x: int, y: int, z: int)
    requires
        is_local(x, y, z),
    ensures
        0 <= cell_index(x, y, z) < 98304,
        cell_x(cell_index(x, y, z)) == x,
        cell_y(cell_index(x, y, z)) == y,
        cell_z(cell_index(x, y, z)) == z,
{
}

/// Splits a cell index into its local `(x, y, z)`.
pub fn cell_coords(i: usize) -> (c: (usize, usize, usize))
    requires
        i < CHUNK_CELLS,
    ensures
        c.0 == cell_x(i as int),
        c.1 == cell_y(i as int),
        c.2 == cell_z(i as int),
        is_local(c.0 as int, c.1 as int, c.2 as int),
{
    let z: usize = i / CHUNK_SLAB;
    let rest: usize = i % CHUNK_SLAB;
    let y: usize = rest / CHUNK_WIDTH;
    let x: usize = rest % CHUNK_WIDTH;
    (x, y, z)
}

/// Chunk coordinate of a block coordinate, rounding toward negative infinity.
pub fn block_to_chunk(g: i32) -> (c: i32)
    ensures
        c == chunk_of(g as int),
{
    let shifted: i64 = g as i64 + 2147483648;
    let q: i64 = shifted / 16;
    (q - 134217728) as i32
}

/// The origin that output coordinates are measured from along one axis, for
/// `lo` and `hi` that are block coordinates or chunk coordinates.
pub fn centre_of(lo: i64, hi: i64) -> (c: i64)
    requires
        -68719476736 <= lo <= 68719476735,
        -68719476736 <= hi <= 68719476735,
    ensures
        c == centre(lo as int, hi as int),
        lo <= hi ==> lo <= c <= hi,
        hi <= lo ==> hi <= c <= lo,
{
    let d: i64 = hi - lo;
    if d >= 0 {
        lo + d / 2
    } else {
        lo - (-d) / 2
    }
}

/// Whether a chunk coordinate passes the optional inclusive bounds.
pub fn chunk_passes(cx: i64, cz: i64, min: &Option<Vec2>, max: &Option<Vec2>) -> (b: bool)
    ensures
        b == chunk_in_bounds(cx as int, cz as int, *min, *max),
{
    let above: bool = match min {
        Some(lo) => lo.x as i64 <= cx && lo.z as i64 <= cz,
        None => true,
    };
    let below: bool = match max {
        Some(hi) => cx <= hi.x as i64 && cz <= hi.z as i64,
        None => true,
    };
    above && below
}

} // verus!
