//! Cell coordinates of the uniform grid.
//!
//! The plane is cut into square cells of edge length [`CELL_SIZE`]. A world
//! coordinate belongs to the cell whose index is the floor of the coordinate
//! divided by the cell size, so cells left of and below the origin have
//! negative indices. A cell coordinate can be folded into one integer with a
//! row stride; the fold is exact (no wraparound) in 64-bit signed arithmetic.

use vstd::prelude::*;
use vstd::arithmetic::div_mod::lemma_fundamental_div_mod_converse;

verus! {

/// Edge length of one grid cell, in world units. A power of two.
pub const CELL_SIZE: i32 = 256;

/// Base-two logarithm of [`CELL_SIZE`]: the shift that turns a world
/// coordinate into a cell coordinate.
pub const CELL_SIZE_LOG2: i32 = 8;

/// The cell coordinate that holds the world coordinate `v`: the floor of
/// `v / CELL_SIZE`, for negative `v` too.
pub open spec fn cell_coord_of(v: int) -> int {
    v / (CELL_SIZE as int)
}

/// The world coordinate at which cell `c` begins.
pub open spec fn cell_origin_of(c: int) -> int {
    c * (CELL_SIZE as int)
}

/// The cell coordinate is the one cell whose span `[origin, origin + CELL_SIZE)`
/// holds the world coordinate; hence a negative world coordinate lies in a
/// negative cell, and the coordinate just left of the origin lies in cell `-1`.
pub proof fn lemma_cell_coord_is_floor(v: int, c: int)
    ensures
        cell_origin_of(cell_coord_of(v)) <= v < cell_origin_of(cell_coord_of(v)) + CELL_SIZE,
        cell_origin_of(c) <= v < cell_origin_of(c) + CELL_SIZE ==> cell_coord_of(v) == c,
        v < 0 ==> cell_coord_of(v) < 0,
        cell_coord_of(-1) == -1,
        cell_coord_of(cell_origin_of(c)) == c,
{
}

/// The cell coordinate of a world coordinate, by an arithmetic right
/// shift: it rounds toward negative infinity, never toward zero.
pub fn cell_coord(v: i64) -> (c: i64)
    ensures
        c == cell_coord_of(v as int),
        cell_origin_of(c as int) <= v < cell_origin_of(c as int) + CELL_SIZE,
{
    let c: i64 = v >> CELL_SIZE_LOG2;
    assert(v >> 8 == v / 256) by (bit_vector);
    c
}

/// The world coordinate at which a cell begins, by a left shift.
pub fn cell_origin(c: i32) -> (v: i64)
    ensures
        v == cell_origin_of(c as int),
{
    let wide: i64 = c as i64;
    let v: i64 = wide << CELL_SIZE_LOG2;
    assert(wide << 8 == wide * 256) by (bit_vector)
        requires
            -0x8000_0000 <= wide < 0x8000_0000,
    ;
    v
}

/// A cell coordinate: column first, row second.
#[derive(Debug, Clone, Copy, Hash, PartialEq, Eq, Structural)]
pub struct Pair(pub i32, pub i32);

impl Pair {
    /// The row-major fold of this cell coordinate with row stride
    /// `grid_width`: `row * grid_width + column`. Cells whose columns differ
    /// by a multiple of the stride, in rows that make up for it, share an
    /// index.
    pub open spec fn flattened(self, grid_width: int) -> int {
        self.1 * grid_width + self.0
    }

    /// The cell coordinate that a flattened index stands for when columns
    /// run from zero up to the stride: the column is the remainder and the
    /// row the floor of the quotient, each cut to 32 bits.
    pub open spec fn unflattened(index: int, grid_width: int) -> Pair {
        Pair((index % grid_width) as i32, (index / grid_width) as i32)
    }

    /// The cell with column `x` and row `y`.
    pub fn from_coords(x: i32, y: i32) -> (p: Self)
        ensures
            p == Pair(x, y),
    {
        Pair(x, y)
    }

    /// Recovers a cell coordinate from a flattened index.
    pub fn from_index(index: i64, grid_width: u32) -> (p: Self)
        requires
            grid_width > 0,
        ensures
            p == Pair::unflattened(index as int, grid_width as int),
    {
        let stride: i64 = grid_width as i64;
        let column: i64;
        let row: i64;
        if index >= 0 {
            column = index % stride;
            row = index / stride;
        } else {
            let below: i64 = -(index + 1);
            column = stride - 1 - below % stride;
            row = -(below / stride) - 1;
            proof {
                let q = below as int / stride as int;
                let r = below as int % stride as int;
                assert(below == stride * q + r) by (nonlinear_arith)
                    requires
                        stride > 0,
                        q == below as int / stride as int,
                        r == below as int % stride as int,
                ;
                assert(index == row * stride + column) by (nonlinear_arith)
                    requires
                        below == stride * q + r,
                        index == -below - 1,
                        row == -q - 1,
                        column == stride - 1 - r,
                ;
                lemma_fundamental_div_mod_converse(
                    index as int,
                    stride as int,
                    row as int,
                    column as int,
                );
            }
        }
        Pair(
            #[verifier::truncate]
            (column as i32),
            #[verifier::truncate]
            (row as i32),
        )
    }

    /// Folds this cell coordinate into one integer with row stride
    /// `grid_width`. The result always fits: no wraparound occurs.
    pub fn to_index(&self, grid_width: u32) -> (index: i64)
        ensures
            index == self.flattened(grid_width as int),
    {
        let row: i64 = self.1 as i64;
        let stride: i64 = grid_width as i64;
        assert(-0x8000_0000 * 0xffff_ffff <= row * stride <= 0x7fff_ffff * 0xffff_ffff)
            by (nonlinear_arith)
            requires
                -0x8000_0000 <= row <= 0x7fff_ffff,
                0 <= stride <= 0xffff_ffff,
        ;
        row * stride + self.0 as i64
    }
}

/// Unfolding undoes folding for every cell whose column lies within the
/// stride, whatever its row.
pub proof fn lemma_unflatten_flatten(p: Pair, grid_width: int)
    requires
        0 <= p.0 < grid_width,
    ensures
        Pair::unflattened(p.flattened(grid_width), grid_width) == p,
{
    lemma_fundamental_div_mod_converse(
        p.flattened(grid_width),
        grid_width,
        p.1 as int,
        p.0 as int,
    );
}

/// Two cells share a flattened index exactly when the difference of their
/// columns is made up for by the difference of their rows.
pub proof fn lemma_flattened_alias(p: Pair, q: Pair, grid_width: int)
    ensures
        p.flattened(grid_width) == q.flattened(grid_width) <==> p.0 - q.0 == (q.1 - p.1)
            * grid_width,
{
    assert((q.1 - p.1) * grid_width == q.1 * grid_width - p.1 * grid_width)
        by (nonlinear_arith);
}

} // verus!
