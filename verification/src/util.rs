//! Geometry utilities: Euclidean distance, cell-index mapping, cell-center
//! lookup, and the wall-bitmask test.

use vstd::prelude::*;
use vstd::arithmetic::div_mod::{lemma_fundamental_div_mod, lemma_mod_bound};

use crate::constants::{DIST_CAP_FX, FX_ONE};
use crate::fixed::{div_euclid_fx, isqrt_u64, spec_isqrt};

verus! {

/// The Euclidean length of the vector `(a, b)`, as a spec value.
pub open spec fn spec_distance(a: int, b: int) -> int {
    spec_isqrt((a * a + b * b) as nat) as int
}

/// The Euclidean length of the fixed-point vector `(a, b)`, rounded down.
pub fn distance(a: i64, b: i64) -> (r: i64)
    requires
        -2 * DIST_CAP_FX <= a <= 2 * DIST_CAP_FX,
        -2 * DIST_CAP_FX <= b <= 2 * DIST_CAP_FX,
    ensures
        r == spec_distance(a as int, b as int),
        0 <= r <= 3 * DIST_CAP_FX,
{
    let ma: u64 = if a < 0 { (-a) as u64 } else { a as u64 };
    let mb: u64 = if b < 0 { (-b) as u64 } else { b as u64 };
    proof {
        assert(ma * ma == (a as int) * (a as int) && ma * ma <= 2147483648 * 2147483648)
            by (nonlinear_arith)
            requires
                ma == (if a < 0 { -(a as int) } else { a as int }),
                ma <= 2147483648,
        ;
        assert(mb * mb == (b as int) * (b as int) && mb * mb <= 2147483648 * 2147483648)
            by (nonlinear_arith)
            requires
                mb == (if b < 0 { -(b as int) } else { b as int }),
                mb <= 2147483648,
        ;
    }
    let s: u64 = ma * ma + mb * mb;
    let r: u64 = isqrt_u64(s);
    proof {
        assert(r * r <= s ==> r <= 3037000500) by (nonlinear_arith)
            requires
                s <= 9223372036854775808,
        ;
    }
    r as i64
}

/// The grid cell holding a fixed-point position, as a spec value.
pub open spec fn spec_cell_index(x: int, y: int, width: int) -> int {
    x / (FX_ONE as int) + (y / (FX_ONE as int)) * width
}

/// Maps a fixed-point position to the index of the cell that holds it.
pub fn get_index(x: i64, y: i64, width: usize, height: usize) -> (i: usize)
    requires
        0 < width <= 256,
        0 < height <= 256,
        0 <= x < width * FX_ONE,
        0 <= y < height * FX_ONE,
    ensures
        i == spec_cell_index(x as int, y as int, width as int),
        i < width * height,
{
    let cx: u64 = (x as u64) / (FX_ONE as u64);
    let cy: u64 = (y as u64) / (FX_ONE as u64);
    proof {
        lemma_fundamental_div_mod(x as int, FX_ONE as int);
        lemma_mod_bound(x as int, FX_ONE as int);
        lemma_fundamental_div_mod(y as int, FX_ONE as int);
        lemma_mod_bound(y as int, FX_ONE as int);
        assert(cx < width && cy < height) by (nonlinear_arith)
            requires
                65536 * (cx as int) <= x as int,
                65536 * (cy as int) <= y as int,
                x < width * 65536,
                y < height * 65536,
        ;
        assert((cx as int) + (cy as int) * width < width * height && (cy as int) * width
            <= 65536) by (nonlinear_arith)
            requires
                cx < width,
                cy < height,
                0 < width,
                width <= 256,
                height <= 256,
        ;
    }
    (cx as usize) + (cy as usize) * width
}

/// The fixed-point center of a cell, as a spec pair.
pub open spec fn spec_cell_center(index: int, width: int) -> (int, int) {
    (
        (index % width) * (FX_ONE as int) + (FX_ONE as int) / 2,
        (index / width) * (FX_ONE as int) + (FX_ONE as int) / 2,
    )
}

/// The fixed-point coordinates of the center of a cell.
pub fn get_center_from_index(index: usize, width: usize, height: usize) -> (c: (i64, i64))
    requires
        0 < width <= 256,
        0 < height <= 256,
        index < width * height,
    ensures
        (c.0 as int, c.1 as int) == spec_cell_center(index as int, width as int),
        0 <= c.0 <= width * FX_ONE,
        0 <= c.1 <= height * FX_ONE,
{
    let col: usize = index % width;
    let row: usize = index / width;
    proof {
        lemma_fundamental_div_mod(index as int, width as int);
        lemma_mod_bound(index as int, width as int);
        assert(row < height) by (nonlinear_arith)
            requires
                width * (row as int) <= index as int,
                index < width * height,
                0 < width,
        ;
        assert((col as int) * 65536 + 32768 <= 256 * 65536 && (row as int) * 65536 + 32768
            <= 256 * 65536) by (nonlinear_arith)
            requires
                col < width <= 256,
                row < height <= 256,
        ;
        assert((col as int) * 65536 <= (width as int) * 65536 - 65536
            && (row as int) * 65536 <= (height as int) * 65536 - 65536) by (nonlinear_arith)
            requires
                col < width,
                row < height,
        ;
    }
    ((col as i64) * FX_ONE + FX_ONE / 2, (row as i64) * FX_ONE + FX_ONE / 2)
}

/// Whether bit `col` of a wall line is set, as a spec value.
pub open spec fn spec_wall_bit(line: u16, col: int) -> bool {
    (line >> (col as u16)) & 1 == 1
}

/// Whether the wall line holding a fixed-point point has its wall bit set
/// there, as a spec value; lookups beyond the mask arrays or the bit width
/// count as walls, and negative coordinates saturate to the first line.
pub open spec fn spec_point_in_wall(d1: int, d2: int, walls: Seq<u16>) -> bool {
    let row = if d1 < 0 { 0 } else { d1 / (FX_ONE as int) };
    let col = if d2 < 0 { 0 } else { d2 / (FX_ONE as int) };
    if row >= walls.len() {
        true
    } else if col >= 16 {
        true
    } else {
        spec_wall_bit(walls[row], col)
    }
}

/// Tests the wall bitmask at a fixed-point point: `d1` picks the wall line,
/// `d2` the bit within it.
pub fn point_in_wall(d1: i64, d2: i64, walls: &Vec<u16>) -> (b: bool)
    requires
        -4 * DIST_CAP_FX <= d1 <= 4 * DIST_CAP_FX,
        -4 * DIST_CAP_FX <= d2 <= 4 * DIST_CAP_FX,
    ensures
        b == spec_point_in_wall(d1 as int, d2 as int, walls@),
{
    let row: i64 = if d1 < 0 { 0 } else { div_euclid_fx(d1, FX_ONE) };
    let col: i64 = if d2 < 0 { 0 } else { div_euclid_fx(d2, FX_ONE) };
    proof {
        if d1 >= 0 {
            vstd::arithmetic::div_mod::lemma_div_pos_is_pos(d1 as int, FX_ONE as int);
            vstd::arithmetic::div_mod::lemma_div_nonincreasing(d1 as int, FX_ONE as int);
        }
        if d2 >= 0 {
            vstd::arithmetic::div_mod::lemma_div_pos_is_pos(d2 as int, FX_ONE as int);
            vstd::arithmetic::div_mod::lemma_div_nonincreasing(d2 as int, FX_ONE as int);
        }
        assert(0 <= row <= 4 * DIST_CAP_FX && 0 <= col <= 4 * DIST_CAP_FX);
    }
    if (row as usize) >= walls.len() {
        true
    } else if col >= 16 {
        true
    } else {
        (walls[row as usize] >> (col as u16)) & 1 == 1
    }
}

} // verus!
