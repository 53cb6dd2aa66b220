//! Raster order: how a pixel's place in the output stream relates to its column and row.

use vstd::prelude::*;

verus! {

/// The column and row of the `k`-th pixel of an image `width` pixels wide, counted row by row.
pub fn pixel_coords(k: usize, width: usize) -> (at: (usize, usize))
    requires
        width > 0,
    ensures
        at.0 == k as int % width as int,
        at.1 == k as int / width as int,
        at.0 < width,
        at.1 * width + at.0 == k,
{
    proof {
        vstd::arithmetic::div_mod::lemma_fundamental_div_mod(k as int, width as int);
        vstd::arithmetic::mul::lemma_mul_is_commutative(width as int, k as int / width as int);
    }
    (k % width, k / width)
}

/// The place in the output stream of the pixel in column `i` of row `j`.
pub open spec fn place_of(i: int, j: int, width: int) -> int {
    j * width + i
}

/// The place of the pixel in column `i` of row `j`, or `None` where it does not fit a
/// `usize`.
pub fn pixel_index(i: usize, j: usize, width: usize) -> (k: Option<usize>)
    requires
        i < width,
    ensures
        k is Some <==> place_of(i as int, j as int, width as int) <= usize::MAX,
        k matches Some(place) ==> place == place_of(i as int, j as int, width as int),
{
    match j.checked_mul(width) {
        None => {
            proof {
                assert(j * width + i >= j * width);
            }
            None
        },
        Some(row) => row.checked_add(i),
    }
}

/// Raster order: the pixels of a row stand together, from the left; the rows follow each
/// other from the top. Place and position determine each other.
pub proof fn lemma_raster_order(i: int, j: int, i2: int, j2: int, width: int)
    requires
        width > 0,
        0 <= i < width,
        0 <= i2 < width,
        0 <= j,
        0 <= j2,
    ensures
        place_of(i, j, width) % width == i,
        place_of(i, j, width) / width == j,
        place_of(i, j, width) == place_of(i2, j2, width) ==> i == i2 && j == j2,
        j < j2 || (j == j2 && i < i2) <==> place_of(i, j, width) < place_of(i2, j2, width),
{
    vstd::arithmetic::div_mod::lemma_fundamental_div_mod_converse(
        place_of(i, j, width),
        width,
        j,
        i,
    );
    vstd::arithmetic::div_mod::lemma_fundamental_div_mod_converse(
        place_of(i2, j2, width),
        width,
        j2,
        i2,
    );
    if j < j2 {
        assert(j * width + width <= j2 * width) by (nonlinear_arith)
            requires
                j + 1 <= j2,
                width > 0,
        ;
    }
    if j2 < j {
        assert(j2 * width + width <= j * width) by (nonlinear_arith)
            requires
                j2 + 1 <= j,
                width > 0,
        ;
    }
}

} // verus!
