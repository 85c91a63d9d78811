//! Coordinates on the cubic lattice and their row-major linearization.

use vstd::arithmetic::div_mod::lemma_fundamental_div_mod_converse_div;
use vstd::arithmetic::div_mod::lemma_fundamental_div_mod_converse_mod;
use vstd::prelude::*;

verus! {

/// Edge length of the cubic lattice.
pub const WORLD_SIZE: usize = 128;

/// Number of cells in the lattice: `WORLD_SIZE` cubed
/// (see `lemma_lattice_constants`).
pub const CELL_COUNT: usize = 2097152;

/// Greatest grain mass a stable grid can hold: five grains in each of the
/// `(WORLD_SIZE - 2)^3` interior cells (see `lemma_lattice_constants`).
pub const CAPACITY: usize = 10001880;

/// A lattice position, addressed by integer coordinates in `[0, WORLD_SIZE)`.
#[derive(Clone, Copy, PartialEq, Eq, Structural, Debug)]
pub struct Coord {
    pub x: usize,
    pub y: usize,
    pub z: usize,
}

/// The coordinate lies inside the lattice.
pub open spec fn valid_coord(c: Coord) -> bool {
    c.x < WORLD_SIZE && c.y < WORLD_SIZE && c.z < WORLD_SIZE
}

/// The coordinate is strictly inside the boundary shell:
/// every component in `[1, WORLD_SIZE - 2]`.
pub open spec fn interior_coord(c: Coord) -> bool {
    &&& 0 < c.x < WORLD_SIZE - 1
    &&& 0 < c.y < WORLD_SIZE - 1
    &&& 0 < c.z < WORLD_SIZE - 1
}

/// Row-major linearization: `x` varies slowest, `z` fastest.
pub open spec fn flat_index(c: Coord) -> int {
    (c.x * WORLD_SIZE + c.y) * WORLD_SIZE + c.z
}

/// The coordinate whose `flat_index` is `i`, for `i` in `[0, CELL_COUNT)`.
pub open spec fn coord_at(i: int) -> Coord {
    Coord {
        x: (i / (WORLD_SIZE as int * WORLD_SIZE as int)) as usize,
        y: ((i % (WORLD_SIZE as int * WORLD_SIZE as int)) / (WORLD_SIZE as int)) as usize,
        z: (i % (WORLD_SIZE as int)) as usize,
    }
}

/// How the derived lattice constants follow from the edge length.
pub proof fn lemma_lattice_constants()
    ensures
        CELL_COUNT == WORLD_SIZE * WORLD_SIZE * WORLD_SIZE,
        CAPACITY == 5 * (WORLD_SIZE - 2) * (WORLD_SIZE - 2) * (WORLD_SIZE - 2),
{
    assert(2097152 == WORLD_SIZE * WORLD_SIZE * WORLD_SIZE) by (nonlinear_arith)
        requires
            WORLD_SIZE == 128,
    ;
    assert(10001880 == 5 * (WORLD_SIZE - 2) * (WORLD_SIZE - 2) * (WORLD_SIZE - 2))
        by (nonlinear_arith)
        requires
            WORLD_SIZE == 128,
    ;
}

pub proof fn lemma_flat_index_bounds(c: Coord)
    requires
        valid_coord(c),
    ensures
        0 <= flat_index(c) < CELL_COUNT,
{
}

pub proof fn lemma_flat_index_inverse(c: Coord)
    requires
        valid_coord(c),
    ensures
        coord_at(flat_index(c)) == c,
{
    let f = flat_index(c);
    let rest = c.y * (WORLD_SIZE as int) + c.z;
    assert(f == c.x * (WORLD_SIZE as int * WORLD_SIZE as int) + rest) by (nonlinear_arith)
        requires
            f == flat_index(c),
            rest == c.y * (WORLD_SIZE as int) + c.z,
    ;
    lemma_fundamental_div_mod_converse_div(f, WORLD_SIZE as int * WORLD_SIZE as int, c.x as int, rest);
    lemma_fundamental_div_mod_converse_mod(f, WORLD_SIZE as int * WORLD_SIZE as int, c.x as int, rest);
    lemma_fundamental_div_mod_converse_div(rest, WORLD_SIZE as int, c.y as int, c.z as int);
    lemma_fundamental_div_mod_converse_mod(
        f,
        WORLD_SIZE as int,
        c.x as int * WORLD_SIZE as int + c.y as int,
        c.z as int,
    );
}

pub proof fn lemma_flat_index_injective(a: Coord, b: Coord)
    requires
        valid_coord(a),
        valid_coord(b),
        flat_index(a) == flat_index(b),
    ensures
        a == b,
{
    lemma_flat_index_inverse(a);
    lemma_flat_index_inverse(b);
}

/// Compute the linear index of a valid coordinate.
pub fn flat_index_of(c: Coord) -> (i: usize)
    requires
        valid_coord(c),
    ensures
        i == flat_index(c),
{
    proof {
        lemma_flat_index_bounds(c);
    }
    (c.x * WORLD_SIZE + c.y) * WORLD_SIZE + c.z
}

} // verus!
