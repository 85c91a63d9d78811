//! Grain mass of a grid state: sums of cell heights, and the capacity bound
//! that a stable grid with an empty boundary shell can hold.

use crate::coords::Coord;
use crate::coords::CAPACITY;
use crate::coords::CELL_COUNT;
use crate::coords::WORLD_SIZE;
use crate::coords::flat_index;
use crate::coords::interior_coord;
use crate::coords::valid_coord;
use vstd::prelude::*;

verus! {

/// Sum of the heights of the `n` cells starting at index `b`.
pub open spec fn seg_mass(s: Seq<u8>, b: int, n: int) -> int
    decreases n,
{
    if n <= 0 {
        0
    } else {
        seg_mass(s, b, n - 1) + s[b + n - 1]
    }
}

/// Total grain mass held in the cells.
pub open spec fn mass(s: Seq<u8>) -> int {
    seg_mass(s, 0, s.len() as int)
}

/// Every cell holds at most five grains.
pub open spec fn stable_heights(s: Seq<u8>) -> bool {
    forall|i: int| 0 <= i < s.len() ==> s[i] <= 5
}

/// Every boundary-shell cell is empty.
pub open spec fn boundary_clear(s: Seq<u8>) -> bool {
    forall|c: Coord| valid_coord(c) && !interior_coord(c) ==> s[#[trigger] flat_index(c)] == 0
}

/// A well-formed stable grid state: full size, every height at most five,
/// boundary shell empty.
pub open spec fn cells_ok(s: Seq<u8>) -> bool {
    &&& s.len() == CELL_COUNT
    &&& stable_heights(s)
    &&& boundary_clear(s)
}

pub proof fn lemma_seg_mass_bounds(s: Seq<u8>, b: int, n: int)
    requires
        0 <= n,
    ensures
        0 <= seg_mass(s, b, n) <= 255 * n,
    decreases n,
{
    if n > 0 {
        lemma_seg_mass_bounds(s, b, n - 1);
    }
}

pub proof fn lemma_seg_mass_le5(s: Seq<u8>, b: int, n: int)
    requires
        0 <= n,
        forall|i: int| b <= i < b + n ==> s[i] <= 5,
    ensures
        seg_mass(s, b, n) <= 5 * n,
    decreases n,
{
    if n > 0 {
        lemma_seg_mass_le5(s, b, n - 1);
    }
}

pub proof fn lemma_seg_mass_zero(s: Seq<u8>, b: int, n: int)
    requires
        0 <= n,
        forall|i: int| b <= i < b + n ==> s[i] == 0,
    ensures
        seg_mass(s, b, n) == 0,
    decreases n,
{
    if n > 0 {
        lemma_seg_mass_zero(s, b, n - 1);
    }
}

pub proof fn lemma_seg_mass_split(s: Seq<u8>, b: int, n: int, m: int)
    requires
        0 <= n,
        0 <= m,
    ensures
        seg_mass(s, b, n + m) == seg_mass(s, b, n) + seg_mass(s, b + n, m),
    decreases m,
{
    if m > 0 {
        lemma_seg_mass_split(s, b, n, m - 1);
    }
}

pub proof fn lemma_seg_mass_one(s: Seq<u8>, b: int)
    ensures
        seg_mass(s, b, 1) == s[b],
{
    assert(seg_mass(s, b, 0) == 0);
}

/// Updating one cell shifts a segment's mass by the height difference when
/// the cell lies in the segment, and leaves it unchanged otherwise.
pub proof fn lemma_seg_mass_update(s: Seq<u8>, j: int, v: u8, b: int, n: int)
    requires
        0 <= j < s.len(),
        0 <= b,
        b + n <= s.len(),
    ensures
        b <= j < b + n ==> seg_mass(s.update(j, v), b, n) == seg_mass(s, b, n) + v - s[j],
        !(b <= j < b + n) ==> seg_mass(s.update(j, v), b, n) == seg_mass(s, b, n),
    decreases n,
{
    if n > 0 {
        lemma_seg_mass_update(s, j, v, b, n - 1);
    }
}

pub proof fn lemma_mass_update(s: Seq<u8>, j: int, v: u8)
    requires
        0 <= j < s.len(),
    ensures
        mass(s.update(j, v)) == mass(s) + v - s[j],
{
    lemma_seg_mass_update(s, j, v, 0, s.len() as int);
}

pub proof fn lemma_mass_nonneg(s: Seq<u8>)
    ensures
        0 <= mass(s) <= 255 * s.len(),
{
    lemma_seg_mass_bounds(s, 0, s.len() as int);
}

/// Mass of one z-column of cells.
spec fn col_mass(s: Seq<u8>, x: usize, y: usize) -> int {
    seg_mass(s, (x * WORLD_SIZE + y) * WORLD_SIZE, WORLD_SIZE as int)
}

/// Mass of the first `yn` z-columns of one x-plane.
spec fn plane_mass_to(s: Seq<u8>, x: usize, yn: int) -> int
    decreases yn,
{
    if yn <= 0 {
        0
    } else {
        plane_mass_to(s, x, yn - 1) + col_mass(s, x, (yn - 1) as usize)
    }
}

/// Mass of the first `xn` x-planes.
spec fn cube_mass_to(s: Seq<u8>, xn: int) -> int
    decreases xn,
{
    if xn <= 0 {
        0
    } else {
        cube_mass_to(s, xn - 1) + plane_mass_to(s, (xn - 1) as usize, WORLD_SIZE as int)
    }
}

proof fn lemma_plane_mass_to_seg(s: Seq<u8>, x: usize, yn: int)
    requires
        x < WORLD_SIZE,
        0 <= yn <= WORLD_SIZE,
    ensures
        plane_mass_to(s, x, yn) == seg_mass(
            s,
            x * (WORLD_SIZE as int * WORLD_SIZE as int),
            yn * WORLD_SIZE,
        ),
    decreases yn,
{
    let b = x * (WORLD_SIZE as int * WORLD_SIZE as int);
    if yn > 0 {
        lemma_plane_mass_to_seg(s, x, yn - 1);
        lemma_seg_mass_split(s, b, (yn - 1) * WORLD_SIZE, WORLD_SIZE as int);
        assert(x * (WORLD_SIZE as int * WORLD_SIZE as int) + (yn - 1) * WORLD_SIZE == (x
            * WORLD_SIZE + (yn - 1)) * WORLD_SIZE) by (nonlinear_arith);
        assert(yn * WORLD_SIZE == (yn - 1) * WORLD_SIZE + WORLD_SIZE) by (nonlinear_arith);
        assert((yn - 1) as usize as int == yn - 1);
    }
}

proof fn lemma_cube_mass_to_seg(s: Seq<u8>, xn: int)
    requires
        0 <= xn <= WORLD_SIZE,
    ensures
        cube_mass_to(s, xn) == seg_mass(s, 0, xn * (WORLD_SIZE as int * WORLD_SIZE as int)),
    decreases xn,
{
    if xn > 0 {
        lemma_cube_mass_to_seg(s, xn - 1);
        lemma_plane_mass_to_seg(s, (xn - 1) as usize, WORLD_SIZE as int);
        lemma_seg_mass_split(
            s,
            0,
            (xn - 1) * (WORLD_SIZE as int * WORLD_SIZE as int),
            WORLD_SIZE as int * WORLD_SIZE as int,
        );
        assert(xn * (WORLD_SIZE as int * WORLD_SIZE as int) == (xn - 1) * (WORLD_SIZE as int
            * WORLD_SIZE as int) + WORLD_SIZE as int * WORLD_SIZE as int) by (nonlinear_arith);
        assert((xn - 1) * (WORLD_SIZE as int * WORLD_SIZE as int) == ((xn - 1) as usize) * (
        WORLD_SIZE as int * WORLD_SIZE as int));
        assert((WORLD_SIZE as int) * WORLD_SIZE == WORLD_SIZE as int * WORLD_SIZE as int);
        assert(cube_mass_to(s, xn) == cube_mass_to(s, xn - 1) + plane_mass_to(
            s,
            (xn - 1) as usize,
            WORLD_SIZE as int,
        ));
    } else {
        assert(cube_mass_to(s, 0) == 0);
        assert(0 * (WORLD_SIZE as int * WORLD_SIZE as int) == 0);
        assert(seg_mass(s, 0, 0) == 0);
    }
}

/// A column all of whose cells sit on the boundary shell holds no grains.
proof fn lemma_col_mass_boundary(s: Seq<u8>, x: usize, y: usize)
    requires
        cells_ok(s),
        x < WORLD_SIZE,
        y < WORLD_SIZE,
        !(0 < x < WORLD_SIZE - 1 && 0 < y < WORLD_SIZE - 1),
    ensures
        col_mass(s, x, y) == 0,
{
    let b = (x * WORLD_SIZE + y) * (WORLD_SIZE as int);
    assert forall|i: int| b <= i < b + WORLD_SIZE implies s[i] == 0 by {
        let c = (Coord { x, y, z: (i - b) as usize });
        assert(flat_index(c) == i);
        assert(valid_coord(c) && !interior_coord(c));
    }
    lemma_seg_mass_zero(s, b, WORLD_SIZE as int);
}

/// Any column of a well-formed grid holds at most five grains per interior
/// cell: its two boundary-shell ends are empty.
proof fn lemma_col_mass_le(s: Seq<u8>, x: usize, y: usize)
    requires
        cells_ok(s),
        x < WORLD_SIZE,
        y < WORLD_SIZE,
    ensures
        col_mass(s, x, y) <= 630,
{
    let b = (x * WORLD_SIZE + y) * (WORLD_SIZE as int);
    let cb = (Coord { x, y, z: 0 });
    let ct = (Coord { x, y, z: (WORLD_SIZE - 1) as usize });
    assert(flat_index(cb) == b);
    assert(flat_index(ct) == b + WORLD_SIZE - 1);
    assert(s[b] == 0);
    assert(s[b + WORLD_SIZE - 1] == 0);
    lemma_seg_mass_split(s, b, 1, WORLD_SIZE - 1 as int);
    lemma_seg_mass_split(s, b + 1, WORLD_SIZE - 2 as int, 1);
    assert(b + WORLD_SIZE <= CELL_COUNT) by (nonlinear_arith)
        requires
            b == (x * WORLD_SIZE + y) * (WORLD_SIZE as int),
            x < WORLD_SIZE,
            y < WORLD_SIZE,
    ;
    assert forall|i: int| b + 1 <= i < b + 1 + (WORLD_SIZE - 2) implies s[i] <= 5 by {
        assert(0 <= i < s.len());
    }
    lemma_seg_mass_le5(s, b + 1, WORLD_SIZE - 2 as int);
    lemma_seg_mass_one(s, b);
    lemma_seg_mass_one(s, b + WORLD_SIZE - 1);
}

proof fn lemma_plane_mass_bound(s: Seq<u8>, x: usize, yn: int)
    requires
        cells_ok(s),
        x < WORLD_SIZE,
        1 <= yn <= WORLD_SIZE - 1,
    ensures
        plane_mass_to(s, x, yn) <= 630 * (yn - 1),
    decreases yn,
{
    if yn == 1 {
        lemma_col_mass_boundary(s, x, 0);
        assert(plane_mass_to(s, x, 0) == 0);
    } else {
        lemma_plane_mass_bound(s, x, yn - 1);
        lemma_col_mass_le(s, x, (yn - 1) as usize);
        assert(plane_mass_to(s, x, yn) == plane_mass_to(s, x, yn - 1) + col_mass(
            s,
            x,
            (yn - 1) as usize,
        ));
    }
}

proof fn lemma_plane_mass_full(s: Seq<u8>, x: usize)
    requires
        cells_ok(s),
        x < WORLD_SIZE,
    ensures
        plane_mass_to(s, x, WORLD_SIZE as int) <= 79380,
{
    lemma_plane_mass_bound(s, x, WORLD_SIZE - 1 as int);
    lemma_col_mass_boundary(s, x, (WORLD_SIZE - 1) as usize);
}

/// A plane all of whose cells sit on the boundary shell holds no grains.
proof fn lemma_plane_mass_boundary(s: Seq<u8>, x: usize, yn: int)
    requires
        cells_ok(s),
        x < WORLD_SIZE,
        !(0 < x < WORLD_SIZE - 1),
        0 <= yn <= WORLD_SIZE,
    ensures
        plane_mass_to(s, x, yn) == 0,
    decreases yn,
{
    if yn > 0 {
        lemma_plane_mass_boundary(s, x, yn - 1);
        lemma_col_mass_boundary(s, x, (yn - 1) as usize);
    }
}

proof fn lemma_cube_mass_bound(s: Seq<u8>, xn: int)
    requires
        cells_ok(s),
        1 <= xn <= WORLD_SIZE - 1,
    ensures
        cube_mass_to(s, xn) <= 79380 * (xn - 1),
    decreases xn,
{
    if xn == 1 {
        lemma_plane_mass_boundary(s, 0, WORLD_SIZE as int);
        assert(cube_mass_to(s, 0) == 0);
        assert(cube_mass_to(s, 1) == cube_mass_to(s, 0) + plane_mass_to(
            s,
            0,
            WORLD_SIZE as int,
        ));
    } else {
        lemma_cube_mass_bound(s, xn - 1);
        lemma_plane_mass_full(s, (xn - 1) as usize);
        assert(cube_mass_to(s, xn) == cube_mass_to(s, xn - 1) + plane_mass_to(
            s,
            (xn - 1) as usize,
            WORLD_SIZE as int,
        ));
    }
}

/// A well-formed stable grid never holds more than `CAPACITY` grains:
/// five per interior cell, none on the boundary shell. This is the
/// conservation bound behind overflow detection.
pub proof fn lemma_mass_capacity(s: Seq<u8>)
    requires
        cells_ok(s),
    ensures
        0 <= mass(s) <= CAPACITY,
{
    lemma_cube_mass_bound(s, WORLD_SIZE - 1 as int);
    lemma_plane_mass_boundary(s, (WORLD_SIZE - 1) as usize, WORLD_SIZE as int);
    lemma_cube_mass_to_seg(s, WORLD_SIZE as int);
    lemma_mass_nonneg(s);
    assert(cube_mass_to(s, WORLD_SIZE as int) == cube_mass_to(s, WORLD_SIZE - 1 as int)
        + plane_mass_to(s, (WORLD_SIZE - 1) as usize, WORLD_SIZE as int));
}

/// Total the cell heights of a grid buffer.
pub fn mass_of(cells: &Vec<u8>) -> (m: usize)
    requires
        cells@.len() <= CELL_COUNT,
    ensures
        m == mass(cells@),
{
    let mut m: usize = 0;
    let mut i: usize = 0;
    let n = cells.len();
    while i < n
        invariant
            0 <= i <= n,
            n == cells@.len() <= CELL_COUNT,
            m == seg_mass(cells@, 0, i as int),
            m <= 255 * i,
        decreases n - i,
    {
        proof {
            lemma_seg_mass_bounds(cells@, 0, i as int);
        }
        m = m + cells[i] as usize;
        i = i + 1;
    }
    m
}

} // verus!
