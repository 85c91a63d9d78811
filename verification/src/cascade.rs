//! A deterministic small-step model of the toppling cascade, the engine's
//! contract language, and the potential function that bounds every run.

use crate::coords::Coord;
use crate::coords::CELL_COUNT;
use crate::coords::WORLD_SIZE;
use crate::coords::flat_index;
use crate::coords::interior_coord;
use crate::coords::lemma_flat_index_bounds;
use crate::coords::lemma_flat_index_injective;
use crate::coords::lemma_flat_index_inverse;
use crate::coords::valid_coord;
use crate::mass::boundary_clear;
use crate::mass::lemma_mass_update;
use crate::mass::mass;
use crate::mass::stable_heights;
use vstd::arithmetic::div_mod::lemma_div_is_ordered;
use vstd::arithmetic::div_mod::lemma_div_pos_is_pos;
use vstd::arithmetic::div_mod::lemma_fundamental_div_mod;
use vstd::arithmetic::div_mod::lemma_mod_division_less_than_divisor;
use vstd::arithmetic::mul::lemma_mul_nonnegative;
use vstd::prelude::*;

verus! {

/// A pending worklist entry: `grains` grains awaiting absorption at `loc`.
#[derive(Clone, Copy, Debug)]
pub struct Task {
    pub loc: Coord,
    pub grains: usize,
}

/// Outcome of running the cascade for a bounded number of steps.
pub enum Cascade {
    /// Cells so far and the worklist still to process; the top of the stack
    /// is the last element.
    Running(Seq<u8>, Seq<Task>),
    /// The worklist emptied: the cells are a stable configuration.
    Done(Seq<u8>),
    /// A worklist entry reached the boundary shell: capacity overflow.
    Failed,
}

/// Every pending task targets a cell of the lattice.
pub open spec fn tasks_valid(todo: Seq<Task>) -> bool {
    forall|k: int| 0 <= k < todo.len() ==> valid_coord(#[trigger] todo[k].loc)
}

/// Grains awaiting absorption on the worklist.
pub open spec fn pending(todo: Seq<Task>) -> int
    decreases todo.len(),
{
    if todo.len() == 0 {
        0
    } else {
        pending(todo.drop_last()) + todo.last().grains
    }
}

/// The worklist after one topple of `k` firings at `loc`: one task of `k`
/// grains pushed per axis-neighbour.
pub open spec fn push_topples(rest: Seq<Task>, loc: Coord, k: usize) -> Seq<Task> {
    rest.push(Task { loc: nbr_xp(loc), grains: k }).push(Task { loc: nbr_xm(loc), grains: k }).push(
        Task { loc: nbr_yp(loc), grains: k },
    ).push(Task { loc: nbr_ym(loc), grains: k }).push(Task { loc: nbr_zp(loc), grains: k }).push(
        Task { loc: nbr_zm(loc), grains: k },
    )
}

/// One step of the cascade: pop the top task; a pop outside the interior is
/// a capacity overflow; otherwise absorb the grains and, at six or more,
/// topple the surplus to the six axis-neighbours.
pub open spec fn cascade_step(cells: Seq<u8>, todo: Seq<Task>) -> Cascade
    recommends
        todo.len() > 0,
{
    let t = todo.last();
    let rest = todo.drop_last();
    if !interior_coord(t.loc) {
        Cascade::Failed
    } else {
        let total = cells[flat_index(t.loc)] + t.grains;
        let cells2 = cells.update(flat_index(t.loc), (total % 6) as u8);
        if total / 6 > 0 {
            Cascade::Running(cells2, push_topples(rest, t.loc, (total / 6) as usize))
        } else {
            Cascade::Running(cells2, rest)
        }
    }
}

/// Run the cascade for at most `n` steps: the result is `Running` when the
/// fuel ran out first, `Done` or `Failed` when the run ended.
pub open spec fn cascade_run(cells: Seq<u8>, todo: Seq<Task>, n: nat) -> Cascade
    decreases n,
{
    if n == 0 {
        Cascade::Running(cells, todo)
    } else if todo.len() == 0 {
        Cascade::Done(cells)
    } else {
        match cascade_step(cells, todo) {
            Cascade::Running(c2, t2) => cascade_run(c2, t2, (n - 1) as nat),
            outcome => outcome,
        }
    }
}

/// The worklist an injection starts from: a single task.
pub open spec fn injection_todo(target: Coord, count: usize) -> Seq<Task> {
    seq![Task { loc: target, grains: count }]
}

/// The axis-neighbour one step up in `x`.
pub open spec fn nbr_xp(c: Coord) -> Coord {
    Coord { x: (c.x + 1) as usize, y: c.y, z: c.z }
}

/// The axis-neighbour one step down in `x`.
pub open spec fn nbr_xm(c: Coord) -> Coord {
    Coord { x: (c.x - 1) as usize, y: c.y, z: c.z }
}

/// The axis-neighbour one step up in `y`.
pub open spec fn nbr_yp(c: Coord) -> Coord {
    Coord { x: c.x, y: (c.y + 1) as usize, z: c.z }
}

/// The axis-neighbour one step down in `y`.
pub open spec fn nbr_ym(c: Coord) -> Coord {
    Coord { x: c.x, y: (c.y - 1) as usize, z: c.z }
}

/// The axis-neighbour one step up in `z`.
pub open spec fn nbr_zp(c: Coord) -> Coord {
    Coord { x: c.x, y: c.y, z: (c.z + 1) as usize }
}

/// The axis-neighbour one step down in `z`.
pub open spec fn nbr_zm(c: Coord) -> Coord {
    Coord { x: c.x, y: c.y, z: (c.z - 1) as usize }
}

/// The coordinate and all six of its axis-neighbours lie in the interior.
pub open spec fn deep_interior_coord(c: Coord) -> bool {
    &&& 1 < c.x < WORLD_SIZE - 2
    &&& 1 < c.y < WORLD_SIZE - 2
    &&& 1 < c.z < WORLD_SIZE - 2
}

/// Concave per-axis weight, zero at the two boundary walls.
pub open spec fn axis_weight(v: usize) -> int {
    v * (WORLD_SIZE - 1 - v)
}

/// Weight of a cell, nonnegative on the lattice: the termination potential
/// counts each grain with the weight of the cell holding it.
pub open spec fn coord_weight(c: Coord) -> int {
    axis_weight(c.x) + axis_weight(c.y) + axis_weight(c.z)
}

/// Potential of the first `n` cells.
pub open spec fn seg_phi(s: Seq<u8>, n: int) -> int
    decreases n,
{
    if n <= 0 {
        0
    } else {
        seg_phi(s, n - 1) + s[n - 1] * coord_weight(crate::coords::coord_at(n - 1))
    }
}

/// Potential of the cells.
pub open spec fn cells_phi(s: Seq<u8>) -> int {
    seg_phi(s, s.len() as int)
}

/// Potential of the worklist.
pub open spec fn todo_phi(todo: Seq<Task>) -> int
    decreases todo.len(),
{
    if todo.len() == 0 {
        0
    } else {
        todo_phi(todo.drop_last()) + todo.last().grains * coord_weight(todo.last().loc)
    }
}

/// Termination measure of a cascade state: every topple lowers it by six
/// per firing, and popping a task without a topple leaves it unchanged
/// while shortening the worklist.
pub open spec fn cascade_phi(cells: Seq<u8>, todo: Seq<Task>) -> int {
    cells_phi(cells) + todo_phi(todo)
}

pub proof fn lemma_axis_weight_nonneg(v: usize)
    requires
        v < WORLD_SIZE,
    ensures
        0 <= axis_weight(v),
{
    lemma_mul_nonnegative(v as int, WORLD_SIZE - 1 - v);
}

pub proof fn lemma_coord_weight_nonneg(c: Coord)
    requires
        valid_coord(c),
    ensures
        0 <= coord_weight(c),
{
    lemma_axis_weight_nonneg(c.x);
    lemma_axis_weight_nonneg(c.y);
    lemma_axis_weight_nonneg(c.z);
}

/// The six neighbours of an interior cell weigh six times the cell, less
/// six: the potential argument that every topple makes strict progress.
pub proof fn lemma_neighbour_weights(loc: Coord)
    requires
        interior_coord(loc),
    ensures
        coord_weight(nbr_xp(loc)) + coord_weight(nbr_xm(loc)) + coord_weight(nbr_yp(loc))
            + coord_weight(nbr_ym(loc)) + coord_weight(nbr_zp(loc)) + coord_weight(nbr_zm(loc))
            == 6 * coord_weight(loc) - 6,
{
    lemma_axis_weight_step(loc.x);
    lemma_axis_weight_step(loc.y);
    lemma_axis_weight_step(loc.z);
}

/// One axis of the neighbour identity: the concave weight drops by exactly
/// two across each pair of neighbours.
proof fn lemma_axis_weight_step(v: usize)
    requires
        0 < v < WORLD_SIZE - 1,
    ensures
        axis_weight((v + 1) as usize) + axis_weight((v - 1) as usize) == 2 * axis_weight(v) - 2,
{
    assert((v + 1) * (WORLD_SIZE - 1 - (v + 1)) + (v - 1) * (WORLD_SIZE - 1 - (v - 1)) == 2 * (v
        * (WORLD_SIZE - 1 - v)) - 2) by (nonlinear_arith)
        requires
            0 < v < WORLD_SIZE - 1,
    ;
}

pub proof fn lemma_pending_nonneg(todo: Seq<Task>)
    ensures
        0 <= pending(todo),
    decreases todo.len(),
{
    if todo.len() > 0 {
        lemma_pending_nonneg(todo.drop_last());
    }
}

/// Any single task carries at most the whole pending mass.
pub proof fn lemma_last_pending(todo: Seq<Task>)
    requires
        todo.len() > 0,
    ensures
        todo.last().grains <= pending(todo),
{
    lemma_pending_nonneg(todo.drop_last());
}

pub proof fn lemma_todo_phi_nonneg(todo: Seq<Task>)
    requires
        tasks_valid(todo),
    ensures
        0 <= todo_phi(todo),
    decreases todo.len(),
{
    if todo.len() > 0 {
        assert(tasks_valid(todo.drop_last()));
        lemma_todo_phi_nonneg(todo.drop_last());
        lemma_coord_weight_nonneg(todo.last().loc);
        lemma_mul_nonnegative(todo.last().grains as int, coord_weight(todo.last().loc));
    }
}

pub proof fn lemma_pending_push(todo: Seq<Task>, t: Task)
    ensures
        pending(todo.push(t)) == pending(todo) + t.grains,
{
    assert(todo.push(t).drop_last() =~= todo);
}

pub proof fn lemma_todo_phi_push(todo: Seq<Task>, t: Task)
    ensures
        todo_phi(todo.push(t)) == todo_phi(todo) + t.grains * coord_weight(t.loc),
{
    assert(todo.push(t).drop_last() =~= todo);
}

/// Potential of the cells changes by the weighted height difference when
/// one cell is rewritten.
pub proof fn lemma_seg_phi_update(s: Seq<u8>, j: int, v: u8, n: int)
    requires
        0 <= j < s.len(),
        n <= s.len(),
    ensures
        j < n ==> seg_phi(s.update(j, v), n) == seg_phi(s, n) + (v - s[j]) * coord_weight(
            crate::coords::coord_at(j),
        ),
        !(j < n) ==> seg_phi(s.update(j, v), n) == seg_phi(s, n),
    decreases n,
{
    if n > 0 {
        lemma_seg_phi_update(s, j, v, n - 1);
        if j == n - 1 {
            assert(v * coord_weight(crate::coords::coord_at(j)) - s[j] * coord_weight(
                crate::coords::coord_at(j),
            ) == (v - s[j]) * coord_weight(crate::coords::coord_at(j))) by (nonlinear_arith);
        }
    }
}

pub proof fn lemma_cells_phi_update(s: Seq<u8>, j: int, v: u8)
    requires
        0 <= j < s.len(),
    ensures
        cells_phi(s.update(j, v)) == cells_phi(s) + (v - s[j]) * coord_weight(
            crate::coords::coord_at(j),
        ),
{
    lemma_seg_phi_update(s, j, v, s.len() as int);
}

pub proof fn lemma_seg_phi_nonneg(s: Seq<u8>, n: int)
    requires
        n <= CELL_COUNT,
        s.len() == CELL_COUNT,
    ensures
        0 <= seg_phi(s, n),
    decreases n,
{
    if n > 0 {
        lemma_seg_phi_nonneg(s, n - 1);
        lemma_coord_at_valid(n - 1);
        lemma_coord_weight_nonneg(crate::coords::coord_at(n - 1));
        lemma_mul_nonnegative(s[n - 1] as int, coord_weight(crate::coords::coord_at(n - 1)));
    }
}

/// Each linear index below `CELL_COUNT` names a cell of the lattice.
pub proof fn lemma_coord_at_valid(i: int)
    requires
        0 <= i < CELL_COUNT,
    ensures
        valid_coord(crate::coords::coord_at(i)),
{
    assert(0 <= i / (WORLD_SIZE as int * WORLD_SIZE as int) < WORLD_SIZE) by (nonlinear_arith)
        requires
            0 <= i < CELL_COUNT,
            WORLD_SIZE == 128,
            CELL_COUNT == 2097152,
    ;
    assert(0 <= (i % (WORLD_SIZE as int * WORLD_SIZE as int)) / (WORLD_SIZE as int) < WORLD_SIZE)
        by (nonlinear_arith)
        requires
            0 <= i,
            WORLD_SIZE == 128,
    ;
    assert(0 <= i % (WORLD_SIZE as int) < WORLD_SIZE) by (nonlinear_arith)
        requires
            0 <= i,
            WORLD_SIZE == 128,
    ;
}

/// What one cascade step does to a well-formed state: it preserves
/// well-formedness of the cells and validity of the worklist, conserves
/// grain mass, and drives the termination measure down.
pub proof fn lemma_cascade_step_properties(cells: Seq<u8>, todo: Seq<Task>)
    requires
        todo.len() > 0,
        cells.len() == CELL_COUNT,
        stable_heights(cells),
        boundary_clear(cells),
        tasks_valid(todo),
    ensures
        cascade_step(cells, todo) matches Cascade::Running(c2, t2) ==> {
            &&& c2.len() == CELL_COUNT
            &&& stable_heights(c2)
            &&& boundary_clear(c2)
            &&& tasks_valid(t2)
            &&& mass(c2) + pending(t2) == mass(cells) + pending(todo)
            &&& cascade_phi(c2, t2) <= cascade_phi(cells, todo)
            &&& cascade_phi(c2, t2) == cascade_phi(cells, todo) ==> t2.len() < todo.len()
        },
{
    let t = todo.last();
    let rest = todo.drop_last();
    assert(tasks_valid(rest));
    assert(pending(todo) == pending(rest) + t.grains);
    assert(todo_phi(todo) == todo_phi(rest) + t.grains * coord_weight(t.loc));
    if interior_coord(t.loc) {
        let i = flat_index(t.loc);
        lemma_flat_index_bounds(t.loc);
        lemma_flat_index_inverse(t.loc);
        let h = cells[i] as int;
        let n = t.grains as int;
        let total = h + n;
        let k = total / 6;
        let r = total % 6;
        lemma_fundamental_div_mod(total, 6);
        lemma_mod_division_less_than_divisor(total, 6);
        lemma_div_pos_is_pos(total, 6);
        lemma_div_is_ordered(total, 255 + usize::MAX, 6);
        assert(0 <= k <= usize::MAX);
        let w = coord_weight(t.loc);
        let cells2 = cells.update(i, r as u8);
        lemma_mass_update(cells, i, r as u8);
        lemma_cells_phi_update(cells, i, r as u8);
        assert(stable_heights(cells2));
        assert forall|c: Coord| valid_coord(c) && !interior_coord(c) implies cells2[#[trigger] flat_index(
            c,
        )] == 0 by {
            lemma_flat_index_bounds(c);
            if flat_index(c) == i {
                lemma_flat_index_injective(c, t.loc);
            }
        }
        if k > 0 {
            let ku = k as usize;
            let n1 = (Task { loc: nbr_xp(t.loc), grains: ku });
            let n2 = (Task { loc: nbr_xm(t.loc), grains: ku });
            let n3 = (Task { loc: nbr_yp(t.loc), grains: ku });
            let n4 = (Task { loc: nbr_ym(t.loc), grains: ku });
            let n5 = (Task { loc: nbr_zp(t.loc), grains: ku });
            let n6 = (Task { loc: nbr_zm(t.loc), grains: ku });
            let t2 = push_topples(rest, t.loc, ku);
            assert(t2 == rest.push(n1).push(n2).push(n3).push(n4).push(n5).push(n6));
            lemma_pending_push(rest, n1);
            lemma_pending_push(rest.push(n1), n2);
            lemma_pending_push(rest.push(n1).push(n2), n3);
            lemma_pending_push(rest.push(n1).push(n2).push(n3), n4);
            lemma_pending_push(rest.push(n1).push(n2).push(n3).push(n4), n5);
            lemma_pending_push(rest.push(n1).push(n2).push(n3).push(n4).push(n5), n6);
            assert(pending(t2) == pending(rest) + 6 * k);
            lemma_todo_phi_push(rest, n1);
            lemma_todo_phi_push(rest.push(n1), n2);
            lemma_todo_phi_push(rest.push(n1).push(n2), n3);
            lemma_todo_phi_push(rest.push(n1).push(n2).push(n3), n4);
            lemma_todo_phi_push(rest.push(n1).push(n2).push(n3).push(n4), n5);
            lemma_todo_phi_push(rest.push(n1).push(n2).push(n3).push(n4).push(n5), n6);
            lemma_neighbour_weights(t.loc);
            let v1 = coord_weight(n1.loc);
            let v2 = coord_weight(n2.loc);
            let v3 = coord_weight(n3.loc);
            let v4 = coord_weight(n4.loc);
            let v5 = coord_weight(n5.loc);
            let v6 = coord_weight(n6.loc);
            assert(v1 + v2 + v3 + v4 + v5 + v6 == 6 * w - 6);
            assert(todo_phi(t2) == todo_phi(rest) + k * v1 + k * v2 + k * v3 + k * v4 + k * v5 + k
                * v6);
            assert(k * v1 + k * v2 + k * v3 + k * v4 + k * v5 + k * v6 == k * (6 * w - 6))
                by (nonlinear_arith)
                requires
                    v1 + v2 + v3 + v4 + v5 + v6 == 6 * w - 6,
            ;
            assert(todo_phi(t2) == todo_phi(rest) + k * (6 * w - 6));
            assert((r - h) * w + k * (6 * w - 6) - n * w == -6 * k) by (nonlinear_arith)
                requires
                    r + 6 * k == h + n,
            ;
            assert(cascade_phi(cells2, t2) == cascade_phi(cells, todo) - 6 * k);
            assert(tasks_valid(t2)) by {
                assert forall|j: int| 0 <= j < t2.len() implies valid_coord(
                    #[trigger] t2[j].loc,
                ) by {
                    if j < rest.len() {
                        assert(t2[j] == rest[j]);
                    }
                }
            }
        } else {
            assert(r == h + n);
            assert((r - h) * w == n * w) by (nonlinear_arith)
                requires
                    r - h == n,
            ;
            assert(cascade_phi(cells2, rest) == cascade_phi(cells, todo));
        }
    }
}

/// A finished outcome does not change with more fuel.
pub proof fn lemma_run_extend(cells: Seq<u8>, todo: Seq<Task>, n: nat, m: nat)
    requires
        n <= m,
        !(cascade_run(cells, todo, n) is Running),
    ensures
        cascade_run(cells, todo, m) == cascade_run(cells, todo, n),
    decreases n,
{
    if n == 0 {
        assert(false);
    } else if todo.len() == 0 {
    } else {
        match cascade_step(cells, todo) {
            Cascade::Running(c2, t2) => {
                lemma_run_extend(c2, t2, (n - 1) as nat, (m - 1) as nat);
            },
            _ => {},
        }
    }
}

/// Determinism: two finished runs from one start agree, whatever their fuel.
pub proof fn lemma_run_outcomes_agree(cells: Seq<u8>, todo: Seq<Task>, n: nat, m: nat)
    requires
        !(cascade_run(cells, todo, n) is Running),
        !(cascade_run(cells, todo, m) is Running),
    ensures
        cascade_run(cells, todo, n) == cascade_run(cells, todo, m),
{
    if n <= m {
        lemma_run_extend(cells, todo, n, m);
    } else {
        lemma_run_extend(cells, todo, m, n);
    }
}

/// One more unit of fuel takes exactly one more step.
pub proof fn lemma_run_succ(cells: Seq<u8>, todo: Seq<Task>, n: nat)
    ensures
        cascade_run(cells, todo, n) matches Cascade::Running(c1, t1) ==> cascade_run(
            cells,
            todo,
            (n + 1) as nat,
        ) == (if t1.len() == 0 {
            Cascade::Done(c1)
        } else {
            cascade_step(c1, t1)
        }),
        !(cascade_run(cells, todo, n) is Running) ==> cascade_run(cells, todo, (n + 1) as nat)
            == cascade_run(cells, todo, n),
    decreases n,
{
    if cascade_run(cells, todo, n) is Running {
        if n == 0 {
            assert(cascade_run(cells, todo, 0) == Cascade::Running(cells, todo));
            if todo.len() == 0 {
                assert(cascade_run(cells, todo, 1) == Cascade::Done(cells));
            } else {
                match cascade_step(cells, todo) {
                    Cascade::Running(c2, t2) => {
                        assert(cascade_run(cells, todo, 1) == cascade_run(c2, t2, 0));
                        assert(cascade_run(c2, t2, 0) == Cascade::Running(c2, t2));
                    },
                    _ => {},
                }
            }
        } else if todo.len() == 0 {
        } else {
            match cascade_step(cells, todo) {
                Cascade::Running(c2, t2) => {
                    lemma_run_succ(c2, t2, (n - 1) as nat);
                    assert(cascade_run(cells, todo, n) == cascade_run(c2, t2, (n - 1) as nat));
                    assert(cascade_run(cells, todo, (n + 1) as nat) == cascade_run(
                        c2,
                        t2,
                        ((n - 1) + 1) as nat,
                    ));
                },
                _ => {},
            }
        }
    } else {
        lemma_run_extend(cells, todo, n, (n + 1) as nat);
    }
}

/// A run that finished fixes the outcome of every other finished run.
pub proof fn lemma_only_outcome(cells: Seq<u8>, todo: Seq<Task>, n: nat)
    requires
        !(cascade_run(cells, todo, n) is Running),
    ensures
        forall|m: nat|
            !((#[trigger] cascade_run(cells, todo, m)) is Running) ==> cascade_run(cells, todo, m)
                == cascade_run(cells, todo, n),
{
    assert forall|m: nat|
        !((#[trigger] cascade_run(cells, todo, m)) is Running) implies cascade_run(cells, todo, m)
        == cascade_run(cells, todo, n) by {
        lemma_run_outcomes_agree(cells, todo, m, n);
    }
}

/// An injection the target cell can absorb without toppling finishes in
/// one step: the grains simply land on the cell.
pub proof fn lemma_small_injection_run(cells: Seq<u8>, target: Coord, count: usize)
    requires
        cells.len() == CELL_COUNT,
        interior_coord(target),
        cells[flat_index(target)] + count <= 5,
    ensures
        cascade_run(cells, injection_todo(target, count), 2) == Cascade::Done(
            cells.update(flat_index(target), (cells[flat_index(target)] + count) as u8),
        ),
{
    let todo = injection_todo(target, count);
    assert(todo.len() == 1);
    assert(todo.last() == Task { loc: target, grains: count });
    lemma_flat_index_bounds(target);
    let i = flat_index(target);
    let total = cells[i] + count;
    assert(total / 6 == 0 && total % 6 == total) by (nonlinear_arith)
        requires
            0 <= total <= 5,
    ;
    let landed = cells.update(i, total as u8);
    assert(todo.drop_last() =~= Seq::<Task>::empty());
    assert(cascade_step(cells, todo) == Cascade::Running(landed, todo.drop_last()));
    assert(cascade_run(landed, todo.drop_last(), 1) == Cascade::Done(landed));
}

/// Injecting zero grains at an interior cell of a stable grid finishes at
/// once and leaves the cells unchanged.
pub proof fn lemma_zero_injection_run(cells: Seq<u8>, target: Coord)
    requires
        cells.len() == CELL_COUNT,
        stable_heights(cells),
        interior_coord(target),
    ensures
        cascade_run(cells, injection_todo(target, 0), 2) == Cascade::Done(cells),
{
    lemma_flat_index_bounds(target);
    let i = flat_index(target);
    lemma_small_injection_run(cells, target, 0);
    assert(cells.update(i, (cells[i] + 0) as u8) =~= cells);
}

/// A worklist entry the target cell can absorb without toppling burns one
/// unit of fuel and lands its grains on the cell.
pub proof fn lemma_absorb_step(cells: Seq<u8>, todo: Seq<Task>, fuel: nat)
    requires
        cells.len() == CELL_COUNT,
        todo.len() > 0,
        fuel >= 1,
        interior_coord(todo.last().loc),
        cells[flat_index(todo.last().loc)] + todo.last().grains <= 5,
    ensures
        cascade_run(cells, todo, fuel) == cascade_run(
            cells.update(
                flat_index(todo.last().loc),
                (cells[flat_index(todo.last().loc)] + todo.last().grains) as u8,
            ),
            todo.drop_last(),
            (fuel - 1) as nat,
        ),
{
    let t = todo.last();
    lemma_flat_index_bounds(t.loc);
    let total = cells[flat_index(t.loc)] + t.grains;
    assert(total / 6 == 0 && total % 6 == total) by (nonlinear_arith)
        requires
            0 <= total <= 5,
    ;
    assert(cascade_step(cells, todo) == Cascade::Running(
        cells.update(flat_index(t.loc), total as u8),
        todo.drop_last(),
    ));
}

/// A cell and its six axis-neighbours occupy seven distinct linear indices.
pub proof fn lemma_neighbour_indices_distinct(c: Coord)
    requires
        deep_interior_coord(c),
    ensures
        flat_index(nbr_xp(c)) != flat_index(c),
        flat_index(nbr_xm(c)) != flat_index(c),
        flat_index(nbr_yp(c)) != flat_index(c),
        flat_index(nbr_ym(c)) != flat_index(c),
        flat_index(nbr_zp(c)) != flat_index(c),
        flat_index(nbr_zm(c)) != flat_index(c),
        flat_index(nbr_xp(c)) != flat_index(nbr_xm(c)),
        flat_index(nbr_xp(c)) != flat_index(nbr_yp(c)),
        flat_index(nbr_xp(c)) != flat_index(nbr_ym(c)),
        flat_index(nbr_xp(c)) != flat_index(nbr_zp(c)),
        flat_index(nbr_xp(c)) != flat_index(nbr_zm(c)),
        flat_index(nbr_xm(c)) != flat_index(nbr_yp(c)),
        flat_index(nbr_xm(c)) != flat_index(nbr_ym(c)),
        flat_index(nbr_xm(c)) != flat_index(nbr_zp(c)),
        flat_index(nbr_xm(c)) != flat_index(nbr_zm(c)),
        flat_index(nbr_yp(c)) != flat_index(nbr_ym(c)),
        flat_index(nbr_yp(c)) != flat_index(nbr_zp(c)),
        flat_index(nbr_yp(c)) != flat_index(nbr_zm(c)),
        flat_index(nbr_ym(c)) != flat_index(nbr_zp(c)),
        flat_index(nbr_ym(c)) != flat_index(nbr_zm(c)),
        flat_index(nbr_zp(c)) != flat_index(nbr_zm(c)),
{
    let all = seq![c, nbr_xp(c), nbr_xm(c), nbr_yp(c), nbr_ym(c), nbr_zp(c), nbr_zm(c)];
    assert forall|p: int, q: int|
        0 <= p < 7 && 0 <= q < 7 && p != q implies flat_index(#[trigger] all[p]) != flat_index(
        #[trigger] all[q],
    ) by {
        if flat_index(all[p]) == flat_index(all[q]) {
            lemma_flat_index_injective(all[p], all[q]);
        }
    }
    assert(all[0] == c && all[1] == nbr_xp(c) && all[2] == nbr_xm(c) && all[3] == nbr_yp(c)
        && all[4] == nbr_ym(c) && all[5] == nbr_zp(c) && all[6] == nbr_zm(c));
}

/// The cells after an injection that fires the target cell exactly once and
/// whose neighbours absorb their share: the target keeps the remainder, and
/// each axis-neighbour gains one grain.
pub open spec fn one_topple_result(cells: Seq<u8>, target: Coord, count: usize) -> Seq<u8> {
    cells.update(flat_index(target), (cells[flat_index(target)] + count - 6) as u8).update(
        flat_index(nbr_xp(target)),
        (cells[flat_index(nbr_xp(target))] + 1) as u8,
    ).update(flat_index(nbr_xm(target)), (cells[flat_index(nbr_xm(target))] + 1) as u8).update(
        flat_index(nbr_yp(target)),
        (cells[flat_index(nbr_yp(target))] + 1) as u8,
    ).update(flat_index(nbr_ym(target)), (cells[flat_index(nbr_ym(target))] + 1) as u8).update(
        flat_index(nbr_zp(target)),
        (cells[flat_index(nbr_zp(target))] + 1) as u8,
    ).update(flat_index(nbr_zm(target)), (cells[flat_index(nbr_zm(target))] + 1) as u8)
}

/// An injection that fires the target cell exactly once, with neighbours
/// that absorb one grain each, settles in seven pops.
pub proof fn lemma_one_topple_run(cells: Seq<u8>, target: Coord, count: usize)
    requires
        cells.len() == CELL_COUNT,
        deep_interior_coord(target),
        6 <= cells[flat_index(target)] + count <= 11,
        cells[flat_index(nbr_xp(target))] <= 4,
        cells[flat_index(nbr_xm(target))] <= 4,
        cells[flat_index(nbr_yp(target))] <= 4,
        cells[flat_index(nbr_ym(target))] <= 4,
        cells[flat_index(nbr_zp(target))] <= 4,
        cells[flat_index(nbr_zm(target))] <= 4,
    ensures
        cascade_run(cells, injection_todo(target, count), 8) == Cascade::Done(
            one_topple_result(cells, target, count),
        ),
{
    let it = flat_index(target);
    lemma_flat_index_bounds(target);
    lemma_flat_index_bounds(nbr_xp(target));
    lemma_flat_index_bounds(nbr_xm(target));
    lemma_flat_index_bounds(nbr_yp(target));
    lemma_flat_index_bounds(nbr_ym(target));
    lemma_flat_index_bounds(nbr_zp(target));
    lemma_flat_index_bounds(nbr_zm(target));
    lemma_neighbour_indices_distinct(target);
    let td0 = injection_todo(target, count);
    let total = cells[it] + count;
    assert(total / 6 == 1 && total % 6 == total - 6) by (nonlinear_arith)
        requires
            6 <= total <= 11,
    ;
    let c1 = cells.update(it, (total - 6) as u8);
    assert(td0.last() == Task { loc: target, grains: count });
    assert(td0.drop_last() =~= Seq::<Task>::empty());
    let w1 = push_topples(Seq::<Task>::empty(), target, 1);
    assert(cascade_step(cells, td0) == Cascade::Running(c1, w1));
    assert(cascade_run(cells, td0, 8) == cascade_run(c1, w1, 7));
    let e = Seq::<Task>::empty();
    let t1 = (Task { loc: nbr_xp(target), grains: 1 });
    let t2 = (Task { loc: nbr_xm(target), grains: 1 });
    let t3 = (Task { loc: nbr_yp(target), grains: 1 });
    let t4 = (Task { loc: nbr_ym(target), grains: 1 });
    let t5 = (Task { loc: nbr_zp(target), grains: 1 });
    let t6 = (Task { loc: nbr_zm(target), grains: 1 });
    assert(w1 == e.push(t1).push(t2).push(t3).push(t4).push(t5).push(t6));
    assert(w1.last() == t6);
    assert(w1.drop_last() =~= e.push(t1).push(t2).push(t3).push(t4).push(t5));
    lemma_absorb_step(c1, w1, 7);
    let c2 = c1.update(flat_index(t6.loc), (c1[flat_index(t6.loc)] + 1) as u8);
    let w2 = e.push(t1).push(t2).push(t3).push(t4).push(t5);
    assert(cascade_run(c1, w1, 7) == cascade_run(c2, w2, 6));
    assert(w2.last() == t5);
    assert(w2.drop_last() =~= e.push(t1).push(t2).push(t3).push(t4));
    lemma_absorb_step(c2, w2, 6);
    let c3 = c2.update(flat_index(t5.loc), (c2[flat_index(t5.loc)] + 1) as u8);
    let w3 = e.push(t1).push(t2).push(t3).push(t4);
    assert(cascade_run(c2, w2, 6) == cascade_run(c3, w3, 5));
    assert(w3.last() == t4);
    assert(w3.drop_last() =~= e.push(t1).push(t2).push(t3));
    lemma_absorb_step(c3, w3, 5);
    let c4 = c3.update(flat_index(t4.loc), (c3[flat_index(t4.loc)] + 1) as u8);
    let w4 = e.push(t1).push(t2).push(t3);
    assert(cascade_run(c3, w3, 5) == cascade_run(c4, w4, 4));
    assert(w4.last() == t3);
    assert(w4.drop_last() =~= e.push(t1).push(t2));
    lemma_absorb_step(c4, w4, 4);
    let c5 = c4.update(flat_index(t3.loc), (c4[flat_index(t3.loc)] + 1) as u8);
    let w5 = e.push(t1).push(t2);
    assert(cascade_run(c4, w4, 4) == cascade_run(c5, w5, 3));
    assert(w5.last() == t2);
    assert(w5.drop_last() =~= e.push(t1));
    lemma_absorb_step(c5, w5, 3);
    let c6 = c5.update(flat_index(t2.loc), (c5[flat_index(t2.loc)] + 1) as u8);
    let w6 = e.push(t1);
    assert(cascade_run(c5, w5, 3) == cascade_run(c6, w6, 2));
    assert(w6.last() == t1);
    assert(w6.drop_last() =~= e);
    lemma_absorb_step(c6, w6, 2);
    let c7 = c6.update(flat_index(t1.loc), (c6[flat_index(t1.loc)] + 1) as u8);
    assert(cascade_run(c6, w6, 2) == cascade_run(c7, e, 1));
    assert(cascade_run(c7, e, 1) == Cascade::Done(c7));
    assert(c7 =~= one_topple_result(cells, target, count));
}

/// Order-independence where no topple fires: grains that the target cell
/// can absorb may be injected in two rounds or in one, and the cells come
/// to the same rest. The abelian property of the model, in the regime the
/// cascade settles immediately.
pub proof fn lemma_abelian_no_topple(cells: Seq<u8>, target: Coord, a: usize, b: usize)
    requires
        cells.len() == CELL_COUNT,
        interior_coord(target),
        cells[flat_index(target)] + a + b <= 5,
    ensures
        ({
            let first = cells.update(
                flat_index(target),
                (cells[flat_index(target)] + a) as u8,
            );
            let settled = cells.update(
                flat_index(target),
                (cells[flat_index(target)] + a + b) as u8,
            );
            &&& cascade_run(cells, injection_todo(target, a), 2) == Cascade::Done(first)
            &&& cascade_run(first, injection_todo(target, b), 2) == Cascade::Done(settled)
            &&& cascade_run(cells, injection_todo(target, (a + b) as usize), 2)
                == Cascade::Done(settled)
        }),
{
    lemma_flat_index_bounds(target);
    let i = flat_index(target);
    let first = cells.update(i, (cells[i] + a) as u8);
    lemma_small_injection_run(cells, target, a);
    lemma_small_injection_run(first, target, b);
    assert(first.update(i, (first[i] + b) as u8) =~= cells.update(
        i,
        (cells[i] + a + b) as u8,
    ));
    lemma_small_injection_run(cells, target, (a + b) as usize);
}

/// Order-independence across one topple: grains injected in two rounds at
/// the same cell — the first resting, the second firing the cell once —
/// settle exactly as the whole amount injected at once. The abelian
/// property of the model, in the single-topple regime.
pub proof fn lemma_abelian_one_topple(cells: Seq<u8>, target: Coord, a: usize, b: usize)
    requires
        cells.len() == CELL_COUNT,
        deep_interior_coord(target),
        cells[flat_index(target)] + a <= 5,
        6 <= cells[flat_index(target)] + a + b <= 11,
        cells[flat_index(nbr_xp(target))] <= 4,
        cells[flat_index(nbr_xm(target))] <= 4,
        cells[flat_index(nbr_yp(target))] <= 4,
        cells[flat_index(nbr_ym(target))] <= 4,
        cells[flat_index(nbr_zp(target))] <= 4,
        cells[flat_index(nbr_zm(target))] <= 4,
    ensures
        ({
            let first = cells.update(
                flat_index(target),
                (cells[flat_index(target)] + a) as u8,
            );
            let settled = one_topple_result(cells, target, (a + b) as usize);
            &&& cascade_run(cells, injection_todo(target, a), 2) == Cascade::Done(first)
            &&& cascade_run(first, injection_todo(target, b), 8) == Cascade::Done(settled)
            &&& cascade_run(cells, injection_todo(target, (a + b) as usize), 8)
                == Cascade::Done(settled)
        }),
{
    let it = flat_index(target);
    lemma_flat_index_bounds(target);
    lemma_neighbour_indices_distinct(target);
    let first = cells.update(it, (cells[it] + a) as u8);
    lemma_small_injection_run(cells, target, a);
    lemma_one_topple_run(first, target, b);
    assert(one_topple_result(first, target, b) =~= one_topple_result(
        cells,
        target,
        (a + b) as usize,
    ));
    lemma_one_topple_run(cells, target, (a + b) as usize);
}

} // verus!
