//! The sandpile grid and the grain-injection engine.

use crate::cascade::Cascade;
use crate::cascade::Task;
use crate::cascade::cascade_phi;
use crate::cascade::cascade_run;
use crate::cascade::cascade_step;
use crate::cascade::injection_todo;
use crate::cascade::lemma_cascade_step_properties;
use crate::cascade::lemma_last_pending;
use crate::cascade::lemma_only_outcome;
use crate::cascade::lemma_pending_nonneg;
use crate::cascade::lemma_run_succ;
use crate::cascade::lemma_seg_phi_nonneg;
use crate::cascade::lemma_todo_phi_nonneg;
use crate::cascade::lemma_zero_injection_run;
use crate::cascade::pending;
use crate::cascade::push_topples;
use crate::cascade::tasks_valid;
use crate::coords::Coord;
use crate::coords::CAPACITY;
use crate::coords::CELL_COUNT;
use crate::coords::WORLD_SIZE;
use crate::coords::flat_index;
use crate::coords::flat_index_of;
use crate::coords::interior_coord;
use crate::coords::lemma_flat_index_bounds;
use crate::coords::valid_coord;
use crate::mass::boundary_clear;
use crate::mass::cells_ok;
use crate::mass::lemma_mass_capacity;
use crate::mass::lemma_mass_nonneg;
use crate::mass::lemma_seg_mass_zero;
use crate::mass::mass;
use crate::mass::mass_of;
use crate::mass::stable_heights;
use vstd::pervasive::VecAdditionalExecFns;
use vstd::prelude::*;

verus! {

/// Error reported by the grid and the injection engine.
#[derive(Clone, Copy, Debug, PartialEq, Eq, Structural)]
pub enum SandpileError {
    /// The requested mass cannot fit, or the cascade reached the boundary
    /// shell: the lattice is too small for the requested injection.
    CapacityOverflow,
    /// A raw cell access named a coordinate outside the lattice.
    OutOfBounds,
}

/// The cubic lattice of pile heights and the running total of grains ever
/// injected.
pub struct World {
    data: Vec<u8>,
    total_grains: usize,
}

/// The lattice center, where external commands inject grains.
pub open spec fn lattice_center() -> Coord {
    Coord { x: WORLD_SIZE / 2, y: WORLD_SIZE / 2, z: WORLD_SIZE / 2 }
}

/// The lattice center as a value.
pub fn center() -> (c: Coord)
    ensures
        c == lattice_center(),
{
    Coord { x: WORLD_SIZE / 2, y: WORLD_SIZE / 2, z: WORLD_SIZE / 2 }
}

impl World {
    /// The heights of all cells, in row-major order.
    pub closed spec fn cells(self) -> Seq<u8> {
        self.data@
    }

    /// Grains ever injected.
    pub closed spec fn grains(self) -> int {
        self.total_grains as int
    }

    /// The grid has its full size.
    pub open spec fn len_ok(self) -> bool {
        self.cells().len() == CELL_COUNT
    }

    /// Stable well-formed grid: full size, every height at most five, the
    /// boundary shell empty.
    pub open spec fn wf(self) -> bool {
        cells_ok(self.cells())
    }

    /// Grain accounting is exact: the heights sum to the injected total.
    /// Holds from creation through any sequence of injections.
    pub open spec fn conserved(self) -> bool {
        mass(self.cells()) == self.grains()
    }

    /// Cumulative number of grains ever injected, for display.
    pub fn total_grains(&self) -> (n: usize)
        ensures
            n == self.grains(),
    {
        self.total_grains
    }

    /// Read-only snapshot of every cell height in row-major order, one byte
    /// per cell: the texture data handed to a renderer.
    pub fn to_color_array(&self) -> (r: &[u8])
        ensures
            r@ == self.cells(),
    {
        self.data.as_slice()
    }

    /// Current height of the cell at `c`; rejects coordinates outside the
    /// lattice.
    pub fn read(&self, c: Coord) -> (r: Result<u8, SandpileError>)
        requires
            self.len_ok(),
        ensures
            (match r {
                Ok(h) => valid_coord(c) && h == self.cells()[flat_index(c)],
                Err(e) => !valid_coord(c) && e == SandpileError::OutOfBounds,
            }),
    {
        if c.x < WORLD_SIZE && c.y < WORLD_SIZE && c.z < WORLD_SIZE {
            proof {
                lemma_flat_index_bounds(c);
            }
            let i = flat_index_of(c);
            Ok(self.data[i])
        } else {
            Err(SandpileError::OutOfBounds)
        }
    }

    /// Set the height of the cell at `c`; rejects coordinates outside the
    /// lattice. Raw access with no further validation: the caller keeps the
    /// stability invariant.
    pub fn write(&mut self, c: Coord, value: u8) -> (r: Result<(), SandpileError>)
        requires
            old(self).len_ok(),
        ensures
            final(self).len_ok(),
            final(self).grains() == old(self).grains(),
            (match r {
                Ok(()) => valid_coord(c) && final(self).cells() == old(self).cells().update(
                    flat_index(c),
                    value,
                ),
                Err(e) => !valid_coord(c) && e == SandpileError::OutOfBounds && *final(self)
                    == *old(self),
            }),
    {
        if c.x < WORLD_SIZE && c.y < WORLD_SIZE && c.z < WORLD_SIZE {
            proof {
                lemma_flat_index_bounds(c);
            }
            let i = flat_index_of(c);
            self.data.set(i, value);
            Ok(())
        } else {
            Err(SandpileError::OutOfBounds)
        }
    }
}

/// Copy a grid buffer.
fn copy_cells(v: &Vec<u8>) -> (r: Vec<u8>)
    ensures
        r@ == v@,
{
    let mut r: Vec<u8> = Vec::new();
    let n = v.len();
    let mut i: usize = 0;
    while i < n
        invariant
            i <= n,
            n == v@.len(),
            r@ == v@.subrange(0, i as int),
        decreases n - i,
    {
        r.push(v[i]);
        proof {
            assert(r@ =~= v@.subrange(0, i + 1));
        }
        i = i + 1;
    }
    proof {
        assert(r@ =~= v@);
    }
    r
}

impl World {
    /// Inject `count` grains at the interior cell `target` and drive the
    /// toppling cascade to rest.
    ///
    /// On success the grid is the stable configuration that the worklist
    /// cascade reaches, and both the grain counter and the held mass grow
    /// by exactly `count`. On capacity overflow — when the requested mass
    /// cannot fit, or when the cascade reaches the boundary shell — the
    /// grid is left exactly as it was: atomic rejection.
    pub fn inject(&mut self, target: Coord, count: usize) -> (r: Result<(), SandpileError>)
        requires
            old(self).wf(),
            interior_coord(target),
            old(self).grains() + count <= usize::MAX,
        ensures
            final(self).wf(),
            old(self).conserved() ==> final(self).conserved(),
            (match r {
                Ok(()) => {
                    &&& final(self).grains() == old(self).grains() + count
                    &&& mass(final(self).cells()) == mass(old(self).cells()) + count
                    &&& mass(old(self).cells()) + count <= CAPACITY
                    &&& exists|n: nat|
                        cascade_run(old(self).cells(), injection_todo(target, count), n)
                            == Cascade::Done(final(self).cells())
                },
                Err(e) => {
                    &&& e == SandpileError::CapacityOverflow
                    &&& *final(self) == *old(self)
                    &&& mass(old(self).cells()) + count > CAPACITY || (exists|n: nat|
                        cascade_run(old(self).cells(), injection_todo(target, count), n)
                            == Cascade::Failed)
                },
            }),
            mass(old(self).cells()) + count > CAPACITY ==> r is Err,
            (exists|n: nat|
                cascade_run(old(self).cells(), injection_todo(target, count), n)
                    == Cascade::Failed) ==> r is Err,
            mass(old(self).cells()) + count <= CAPACITY && (exists|n: nat, d: Seq<u8>|
                cascade_run(old(self).cells(), injection_todo(target, count), n)
                    == Cascade::Done(d)) ==> r is Ok,
            count == 0 ==> r is Ok && *final(self) == *old(self),
    {
        let ghost init_cells = self.data@;
        let ghost init_todo = injection_todo(target, count);
        if count == 0 {
            proof {
                lemma_mass_capacity(init_cells);
                lemma_zero_injection_run(init_cells, target);
                lemma_only_outcome(init_cells, init_todo, 2);
            }
            return Ok(());
        }
        if count > CAPACITY {
            proof {
                lemma_mass_nonneg(init_cells);
            }
            return Err(SandpileError::CapacityOverflow);
        }
        proof {
            lemma_mass_nonneg(init_cells);
        }
        let held = mass_of(&self.data);
        if held + count > CAPACITY {
            return Err(SandpileError::CapacityOverflow);
        }
        let mut work = copy_cells(&self.data);
        let mut todo: Vec<Task> = Vec::new();
        todo.push(Task { loc: target, grains: count });
        let ghost mut steps: nat = 0;
        proof {
            assert(todo@ =~= init_todo);
            assert(tasks_valid(todo@));
            lemma_seg_phi_nonneg(work@, CELL_COUNT as int);
            lemma_todo_phi_nonneg(todo@);
            assert(pending(todo@) == pending(todo@.drop_last()) + count);
            assert(todo@.drop_last() =~= Seq::<Task>::empty());
        }
        while todo.len() > 0
            invariant
                *self == *old(self),
                old(self).wf(),
                count > 0,
                init_cells == old(self).cells(),
                init_todo == injection_todo(target, count),
                work@.len() == CELL_COUNT,
                stable_heights(work@),
                boundary_clear(work@),
                tasks_valid(todo@),
                mass(work@) + pending(todo@) == mass(init_cells) + count,
                mass(init_cells) + count <= CAPACITY,
                cascade_run(init_cells, init_todo, steps) == Cascade::Running(work@, todo@),
            decreases cascade_phi(work@, todo@), todo@.len(),
        {
            let ghost cells_pre = work@;
            let ghost todo_pre = todo@;
            let task = todo.pop().unwrap();
            proof {
                assert(task == todo_pre.last());
                assert(todo@ == todo_pre.drop_last());
                lemma_cascade_step_properties(cells_pre, todo_pre);
                lemma_run_succ(init_cells, init_todo, steps);
            }
            if !(0 < task.loc.x && task.loc.x < WORLD_SIZE - 1 && 0 < task.loc.y && task.loc.y
                < WORLD_SIZE - 1 && 0 < task.loc.z && task.loc.z < WORLD_SIZE - 1) {
                proof {
                    assert(cascade_step(cells_pre, todo_pre) == Cascade::Failed);
                    assert(cascade_run(init_cells, init_todo, steps + 1) == Cascade::Failed);
                    lemma_only_outcome(init_cells, init_todo, steps + 1);
                }
                return Err(SandpileError::CapacityOverflow);
            }
            proof {
                lemma_last_pending(todo_pre);
                lemma_pending_nonneg(todo@);
                lemma_mass_nonneg(cells_pre);
            }
            let i = flat_index_of(task.loc);
            let h = work[i];
            let pile = h as usize + task.grains;
            let k = pile / 6;
            let rem = (pile % 6) as u8;
            work.set(i, rem);
            if k > 0 {
                todo.push(
                    Task {
                        loc: Coord { x: task.loc.x + 1, y: task.loc.y, z: task.loc.z },
                        grains: k,
                    },
                );
                todo.push(
                    Task {
                        loc: Coord { x: task.loc.x - 1, y: task.loc.y, z: task.loc.z },
                        grains: k,
                    },
                );
                todo.push(
                    Task {
                        loc: Coord { x: task.loc.x, y: task.loc.y + 1, z: task.loc.z },
                        grains: k,
                    },
                );
                todo.push(
                    Task {
                        loc: Coord { x: task.loc.x, y: task.loc.y - 1, z: task.loc.z },
                        grains: k,
                    },
                );
                todo.push(
                    Task {
                        loc: Coord { x: task.loc.x, y: task.loc.y, z: task.loc.z + 1 },
                        grains: k,
                    },
                );
                todo.push(
                    Task {
                        loc: Coord { x: task.loc.x, y: task.loc.y, z: task.loc.z - 1 },
                        grains: k,
                    },
                );
                proof {
                    assert(todo@ =~= push_topples(todo_pre.drop_last(), task.loc, k));
                }
            }
            proof {
                assert(cascade_step(cells_pre, todo_pre) == Cascade::Running(work@, todo@));
                assert(cascade_run(init_cells, init_todo, steps + 1) == Cascade::Running(
                    work@,
                    todo@,
                ));
                steps = steps + 1;
                lemma_seg_phi_nonneg(work@, CELL_COUNT as int);
                lemma_todo_phi_nonneg(todo@);
            }
        }
        proof {
            lemma_run_succ(init_cells, init_todo, steps);
            assert(cascade_run(init_cells, init_todo, steps + 1) == Cascade::Done(work@));
            lemma_only_outcome(init_cells, init_todo, steps + 1);
        }
        self.data = work;
        self.total_grains = self.total_grains + count;
        Ok(())
    }

    /// Inject `num_grains` grains at the lattice center: the form in which
    /// external input events drive the simulation.
    pub fn add_sand(&mut self, num_grains: usize) -> (r: Result<(), SandpileError>)
        requires
            old(self).wf(),
            old(self).grains() + num_grains <= usize::MAX,
        ensures
            final(self).wf(),
            old(self).conserved() ==> final(self).conserved(),
            (match r {
                Ok(()) => {
                    &&& final(self).grains() == old(self).grains() + num_grains
                    &&& mass(final(self).cells()) == mass(old(self).cells()) + num_grains
                    &&& mass(old(self).cells()) + num_grains <= CAPACITY
                    &&& exists|n: nat|
                        cascade_run(
                            old(self).cells(),
                            injection_todo(lattice_center(), num_grains),
                            n,
                        ) == Cascade::Done(final(self).cells())
                },
                Err(e) => {
                    &&& e == SandpileError::CapacityOverflow
                    &&& *final(self) == *old(self)
                    &&& mass(old(self).cells()) + num_grains > CAPACITY || (exists|n: nat|
                        cascade_run(
                            old(self).cells(),
                            injection_todo(lattice_center(), num_grains),
                            n,
                        ) == Cascade::Failed)
                },
            }),
            mass(old(self).cells()) + num_grains > CAPACITY ==> r is Err,
            (exists|n: nat|
                cascade_run(old(self).cells(), injection_todo(lattice_center(), num_grains), n)
                    == Cascade::Failed) ==> r is Err,
            mass(old(self).cells()) + num_grains <= CAPACITY && (exists|n: nat, d: Seq<u8>|
                cascade_run(old(self).cells(), injection_todo(lattice_center(), num_grains), n)
                    == Cascade::Done(d)) ==> r is Ok,
            num_grains == 0 ==> r is Ok && *final(self) == *old(self),
    {
        self.inject(center(), num_grains)
    }
}

impl Default for World {
    /// An empty lattice: every cell at height zero, no grains injected.
    fn default() -> (w: World)
        ensures
            w.wf(),
            w.conserved(),
            w.grains() == 0,
            forall|i: int| 0 <= i < CELL_COUNT ==> w.cells()[i] == 0,
    {
        let mut data: Vec<u8> = Vec::new();
        let mut i: usize = 0;
        while i < CELL_COUNT
            invariant
                i <= CELL_COUNT,
                data@.len() == i,
                forall|j: int| 0 <= j < i ==> data@[j] == 0,
            decreases CELL_COUNT - i,
        {
            data.push(0);
            i = i + 1;
        }
        proof {
            lemma_seg_mass_zero(data@, 0, CELL_COUNT as int);
            assert forall|c: Coord| valid_coord(c) && !interior_coord(c) implies data@[#[trigger] flat_index(
                c,
            )] == 0 by {
                lemma_flat_index_bounds(c);
            }
        }
        World { data, total_grains: 0 }
    }
}

} // verus!
