//! Core of a three-dimensional abelian sandpile (chip-firing) simulation.
//!
//! Grains of sand are injected at a point of a fixed-size cubic lattice; any
//! cell that accumulates six or more grains topples, sending the surplus to
//! its six axis-neighbours, possibly triggering further topples. The library
//! owns the grid, drives the cascade to a stable configuration, and exposes a
//! read-only snapshot for a renderer. A cascade that would reach the boundary
//! shell is rejected atomically: the grid is left exactly as it was.
//!
//! The injection engine is verified against a deterministic small-step model
//! of the worklist cascade: every successful injection conserves grain mass,
//! leaves every pile height in `0..=5`, keeps the boundary shell empty, and
//! an injection whose mass exceeds the interior's capacity is always
//! rejected. The cascade loop provably terminates, by a potential function
//! that every topple strictly decreases.

pub mod cascade;
pub mod coords;
pub mod mass;
pub mod world;

pub use coords::Coord;
pub use coords::CAPACITY;
pub use coords::CELL_COUNT;
pub use coords::WORLD_SIZE;
pub use world::SandpileError;
pub use world::World;
