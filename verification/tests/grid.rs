use sandpile::Coord;
use sandpile::SandpileError;
use sandpile::World;
use sandpile::CELL_COUNT;
use sandpile::WORLD_SIZE;

fn idx(x: usize, y: usize, z: usize) -> usize {
    (x * WORLD_SIZE + y) * WORLD_SIZE + z
}

#[test]
fn default_world_is_empty() {
    let w = World::default();
    assert_eq!(w.total_grains(), 0);
    let snapshot = w.to_color_array();
    assert_eq!(snapshot.len(), CELL_COUNT);
    assert!(snapshot.iter().all(|&h| h == 0));
}

#[test]
fn read_rejects_out_of_bounds() {
    let w = World::default();
    assert_eq!(
        w.read(Coord { x: WORLD_SIZE, y: 0, z: 0 }),
        Err(SandpileError::OutOfBounds)
    );
    assert_eq!(
        w.read(Coord { x: 0, y: WORLD_SIZE, z: 0 }),
        Err(SandpileError::OutOfBounds)
    );
    assert_eq!(
        w.read(Coord { x: 3, y: 4, z: usize::MAX }),
        Err(SandpileError::OutOfBounds)
    );
    assert_eq!(w.read(Coord { x: 0, y: 0, z: 0 }), Ok(0));
}

#[test]
fn write_then_read_roundtrip() {
    let mut w = World::default();
    let c = Coord { x: 5, y: 6, z: 7 };
    assert_eq!(w.write(c, 3), Ok(()));
    assert_eq!(w.read(c), Ok(3));
    assert_eq!(w.read(Coord { x: 5, y: 6, z: 8 }), Ok(0));
}

#[test]
fn write_rejects_out_of_bounds() {
    let mut w = World::default();
    assert_eq!(
        w.write(Coord { x: 0, y: WORLD_SIZE + 4, z: 0 }, 9),
        Err(SandpileError::OutOfBounds)
    );
    assert!(w.to_color_array().iter().all(|&h| h == 0));
}

#[test]
fn snapshot_order_is_row_major() {
    let mut w = World::default();
    assert_eq!(w.write(Coord { x: 1, y: 2, z: 3 }, 4), Ok(()));
    let snapshot = w.to_color_array();
    assert_eq!(snapshot[idx(1, 2, 3)], 4);
    assert_eq!(snapshot[idx(3, 2, 1)], 0);
}

#[test]
fn snapshot_reflects_simulation_state() {
    let mut w = World::default();
    w.add_sand(4).unwrap();
    let snapshot = w.to_color_array();
    assert_eq!(snapshot[idx(64, 64, 64)], 4);
    assert_eq!(snapshot.iter().map(|&h| h as u64).sum::<u64>(), 4);
}
