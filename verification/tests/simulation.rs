use sandpile::Coord;
use sandpile::SandpileError;
use sandpile::World;
use sandpile::CAPACITY;
use sandpile::WORLD_SIZE;

fn idx(x: usize, y: usize, z: usize) -> usize {
    (x * WORLD_SIZE + y) * WORLD_SIZE + z
}

fn grain_sum(w: &World) -> u64 {
    w.to_color_array().iter().map(|&h| h as u64).sum()
}

const CENTER: usize = 64;

#[test]
fn single_grain_at_center() {
    let mut w = World::default();
    assert_eq!(w.add_sand(1), Ok(()));
    assert_eq!(w.total_grains(), 1);
    let snapshot = w.to_color_array();
    for (i, &h) in snapshot.iter().enumerate() {
        if i == idx(CENTER, CENTER, CENTER) {
            assert_eq!(h, 1);
        } else {
            assert_eq!(h, 0);
        }
    }
}

#[test]
fn sixth_grain_topples_once() {
    let mut w = World::default();
    assert_eq!(w.add_sand(1), Ok(()));
    assert_eq!(w.add_sand(5), Ok(()));
    assert_eq!(w.total_grains(), 6);
    let c = CENTER;
    assert_eq!(w.read(Coord { x: c, y: c, z: c }), Ok(0));
    assert_eq!(w.read(Coord { x: c + 1, y: c, z: c }), Ok(1));
    assert_eq!(w.read(Coord { x: c - 1, y: c, z: c }), Ok(1));
    assert_eq!(w.read(Coord { x: c, y: c + 1, z: c }), Ok(1));
    assert_eq!(w.read(Coord { x: c, y: c - 1, z: c }), Ok(1));
    assert_eq!(w.read(Coord { x: c, y: c, z: c + 1 }), Ok(1));
    assert_eq!(w.read(Coord { x: c, y: c, z: c - 1 }), Ok(1));
    assert_eq!(grain_sum(&w), 6);
}

#[test]
fn million_grain_cascade() {
    let mut w = World::default();
    assert_eq!(w.add_sand(1), Ok(()));
    assert_eq!(w.add_sand(5), Ok(()));
    assert_eq!(w.add_sand(1_000_000), Ok(()));
    assert_eq!(w.total_grains(), 1_000_006);
    let snapshot = w.to_color_array();
    assert!(snapshot.iter().all(|&h| h <= 5));
    assert_eq!(grain_sum(&w), 1_000_006);
}

#[test]
fn conservation_across_injections() {
    let mut w = World::default();
    w.add_sand(37).unwrap();
    assert_eq!(grain_sum(&w), w.total_grains() as u64);
    w.inject(Coord { x: 10, y: 90, z: 40 }, 1234).unwrap();
    assert_eq!(grain_sum(&w), w.total_grains() as u64);
    w.inject(Coord { x: 64, y: 64, z: 64 }, 4321).unwrap();
    assert_eq!(w.total_grains(), 37 + 1234 + 4321);
    assert_eq!(grain_sum(&w), 37 + 1234 + 4321);
}

#[test]
fn stability_after_injection() {
    let mut w = World::default();
    w.add_sand(100_000).unwrap();
    assert!(w.to_color_array().iter().all(|&h| h <= 5));
}

#[test]
fn zero_injection_unchanged() {
    let mut w = World::default();
    w.add_sand(12345).unwrap();
    let before = w.to_color_array().to_vec();
    let total_before = w.total_grains();
    assert_eq!(w.add_sand(0), Ok(()));
    assert_eq!(w.to_color_array(), &before[..]);
    assert_eq!(w.total_grains(), total_before);
}

#[test]
fn abelian_order_independence() {
    let target = Coord { x: 40, y: 70, z: 55 };
    let mut split = World::default();
    split.inject(target, 20_007).unwrap();
    split.inject(target, 9_993).unwrap();

    let mut reversed = World::default();
    reversed.inject(target, 9_993).unwrap();
    reversed.inject(target, 20_007).unwrap();

    let mut at_once = World::default();
    at_once.inject(target, 30_000).unwrap();

    assert_eq!(split.to_color_array(), at_once.to_color_array());
    assert_eq!(reversed.to_color_array(), at_once.to_color_array());
    assert_eq!(split.total_grains(), at_once.total_grains());
}

#[test]
fn boundary_shell_stays_clear() {
    let mut w = World::default();
    w.add_sand(200_000).unwrap();
    let snapshot = w.to_color_array();
    let last = WORLD_SIZE - 1;
    for a in 0..WORLD_SIZE {
        for b in 0..WORLD_SIZE {
            assert_eq!(snapshot[idx(0, a, b)], 0);
            assert_eq!(snapshot[idx(last, a, b)], 0);
            assert_eq!(snapshot[idx(a, 0, b)], 0);
            assert_eq!(snapshot[idx(a, last, b)], 0);
            assert_eq!(snapshot[idx(a, b, 0)], 0);
            assert_eq!(snapshot[idx(a, b, last)], 0);
        }
    }
}

#[test]
fn overflow_beyond_capacity_is_rejected() {
    let mut w = World::default();
    assert_eq!(w.add_sand(CAPACITY + 1), Err(SandpileError::CapacityOverflow));
    assert_eq!(w.total_grains(), 0);
    assert!(w.to_color_array().iter().all(|&h| h == 0));
}

#[test]
fn overflow_at_boundary_rolls_back() {
    let mut w = World::default();
    let near_edge = Coord { x: 1, y: 64, z: 64 };
    assert_eq!(w.inject(near_edge, 1000), Err(SandpileError::CapacityOverflow));
    assert_eq!(w.total_grains(), 0);
    assert!(w.to_color_array().iter().all(|&h| h == 0));
}

#[test]
fn rejected_injection_leaves_state_usable() {
    let mut w = World::default();
    w.add_sand(500).unwrap();
    let before = w.to_color_array().to_vec();
    assert_eq!(w.add_sand(CAPACITY), Err(SandpileError::CapacityOverflow));
    assert_eq!(w.to_color_array(), &before[..]);
    assert_eq!(w.total_grains(), 500);
    assert_eq!(w.add_sand(500), Ok(()));
    assert_eq!(w.total_grains(), 1000);
    assert_eq!(grain_sum(&w), 1000);
}

#[test]
fn abelian_split_across_one_topple() {
    let target = Coord { x: 30, y: 31, z: 32 };
    let mut split = World::default();
    split.inject(target, 3).unwrap();
    split.inject(target, 2).unwrap();
    split.inject(target, 4).unwrap();

    let mut at_once = World::default();
    at_once.inject(target, 3).unwrap();
    at_once.inject(target, 6).unwrap();

    assert_eq!(split.to_color_array(), at_once.to_color_array());
    assert_eq!(split.read(target), Ok(3));
    assert_eq!(split.read(Coord { x: 31, y: 31, z: 32 }), Ok(1));
    assert_eq!(split.read(Coord { x: 29, y: 31, z: 32 }), Ok(1));
    assert_eq!(split.read(Coord { x: 30, y: 32, z: 32 }), Ok(1));
    assert_eq!(split.read(Coord { x: 30, y: 30, z: 32 }), Ok(1));
    assert_eq!(split.read(Coord { x: 30, y: 31, z: 33 }), Ok(1));
    assert_eq!(split.read(Coord { x: 30, y: 31, z: 31 }), Ok(1));
}
