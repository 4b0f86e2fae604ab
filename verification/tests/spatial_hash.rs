use particle_system::spatial_hash::{cell_coordinate, SpatialHash, SCALE};

fn grid() -> SpatialHash<u32> {
    let mut h: SpatialHash<u32> = SpatialHash::new();
    h.init_hashmap();
    h
}

#[test]
fn cell_coordinate_inside_screen() {
    assert_eq!(cell_coordinate(0, 50), 1);
    assert_eq!(cell_coordinate(1, 50), 1);
    assert_eq!(cell_coordinate(49, 50), 1);
    assert_eq!(cell_coordinate(50, 50), 2);
    assert_eq!(cell_coordinate(99, 50), 2);
    assert_eq!(cell_coordinate(-1, 50), -1);
    assert_eq!(cell_coordinate(-49, 50), -1);
    assert_eq!(cell_coordinate(-50, 50), -2);
    assert_eq!(cell_coordinate(-99, 50), -2);
}

#[test]
fn cell_coordinate_clamps_outside_screen() {
    assert_eq!(cell_coordinate(100, 50), 2);
    assert_eq!(cell_coordinate(1000, 50), 2);
    assert_eq!(cell_coordinate(-100, 50), -2);
    assert_eq!(cell_coordinate(-1000, 50), -2);
    assert_eq!(cell_coordinate(120, 30), 4);
}

#[test]
fn cell_coordinate_other_cell_sizes() {
    assert_eq!(cell_coordinate(24, 25), 1);
    assert_eq!(cell_coordinate(25, 25), 2);
    assert_eq!(cell_coordinate(-75, 25), -4);
    assert_eq!(cell_coordinate(99, 100), 1);
}

#[test]
fn hash_id_of_positions() {
    let h = grid();
    assert_eq!(h.hash_id(10, 10), (1, 1));
    assert_eq!(h.hash_id(0, 0), (1, 1));
    assert_eq!(h.hash_id(-60, 70), (-2, 2));
    assert_eq!(h.hash_id(150, -150), (2, -2));
    assert_eq!(h.hash_id(-1, -49), (-1, -1));
    assert_eq!(h.hash_id(50, -50), (2, -2));
}

#[test]
fn hash_is_mirror_symmetric() {
    let h = grid();
    for p in [-250, -99, -51, -50, -1, 1, 7, 49, 50, 99, 300] {
        let (x, y) = h.hash_id(p, -p);
        let (mx, my) = h.hash_id(-p, p);
        assert_eq!(mx, -x);
        assert_eq!(my, -y);
    }
}

#[test]
fn new_hash_has_no_cells() {
    let h: SpatialHash<u32> = SpatialHash::new();
    assert_eq!(h.cell_keys().len(), 0);
    assert!(h.get((1, 1)).is_none());
}

#[test]
fn add_without_cells_fails() {
    let mut h: SpatialHash<u32> = SpatialHash::new();
    assert!(!h.add(10, 10, 7));
    assert_eq!(h.cell_keys().len(), 0);
}

#[test]
fn init_creates_sixteen_empty_cells() {
    let h = grid();
    let keys = h.cell_keys();
    assert_eq!(keys.len(), 16);
    for i in [-2, -1, 1, 2] {
        for j in [-2, -1, 1, 2] {
            assert!(keys.contains(&(i, j)));
            assert_eq!(h.get((i, j)).map(|v| v.len()), Some(0));
        }
    }
    assert!(h.get((0, 1)).is_none());
    assert!(h.get((3, 1)).is_none());
    assert!(h.get((1, -3)).is_none());
}

#[test]
fn init_twice_gives_empty_cells_again() {
    let mut h = grid();
    assert!(h.add(10, 10, 1));
    h.init_hashmap();
    assert_eq!(h.cell_keys().len(), 16);
    assert_eq!(h.get((1, 1)).unwrap().len(), 0);
}

#[test]
fn add_puts_item_in_its_cell_only() {
    let mut h = grid();
    assert!(h.add(10, 10, 1));
    assert!(h.add(20, 30, 2));
    assert!(h.add(-60, 70, 3));
    assert_eq!(h.get((1, 1)).unwrap(), &vec![1, 2]);
    assert_eq!(h.get((-2, 2)).unwrap(), &vec![3]);
    assert_eq!(h.get((2, 2)).unwrap().len(), 0);
    assert_eq!(h.cell_keys().len(), 16);
}

#[test]
fn every_position_finds_a_cell_after_init() {
    let mut h = grid();
    let mut n = 0;
    for x in (-130..=130).step_by(13) {
        for y in (-130..=130).step_by(17) {
            assert!(h.add(x, y, n));
            n += 1;
        }
    }
    let total: usize = h.cell_keys().iter().map(|k| h.get(*k).unwrap().len()).sum();
    assert_eq!(total, n as usize);
}

#[test]
fn reset_empties_bins_and_keeps_cells() {
    let mut h = grid();
    assert!(h.add(10, 10, 1));
    assert!(h.add(-90, -90, 2));
    h.reset();
    assert_eq!(h.cell_keys().len(), 16);
    for k in h.cell_keys().clone() {
        assert_eq!(h.get(k).unwrap().len(), 0);
    }
    assert!(h.add(-90, -90, 3));
    assert_eq!(h.get((-2, -2)).unwrap(), &vec![3]);
}

#[test]
fn draw_borders_outlines_the_grid() {
    let h: SpatialHash<u32> = SpatialHash::new();
    let shape = h.draw_borders();
    assert_eq!(shape.len(), 24);
    let expected: Vec<(i32, i32)> = vec![
        (-100, 100), (-100, -100), (-50, 100), (-50, -100),
        (0, 100), (0, -100), (50, 100), (50, -100),
        (100, -100), (-100, -100), (100, -50), (-100, -50),
        (100, 0), (-100, 0), (100, 50), (-100, 50),
        (100, 100), (-100, 100), (100, -100), (-100, -100),
        (100, -100), (100, 100), (100, -100), (100, 100),
    ];
    assert_eq!(shape, expected);
    assert_eq!(SCALE, 100);
}
