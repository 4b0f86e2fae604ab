use particle_system::fan::{fan_indices, FAN_VERTICES};

#[test]
fn fan_of_first_circle() {
    let idx = fan_indices(0);
    assert_eq!(idx.len(), 30);
    assert_eq!(&idx[0..6], &[0, 1, 2, 0, 2, 3]);
    assert_eq!(&idx[27..30], &[0, 10, 11]);
}

#[test]
fn fan_of_third_circle_is_offset() {
    let idx = fan_indices(2);
    assert_eq!(idx.len(), 30);
    for t in 0..10u32 {
        let base = 2 * FAN_VERTICES;
        assert_eq!(idx[(3 * t) as usize], base);
        assert_eq!(idx[(3 * t + 1) as usize], base + t + 1);
        assert_eq!(idx[(3 * t + 2) as usize], base + t + 2);
    }
    assert!(idx.iter().all(|&i| i >= 24 && i < 36));
}
