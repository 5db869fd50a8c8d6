use arena_shooter::enemy::{spawn_position, SPAWN_EXTENT};

#[test]
fn spawn_position_stays_inside_the_arena() {
    let mut xs = std::collections::BTreeSet::new();
    for _ in 0..500 {
        let (x, z) = spawn_position();
        assert!(-SPAWN_EXTENT <= x && x < SPAWN_EXTENT);
        assert!(-SPAWN_EXTENT <= z && z < SPAWN_EXTENT);
        xs.insert(x);
    }
    assert_eq!(SPAWN_EXTENT, 23);
    // the draw is not stuck on one end of the range
    assert!(xs.len() > 10);
}
