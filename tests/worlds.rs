use rumple::env::{World2d, World3d};

#[test]
fn try_simd() {
    let lanes = [(0, 0, 0), (100, 100, 100)];
    let r = 50;
    let any_lane = |world: &World3d| lanes.iter().any(|&(x, y, z)| world.collides_ball(x, y, z, r));

    let mut world = World3d::new();

    assert!(!any_lane(&world));
    world.add_ball(125, 100, 100, 25);
    assert!(any_lane(&world));

    world = World3d::new();

    world.add_aabb(-10, -10, -10, 10, 10, 10);
    assert!(any_lane(&world));
}

#[test]
fn world3d_ball_contact_is_inclusive() {
    let mut world = World3d::new();
    world.add_ball(0, 0, 0, 3);
    assert!(world.collides_ball(5, 0, 0, 2));
    assert!(!world.collides_ball(6, 0, 0, 2));
    assert!(world.collides_ball(0, 3, 4, 2));
    assert!(!world.collides_ball(0, 3, 5, 2));
}

#[test]
fn world3d_box_distance() {
    let mut world = World3d::new();
    world.add_aabb(0, 0, 0, 10, 10, 10);
    assert!(world.collides_ball(5, 5, 5, 0));
    assert!(world.collides_ball(13, 14, 5, 5));
    assert!(!world.collides_ball(13, 14, 5, 4));
    assert!(!world.collides_ball(-1, -1, -1, 1));
    assert!(world.collides_ball(-1, -1, -1, 2));
}

#[test]
fn world2d_ball_and_point() {
    let mut world = World2d::new();
    assert!(!world.collides_point(0, 0));
    world.add_ball(1_000, 1_000, 500);
    assert!(world.collides_point(1_300, 1_400));
    assert!(!world.collides_point(1_300, 1_401));
    assert!(world.collides_ball(0, 1_000, 500));
    assert!(!world.collides_ball(0, 1_000, 499));
    assert_eq!(world.num_balls(), 1);
    assert_eq!(world.ball(0), (1_000, 1_000, 500));
}

#[test]
fn world2d_box_uses_both_corners() {
    let mut world = World2d::new();
    world.add_aabb(0, 0, 100, 50);
    assert!(world.collides_point(100, 50));
    assert!(world.collides_point(60, 20));
    assert!(!world.collides_point(101, 20));
    assert!(world.collides_ball(103, 54, 5));
    assert!(!world.collides_ball(103, 54, 4));
}

#[test]
fn default_worlds_are_empty() {
    let w2 = World2d::default();
    assert_eq!(w2.num_balls(), 0);
    assert_eq!(w2.num_aabbs(), 0);
    assert!(!w2.collides_ball(0, 0, 1_000));
    let w3 = World3d::default();
    assert!(!w3.collides_ball(0, 0, 0, 1_000));
}

#[test]
fn world2d_box_getter() {
    let mut world = World2d::new();
    world.add_aabb(-3, -4, 5, 6);
    assert_eq!(world.aabb(0), (-3, -4, 5, 6));
}
