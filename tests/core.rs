use bullet_dodge::aim::{aim, aim_velocity, isqrt};
use bullet_dodge::collision::{collide_with_rotation, collide_with_rotation_multistep, Rotation};
use bullet_dodge::game::{player_step, spawn_angle_millirad, Game, Phase, SPAWN_ANGLE_STEPS};
use bullet_dodge::geometry::{point_in_rectangle, point_in_triangle, twice_area, Point};
use bullet_dodge::motion::{advance, bullet_movements, Projectile};

fn pt(x: i64, y: i64) -> Point {
    Point { x, y }
}

#[test]
fn twice_area_of_right_triangle() {
    assert_eq!(twice_area(pt(0, 0), pt(4, 0), pt(0, 3)), 12);
    assert_eq!(twice_area(pt(0, 0), pt(0, 3), pt(4, 0)), 12);
    assert_eq!(twice_area(pt(0, 0), pt(1, 1), pt(2, 2)), 0);
}

#[test]
fn triangle_inside_and_far_outside() {
    let (a, b, c) = (pt(0, 0), pt(30, 0), pt(0, 30));
    assert!(point_in_triangle(pt(10, 10), a, b, c));
    assert!(point_in_triangle(pt(1, 1), a, b, c));
    assert!(point_in_triangle(pt(15, 15), a, b, c));
    assert!(!point_in_triangle(pt(10 + 300, 10), a, b, c));
    assert!(!point_in_triangle(pt(10, 10 - 300), a, b, c));
    assert!(!point_in_triangle(pt(16, 15), a, b, c));
}

#[test]
fn rectangle_test_unchanged_by_quarter_turn() {
    // corners of the rectangle [-4, 4] x [-2, 2]: top-left, bottom-left, top-right, bottom-right
    let c = [pt(-4, 2), pt(-4, -2), pt(4, 2), pt(4, -2)];
    let turn = |p: Point| pt(-p.y, p.x);
    for t in [pt(3, 1), pt(4, 2), pt(5, 0), pt(0, 3), pt(-4, -2), pt(1, -3)] {
        let before = point_in_rectangle(t, c[0], c[1], c[2], c[3]);
        let after = point_in_rectangle(turn(t), turn(c[0]), turn(c[1]), turn(c[2]), turn(c[3]));
        assert_eq!(before, after);
    }
    assert!(point_in_rectangle(pt(3, 1), c[0], c[1], c[2], c[3]));
    assert!(!point_in_rectangle(pt(5, 0), c[0], c[1], c[2], c[3]));
}

#[test]
fn unrotated_square_boundary_inclusive() {
    let rot = Rotation::identity();
    assert!(collide_with_rotation(pt(4, 4), pt(0, 0), pt(10, 10), rot));
    assert!(!collide_with_rotation(pt(6, 6), pt(0, 0), pt(10, 10), rot));
    assert!(collide_with_rotation(pt(5, 5), pt(0, 0), pt(10, 10), rot));
}

#[test]
fn quarter_turned_rectangle() {
    // a 20 x 4 rectangle turned by 90 degrees stands upright
    let rot = Rotation { cos: 0, sin: 1, scale: 1 };
    assert!(collide_with_rotation(pt(0, 9), pt(0, 0), pt(20, 4), rot));
    assert!(!collide_with_rotation(pt(9, 0), pt(0, 0), pt(20, 4), rot));
    // a 3-4-5 rotation, exact
    let rot = Rotation { cos: 4, sin: 3, scale: 5 };
    assert!(collide_with_rotation(pt(8, 6), pt(0, 0), pt(20, 2), rot));
    assert!(!collide_with_rotation(pt(8, -6), pt(0, 0), pt(20, 2), rot));
}

#[test]
fn single_step_is_end_of_frame_only() {
    let rot = Rotation::identity();
    let size = pt(10, 10);
    let vel = pt(1000, 0);
    for p in [pt(0, 0), pt(-50, 0), pt(5, 5), pt(-100, 0), pt(6, 0)] {
        assert_eq!(
            collide_with_rotation_multistep(100, p, pt(0, 0), size, rot, vel, 1),
            collide_with_rotation(p, pt(0, 0), size, rot)
        );
    }
}

#[test]
fn finer_sampling_catches_tunnelling() {
    let rot = Rotation::identity();
    // thousandths of a unit: a 10 x 10 square moving 100 units in the frame
    let size = pt(10_000, 10_000);
    let vel = pt(1000, 0);
    let p = pt(-50_000, 0);
    let hit = |n: u16| collide_with_rotation_multistep(100, p, pt(0, 0), size, rot, vel, n);
    assert!(!hit(1));
    assert!(hit(2));
    assert!(!hit(3));
    assert!(hit(4));
    assert!(hit(6));
    assert!(hit(8));
    assert!(!collide_with_rotation_multistep(100, p, pt(0, 0), size, rot, vel, 0));
}

#[test]
fn samples_are_exact_fractions_of_the_frame() {
    // samples at x = 4, 4/3 and -4/3 units all miss a 2 x 2 square's reach
    let rot = Rotation::identity();
    let hit = |n: u16| {
        collide_with_rotation_multistep(500, pt(0, 0), pt(4000, 0), pt(2000, 2000), rot, pt(16, 0), n)
    };
    assert!(!hit(1));
    assert!(!hit(3));
    assert!(hit(2));
    assert!(hit(4));
}

#[test]
fn projectile_leaves_arena() {
    let b = Projectile { pos: pt(999_000, 0), vel: pt(100, 0), rot: Rotation::identity() };
    assert_eq!(advance(b, 100).pos, pt(1_009_000, 0));
    assert!(bullet_movements(&vec![b], 100).is_empty());
    let inside = Projectile { pos: pt(0, 0), vel: pt(-100, 50), rot: Rotation::identity() };
    let out = bullet_movements(&vec![b, inside], 100);
    assert_eq!(out.len(), 1);
    assert_eq!(out[0].pos, pt(-10_000, 5_000));
    let edge = Projectile { pos: pt(1_000_000, 0), vel: pt(1, 0), rot: Rotation::identity() };
    assert_eq!(advance(edge, 500).pos, pt(1_000_500, 0));
    assert!(bullet_movements(&vec![edge], 500).is_empty());
    let stay = Projectile { pos: pt(1_000_000, 0), vel: pt(0, 0), rot: Rotation::identity() };
    assert_eq!(bullet_movements(&vec![stay], 500).len(), 1);
}

#[test]
fn motion_is_exact_in_thousandths() {
    let b = Projectile { pos: pt(0, 0), vel: pt(-707, 707), rot: Rotation::identity() };
    assert_eq!(advance(b, 16).pos, pt(-11_312, 11_312));
    let slow = Projectile { pos: pt(0, 0), vel: pt(1, 44), rot: Rotation::identity() };
    assert_eq!(advance(slow, 500).pos, pt(500, 22_000));
}

#[test]
fn begin_then_one_spawn_interval() {
    let mut g = Game::new();
    assert_eq!(g.phase, Phase::Start);
    g.begin();
    assert_eq!(g.phase, Phase::Playing);
    assert_eq!(g.score_ms, 0);
    assert!(g.bullets.is_empty());
    assert!(!g.tick(100));
    assert!(!g.tick(99));
    assert!(g.tick(1));
    assert_eq!(g.score_ms, 200);
    assert_eq!(g.timer_ms, 0);
    g.move_player(pt(0, 300_000));
    g.spawn_at(pt(700_000, 300_000));
    assert_eq!(g.bullets.len(), 1);
    assert_eq!(g.bullets[0].pos, pt(700_000, 300_000));
    assert_eq!(g.bullets[0].vel, pt(-1000, 0));
    assert_eq!(g.bullets[0].rot, Rotation { cos: -1000, sin: 0, scale: 1000 });
}

#[test]
fn collision_ends_round_and_begin_resets() {
    let mut g = Game::new();
    g.begin();
    g.spawn(Projectile { pos: pt(30_000, 0), vel: pt(-1000, 0), rot: Rotation::identity() });
    g.move_bullets(20);
    assert_eq!(g.bullets[0].pos, pt(10_000, 0));
    assert!(!g.collides(20, pt(10_000, 10_000)));
    g.move_bullets(20);
    assert_eq!(g.bullets[0].pos, pt(-10_000, 0));
    // the projectile crossed the player between two frames
    assert!(g.collides(20, pt(10_000, 10_000)));
    assert!(!collide_with_rotation(pt(0, 0), pt(-10_000, 0), pt(10_000, 10_000), Rotation::identity()));
    g.tick(1234);
    g.end_round(true);
    assert_eq!(g.phase, Phase::Start);
    assert_eq!(g.score_ms, 1234);
    g.begin();
    assert_eq!(g.score_ms, 0);
    assert!(g.bullets.is_empty());
}

#[test]
fn player_is_clamped() {
    let mut g = Game::new();
    g.move_player(pt(480_000, -3_000));
    assert_eq!(g.player, pt(480_000, -3_000));
    g.move_player(pt(40_000, -600_000));
    assert_eq!(g.player, pt(500_000, -500_000));
}

#[test]
fn spawn_timer_wraps_and_score_saturates() {
    let mut g = Game::new();
    g.begin();
    assert!(g.tick(450));
    assert_eq!(g.timer_ms, 50);
    g.score_ms = u64::MAX - 1;
    g.tick(10);
    assert_eq!(g.score_ms, u64::MAX);
}

#[test]
fn spawn_angle_in_range() {
    for _ in 0..100 {
        assert!(spawn_angle_millirad() < SPAWN_ANGLE_STEPS);
    }
}

#[test]
fn integer_square_root() {
    assert_eq!(isqrt(0), 0);
    assert_eq!(isqrt(1), 1);
    assert_eq!(isqrt(15), 3);
    assert_eq!(isqrt(16), 4);
    assert_eq!(isqrt(1_000_000), 1000);
    assert_eq!(isqrt(u64::MAX), 4294967295);
}

#[test]
fn aim_scales_to_bullet_speed() {
    assert_eq!(aim_velocity(pt(0, 0), pt(3, 4)), pt(600, 800));
    assert_eq!(aim_velocity(pt(0, 0), pt(-10, 10)), pt(-707, 707));
    assert_eq!(aim_velocity(pt(700, 0), pt(0, 0)), pt(-1000, 0));
    assert_eq!(aim_velocity(pt(5, 5), pt(5, 5)), pt(0, 0));
    let b = aim(pt(5, 5), pt(5, 5));
    assert_eq!(b.rot, Rotation::identity());
    let b = aim(pt(0, -700), pt(0, 0));
    assert_eq!(b.vel, pt(0, 1000));
    assert_eq!(b.rot, Rotation { cos: 0, sin: 1000, scale: 1000 });
}

#[test]
fn player_step_straight_exact_diagonal_same_length() {
    assert_eq!(player_step(true, false, false, false, 100), pt(25_000, 0));
    assert_eq!(player_step(false, false, false, true, 100), pt(0, -25_000));
    assert_eq!(player_step(true, false, false, false, 10), pt(2_500, 0));
    assert_eq!(player_step(true, true, false, false, 100), pt(0, 0));
    assert_eq!(player_step(false, false, false, false, 100), pt(0, 0));
    assert_eq!(player_step(false, true, true, false, 100), pt(-17_677, 17_677));
    assert_eq!(player_step(true, false, false, true, 16), pt(2_828, -2_828));
    // the diagonal step is as long as the straight one, to within 1.5 thousandths
    let d = player_step(true, false, true, false, 16);
    let len2 = (d.x * d.x + d.y * d.y) as f64;
    assert!((len2.sqrt() - 4_000.0).abs() < 1.5);
}
