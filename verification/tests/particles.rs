//! Particle field behavior: deterministic seeding and stepping,
//! proportional resizing, wrapping and twinkling.

use imp_graph::particles::{ParticleSeed, ParticleSystem};
use imp_graph::theme::{Color, ParticleStyle};

fn style(count: usize) -> ParticleStyle {
    ParticleStyle {
        enabled: true,
        count,
        color: Color::rgb(200, 210, 230),
        size_min: 1_000_000,
        size_max: 3_000_000,
        speed: 2_000_000,
        opacity: 800_000,
    }
}

fn seed(pos_x: u64, pos_y: u64, dir_x: i64, dir_y: i64) -> ParticleSeed {
    ParticleSeed {
        pos_x,
        pos_y,
        dir_x,
        dir_y,
        speed: 1_000_000,
        size: 500_000,
        alpha: 1_000_000,
        phase: 0,
    }
}

const W: u64 = 800_000_000;
const H: u64 = 600_000_000;

#[test]
fn seeding_is_deterministic_and_exact() {
    let st = style(2);
    let seeds = vec![seed(0, 0, 1_000_000, 0), seed(500_000, 250_000, 0, -1_000_000)];
    let ps = ParticleSystem::new(&st, W, H, &seeds);
    assert_eq!(ps.particles.len(), 2);
    assert_eq!(ps.particles[0].x, 0);
    assert_eq!(ps.particles[0].y, 0);
    // full speed fraction blends to the full configured speed
    assert_eq!(ps.particles[0].vx, 2_000_000);
    assert_eq!(ps.particles[0].vy, 0);
    assert_eq!(ps.particles[0].size, 2_000_000);
    assert_eq!(ps.particles[0].alpha, 800_000);
    assert_eq!(ps.particles[1].x, (W / 2) as i64);
    assert_eq!(ps.particles[1].y, (H / 4) as i64);
    assert_eq!(ps.particles[1].vy, -2_000_000);
}

#[test]
fn update_is_deterministic_identical_trajectories() {
    let st = style(3);
    let seeds = vec![
        seed(100_000, 900_000, 707_106, 707_106),
        seed(500_000, 500_000, -433_000, 250_000),
        seed(990_000, 10_000, 0, 1_000_000),
    ];
    let mut a = ParticleSystem::new(&st, W, H, &seeds);
    let mut b = ParticleSystem::new(&st, W, H, &seeds);
    for dt in [16_667u64, 33_333, 8_000, 16_667, 100_000].iter().cycle().take(50) {
        a.update(*dt);
        b.update(*dt);
        assert_eq!(a.particles, b.particles);
    }
}

#[test]
fn particle_at_center_lands_on_center_of_doubled_canvas() {
    let st = style(1);
    let seeds = vec![seed(500_000, 500_000, 0, 0)];
    let mut ps = ParticleSystem::new(&st, W, H, &seeds);
    assert_eq!(ps.particles[0].x, (W / 2) as i64);
    assert_eq!(ps.particles[0].y, (H / 2) as i64);
    ps.resize(2 * W, 2 * H);
    assert_eq!(ps.particles[0].x, W as i64);
    assert_eq!(ps.particles[0].y, H as i64);
    assert_eq!(ps.width, 2 * W);
    assert_eq!(ps.height, 2 * H);
}

#[test]
fn position_integrates_at_the_sixty_per_second_baseline() {
    let st = style(1);
    let seeds = vec![seed(500_000, 500_000, 1_000_000, 0)];
    let mut ps = ParticleSystem::new(&st, W, H, &seeds);
    let x0 = ps.particles[0].x;
    // one second advances by speed * 60
    ps.update(1_000_000);
    assert_eq!(ps.particles[0].x, x0 + 2_000_000 * 60);
    // the phase advances by twice the step
    assert_eq!(ps.particles[0].phase, 2_000_000);
}

#[test]
fn positions_wrap_at_the_ten_pixel_margin() {
    let st = style(1);
    let seeds = vec![seed(1_000_000, 500_000, 1_000_000, 0)];
    let mut ps = ParticleSystem::new(&st, W, H, &seeds);
    // starting at the right edge and moving right for long enough
    // crosses the margin and reappears on the left
    let mut wrapped = false;
    for _ in 0..20 {
        ps.update(100_000);
        if ps.particles[0].x == -10_000_000 {
            wrapped = true;
            break;
        }
    }
    assert!(wrapped);
}

#[test]
fn twinkle_oscillates_between_sixty_and_full() {
    let st = style(1);
    let seeds = vec![seed(0, 0, 0, 0)];
    let ps = ParticleSystem::new(&st, W, H, &seeds);
    let p = ps.particles[0];
    assert_eq!(ps.twinkle_alpha(&p, 1_000_000), p.alpha);
    assert_eq!(ps.twinkle_alpha(&p, 0), p.alpha * 800_000 / 1_000_000);
    assert_eq!(ps.twinkle_alpha(&p, -1_000_000), p.alpha * 600_000 / 1_000_000);
}
