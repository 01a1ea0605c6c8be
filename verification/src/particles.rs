//! Ambient particle effects for visual atmosphere.
//!
//! Positions and sizes are micro-pixels, velocities micro-pixels per
//! frame at the sixty-per-second baseline, times micro-seconds, alphas
//! micro-unit fractions of one. The field is seeded from plain values the
//! caller derives deterministically per index, and every step is an
//! exact function of the state and the step length.

use vstd::prelude::*;

use crate::fixed::{lemma_tdiv_bounds, lemma_tdiv_quotient_bound, mul_div, mul_div_signed, tdiv, UNIT};
use crate::theme::ParticleStyle;

verus! {

/// The margin past the canvas bounds at which a particle wraps to the
/// other side, in micro-pixels.
pub const WRAP_MARGIN: i64 = 10_000_000;

/// The longest step the field accepts, in micro-seconds (ten seconds).
pub const MAX_STEP: u64 = 10_000_000;

/// A single floating particle.
#[derive(Clone, Copy, Debug, PartialEq, Eq, Structural)]
pub struct Particle {
    pub x: i64,
    pub y: i64,
    pub vx: i64,
    pub vy: i64,
    pub size: u64,
    pub alpha: u64,
    /// Twinkle phase in micro-radians.
    pub phase: u64,
}

/// The seed record for one particle: the per-index pseudo-random draws,
/// with the heading already resolved into a unit direction by the caller
/// (the cosine and sine of the drawn angle, in micro-units).
pub struct ParticleSeed {
    /// Fraction of the width for the starting x position.
    pub pos_x: u64,
    /// Fraction of the height for the starting y position.
    pub pos_y: u64,
    /// Cosine of the heading, in micro-units.
    pub dir_x: i64,
    /// Sine of the heading, in micro-units.
    pub dir_y: i64,
    /// Fraction blending the speed between half and full.
    pub speed: u64,
    /// Fraction blending the size between the configured bounds.
    pub size: u64,
    /// Fraction blending the opacity between thirty percent and full.
    pub alpha: u64,
    /// Starting twinkle phase in micro-radians.
    pub phase: u64,
}

impl ParticleSeed {
    /// Fractions within `[0, 1]`, the direction within the unit box, the
    /// phase below one turn.
    pub open spec fn wf(self) -> bool {
        &&& self.pos_x <= UNIT
        &&& self.pos_y <= UNIT
        &&& -1_000_000 <= self.dir_x <= 1_000_000
        &&& -1_000_000 <= self.dir_y <= 1_000_000
        &&& self.speed <= UNIT
        &&& self.size <= UNIT
        &&& self.alpha <= UNIT
        &&& self.phase <= 6_283_186
    }
}

/// Manages the ambient background particles.
pub struct ParticleSystem {
    pub particles: Vec<Particle>,
    pub width: u64,
    pub height: u64,
}

/// The particle a seed yields under a style on a canvas of the given
/// size: position from the fractions, velocity from the heading at a
/// speed between half and full, size and alpha blended into their bands.
pub open spec fn spec_seeded(style: ParticleStyle, w: int, h: int, s: ParticleSeed) -> Particle {
    let speed = style.speed * (500_000 + s.speed / 2) / 1_000_000;
    Particle {
        x: (s.pos_x * w / 1_000_000) as i64,
        y: (s.pos_y * h / 1_000_000) as i64,
        vx: tdiv(s.dir_x * speed, 1_000_000) as i64,
        vy: tdiv(s.dir_y * speed, 1_000_000) as i64,
        size: (style.size_min + s.size * (style.size_max - style.size_min) / 1_000_000) as u64,
        alpha: (style.opacity * (300_000 + s.alpha * 7 / 10) / 1_000_000) as u64,
        phase: s.phase as u64,
    }
}

impl ParticleSystem {
    /// Positions within the wrap bounds (at most eleven canvas widths
    /// out, which resizing preserves), velocities and sizes within their
    /// bands, and a canvas of at least a pixel.
    pub open spec fn wf(self) -> bool {
        &&& 1_000_000 <= self.width <= crate::scale::MAX_SIZE
        &&& 1_000_000 <= self.height <= crate::scale::MAX_SIZE
        &&& forall|i: int|
            0 <= i < self.particles.len() ==> {
                let p = #[trigger] self.particles[i];
                &&& -11 * self.width <= p.x <= 11 * self.width
                &&& -11 * self.height <= p.y <= 11 * self.height
                &&& -1_000_000_000 <= p.vx <= 1_000_000_000
                &&& -1_000_000_000 <= p.vy <= 1_000_000_000
                &&& p.alpha <= UNIT
            }
    }

    /// Seed `count` particles from their per-index seed records: the
    /// field is a pure function of the style, the canvas size and the
    /// seeds, so equal inputs give equal fields.
    pub fn new(style: &ParticleStyle, width: u64, height: u64, seeds: &Vec<ParticleSeed>) -> (r:
        ParticleSystem)
        requires
            style.wf(),
            seeds.len() == style.count,
            forall|i: int| 0 <= i < seeds.len() ==> (#[trigger] seeds[i]).wf(),
            1_000_000 <= width <= crate::scale::MAX_SIZE,
            1_000_000 <= height <= crate::scale::MAX_SIZE,
        ensures
            r.wf(),
            r.width == width,
            r.height == height,
            r.particles.len() == style.count,
            forall|i: int|
                0 <= i < style.count ==> r.particles[i] == spec_seeded(
                    *style,
                    width as int,
                    height as int,
                    seeds[i],
                ),
    {
        let mut particles: Vec<Particle> = Vec::new();
        let count = style.count;
        let mut i: usize = 0;
        while i < count
            invariant
                i <= count,
                style.wf(),
                seeds.len() == count,
                forall|j: int| 0 <= j < count ==> (#[trigger] seeds[j]).wf(),
                1_000_000 <= width <= crate::scale::MAX_SIZE,
                1_000_000 <= height <= crate::scale::MAX_SIZE,
                particles.len() == i,
                forall|j: int|
                    0 <= j < i ==> particles[j] == spec_seeded(
                        *style,
                        width as int,
                        height as int,
                        seeds[j],
                    ),
                forall|j: int|
                    0 <= j < i ==> {
                        let p = #[trigger] particles[j];
                        &&& 0 <= p.x <= width
                        &&& 0 <= p.y <= height
                        &&& -1_000_000_000 <= p.vx <= 1_000_000_000
                        &&& -1_000_000_000 <= p.vy <= 1_000_000_000
                        &&& p.alpha <= UNIT
                    },
            decreases count - i,
        {
            let s = &seeds[i];
            proof {
                vstd::arithmetic::mul::lemma_mul_inequality(s.pos_x as int, 1_000_000, width as int);
                assert(s.pos_x * width <= 1_000_000 * width) by (nonlinear_arith)
                    requires
                        0 <= s.pos_x <= 1_000_000,
                        width >= 0,
                ;
                vstd::arithmetic::div_mod::lemma_div_is_ordered(
                    s.pos_x * width,
                    1_000_000 * width,
                    1_000_000,
                );
                vstd::arithmetic::div_mod::lemma_div_multiples_vanish(width as int, 1_000_000);
                vstd::arithmetic::mul::lemma_mul_nonnegative(s.pos_x as int, width as int);
                vstd::arithmetic::div_mod::lemma_div_pos_is_pos(s.pos_x * width, 1_000_000);
                assert(s.pos_y * height <= 1_000_000 * height) by (nonlinear_arith)
                    requires
                        0 <= s.pos_y <= 1_000_000,
                        height >= 0,
                ;
                vstd::arithmetic::div_mod::lemma_div_is_ordered(
                    s.pos_y * height,
                    1_000_000 * height,
                    1_000_000,
                );
                vstd::arithmetic::div_mod::lemma_div_multiples_vanish(height as int, 1_000_000);
                vstd::arithmetic::mul::lemma_mul_nonnegative(s.pos_y as int, height as int);
                vstd::arithmetic::div_mod::lemma_div_pos_is_pos(s.pos_y * height, 1_000_000);
            }
            let x = mul_div(s.pos_x, width, UNIT) as i64;
            let y = mul_div(s.pos_y, height, UNIT) as i64;

            let speed_blend = 500_000 + s.speed / 2;
            proof {
                assert(style.speed * speed_blend <= 1_000_000_000 * 1_000_000) by (nonlinear_arith)
                    requires
                        style.speed <= 1_000_000_000,
                        speed_blend <= 1_000_000,
                ;
                vstd::arithmetic::div_mod::lemma_div_is_ordered(
                    style.speed * speed_blend,
                    (1_000_000_000 * 1_000_000) as int,
                    1_000_000,
                );
                assert((1_000_000_000 * 1_000_000) as int / 1_000_000 == 1_000_000_000)
                    by (nonlinear_arith);
                vstd::arithmetic::mul::lemma_mul_nonnegative(
                    style.speed as int,
                    speed_blend as int,
                );
                vstd::arithmetic::div_mod::lemma_div_pos_is_pos(
                    style.speed * speed_blend,
                    1_000_000,
                );
            }
            let speed = mul_div(style.speed, speed_blend, UNIT);
            proof {
                lemma_mul_abs_le(s.dir_x as int, speed as int, 1_000_000, 1_000_000_000);
                lemma_mul_abs_le(s.dir_y as int, speed as int, 1_000_000, 1_000_000_000);
                lemma_tdiv_bounds(s.dir_x * speed, 1_000_000);
                lemma_tdiv_bounds(s.dir_y * speed, 1_000_000);
            }
            let vx = mul_div_signed(s.dir_x, speed, UNIT);
            let vy = mul_div_signed(s.dir_y, speed, UNIT);
            proof {
                assert(vx * 1_000_000 >= -(1_000_000_000_000_000 as int)) by (nonlinear_arith)
                    requires
                        vx >= -1_000_000_000,
                ;
            }

            proof {
                vstd::arithmetic::mul::lemma_mul_inequality(
                    s.size as int,
                    1_000_000,
                    style.size_max - style.size_min,
                );
                assert(s.size * ((style.size_max - style.size_min) as int) == ((style.size_max
                    - style.size_min) as int) * (s.size as int)) by (nonlinear_arith);
                assert(1_000_000 * ((style.size_max - style.size_min) as int) == ((style.size_max
                    - style.size_min) as int) * 1_000_000) by (nonlinear_arith);
                vstd::arithmetic::div_mod::lemma_div_is_ordered(
                    s.size * ((style.size_max - style.size_min) as int),
                    ((style.size_max - style.size_min) as int) * 1_000_000,
                    1_000_000,
                );
                vstd::arithmetic::div_mod::lemma_div_multiples_vanish(
                    (style.size_max - style.size_min) as int,
                    1_000_000,
                );
                vstd::arithmetic::mul::lemma_mul_nonnegative(
                    s.size as int,
                    (style.size_max - style.size_min) as int,
                );
                vstd::arithmetic::div_mod::lemma_div_pos_is_pos(
                    s.size * ((style.size_max - style.size_min) as int),
                    1_000_000,
                );
            }
            let size = style.size_min + mul_div(s.size, style.size_max - style.size_min, UNIT);

            let alpha_blend = 300_000 + s.alpha * 7 / 10;
            proof {
                assert(s.alpha * 7 <= 7_000_000) by (nonlinear_arith)
                    requires
                        s.alpha <= 1_000_000,
                ;
                assert(style.opacity * alpha_blend <= 1_000_000 * 1_000_000) by (nonlinear_arith)
                    requires
                        style.opacity <= 1_000_000,
                        alpha_blend <= 1_000_000,
                ;
                vstd::arithmetic::div_mod::lemma_div_is_ordered(
                    style.opacity * alpha_blend,
                    (1_000_000 * 1_000_000) as int,
                    1_000_000,
                );
                assert((1_000_000 * 1_000_000) as int / 1_000_000 == 1_000_000)
                    by (nonlinear_arith);
                vstd::arithmetic::mul::lemma_mul_nonnegative(
                    style.opacity as int,
                    alpha_blend as int,
                );
                vstd::arithmetic::div_mod::lemma_div_pos_is_pos(
                    style.opacity * alpha_blend,
                    1_000_000,
                );
            }
            let alpha = mul_div(style.opacity, alpha_blend, UNIT);

            particles.push(
                Particle { x, y, vx, vy, size, alpha, phase: s.phase },
            );
            i += 1;
        }
        ParticleSystem { particles, width, height }
    }
}

/// The product of two factors bounded in magnitude stays within the
/// product of the bounds.
proof fn lemma_mul_abs_le(a: int, b: int, abound: int, bbound: int)
    requires
        -abound <= a <= abound,
        0 <= b <= bbound,
    ensures
        -(abound * bbound) <= a * b <= abound * bbound,
{
    assert(-(abound * bbound) <= a * b <= abound * bbound) by (nonlinear_arith)
        requires
            -abound <= a <= abound,
            0 <= b <= bbound,
    ;
}

/// A coordinate wrapped at the canvas bounds with the ten-pixel margin:
/// past one side, it reappears just beyond the other.
pub open spec fn spec_wrap(x: int, limit: int) -> int {
    if x < -10_000_000 {
        limit + 10_000_000
    } else if x > limit + 10_000_000 {
        -10_000_000
    } else {
        x
    }
}

/// One integration step of a particle over `dt` micro-seconds: position
/// advances by the velocity at the sixty-per-second baseline and wraps at
/// the canvas bounds; the phase advances by twice the step (saturating at
/// the top of its range, which a run would take millennia to reach).
pub open spec fn spec_step(p: Particle, w: int, h: int, dt: int) -> Particle {
    Particle {
        x: spec_wrap(p.x + tdiv(p.vx * (dt * 60), 1_000_000), w) as i64,
        y: spec_wrap(p.y + tdiv(p.vy * (dt * 60), 1_000_000), h) as i64,
        phase: if p.phase + 2 * dt <= u64::MAX {
            (p.phase + 2 * dt) as u64
        } else {
            u64::MAX
        },
        ..p
    }
}

/// The twinkle of an alpha under the sine of the twinkle argument: the
/// alpha oscillates between sixty and a hundred percent of itself.
pub open spec fn spec_twinkle(alpha: int, sin_value: int) -> int {
    alpha * (800_000 + tdiv(sin_value, 5)) / 1_000_000
}

impl ParticleSystem {
    /// Advance every particle by `dt` micro-seconds: integrate positions,
    /// advance phases, wrap at the canvas bounds. A pure function of the
    /// field and the step, so equal fields driven by equal step sequences
    /// follow equal trajectories.
    pub fn update(&mut self, dt: u64)
        requires
            old(self).wf(),
            dt <= MAX_STEP,
        ensures
            final(self).wf(),
            final(self).width == old(self).width,
            final(self).height == old(self).height,
            final(self).particles.len() == old(self).particles.len(),
            forall|i: int|
                0 <= i < old(self).particles.len() ==> final(self).particles[i] == spec_step(
                    old(self).particles[i],
                    old(self).width as int,
                    old(self).height as int,
                    dt as int,
                ),
    {
        let ghost s0 = *self;
        let n = self.particles.len();
        let m = dt * 60;
        let mut i: usize = 0;
        while i < n
            invariant
                s0.wf(),
                i <= n,
                n == s0.particles.len(),
                m == dt * 60,
                dt <= MAX_STEP,
                self.width == s0.width,
                self.height == s0.height,
                self.particles.len() == n,
                forall|j: int| i <= j < n ==> self.particles[j] == s0.particles[j],
                forall|j: int|
                    0 <= j < i ==> self.particles[j] == spec_step(
                        s0.particles[j],
                        s0.width as int,
                        s0.height as int,
                        dt as int,
                    ),
                forall|j: int|
                    0 <= j < i ==> {
                        let p = #[trigger] self.particles[j];
                        &&& -11 * s0.width <= p.x <= 11 * s0.width
                        &&& -11 * s0.height <= p.y <= 11 * s0.height
                    },
            decreases n - i,
        {
            let p = self.particles[i];
            proof {
                assert(self.particles[i as int] == s0.particles[i as int]);
                lemma_mul_abs_le(p.vx as int, m as int, 1_000_000_000, 600_000_000);
                lemma_mul_abs_le(p.vy as int, m as int, 1_000_000_000, 600_000_000);
                lemma_tdiv_bounds(p.vx * m, 1_000_000);
                lemma_tdiv_bounds(p.vy * m, 1_000_000);
            }
            let dx = mul_div_signed(p.vx, m, UNIT);
            let dy = mul_div_signed(p.vy, m, UNIT);
            let x1 = p.x + dx;
            let y1 = p.y + dy;
            let wi = self.width as i64;
            let hi = self.height as i64;
            let x2 = if x1 < -WRAP_MARGIN {
                wi + WRAP_MARGIN
            } else if x1 > wi + WRAP_MARGIN {
                -WRAP_MARGIN
            } else {
                x1
            };
            let y2 = if y1 < -WRAP_MARGIN {
                hi + WRAP_MARGIN
            } else if y1 > hi + WRAP_MARGIN {
                -WRAP_MARGIN
            } else {
                y1
            };
            let inc = 2 * dt;
            let ph = if p.phase <= u64::MAX - inc {
                p.phase + inc
            } else {
                u64::MAX
            };
            self.particles.set(i, Particle { x: x2, y: y2, phase: ph, ..p });
            i += 1;
        }
    }

    /// Rescale the canvas bounds, carrying every particle to its
    /// proportional position — relative layout is preserved rather than
    /// the field reseeded.
    pub fn resize(&mut self, width: u64, height: u64)
        requires
            old(self).wf(),
            1_000_000 <= width <= crate::scale::MAX_SIZE,
            1_000_000 <= height <= crate::scale::MAX_SIZE,
        ensures
            final(self).wf(),
            final(self).width == width,
            final(self).height == height,
            final(self).particles.len() == old(self).particles.len(),
            forall|i: int|
                0 <= i < old(self).particles.len() ==> #[trigger] final(self).particles[i] == (
                Particle {
                    x: tdiv(old(self).particles[i].x * width, old(self).width as int) as i64,
                    y: tdiv(old(self).particles[i].y * height, old(self).height as int) as i64,
                    ..old(self).particles[i]
                }),
    {
        let ghost s0 = *self;
        let n = self.particles.len();
        let ow = self.width;
        let oh = self.height;
        let mut i: usize = 0;
        while i < n
            invariant
                s0.wf(),
                i <= n,
                n == s0.particles.len(),
                ow == s0.width,
                oh == s0.height,
                1_000_000 <= width <= crate::scale::MAX_SIZE,
                1_000_000 <= height <= crate::scale::MAX_SIZE,
                self.width == s0.width,
                self.height == s0.height,
                self.particles.len() == n,
                forall|j: int| i <= j < n ==> self.particles[j] == s0.particles[j],
                forall|j: int|
                    0 <= j < i ==> #[trigger] self.particles[j] == (Particle {
                        x: tdiv(s0.particles[j].x * width, s0.width as int) as i64,
                        y: tdiv(s0.particles[j].y * height, s0.height as int) as i64,
                        ..s0.particles[j]
                    }),
                forall|j: int|
                    0 <= j < i ==> {
                        let p = #[trigger] self.particles[j];
                        &&& -11 * width <= p.x <= 11 * width
                        &&& -11 * height <= p.y <= 11 * height
                    },
            decreases n - i,
        {
            let p = self.particles[i];
            proof {
                assert(self.particles[i as int] == s0.particles[i as int]);
                lemma_scaled_position_bound(p.x as int, ow as int, width as int);
                lemma_scaled_position_bound(p.y as int, oh as int, height as int);
            }
            let x = mul_div_signed(p.x, width, ow);
            let y = mul_div_signed(p.y, height, oh);
            self.particles.set(i, Particle { x, y, ..p });
            i += 1;
        }
        self.width = width;
        self.height = height;
    }

    /// The drawn alpha of a particle under the sine of its twinkle
    /// argument, supplied by the caller in micro-units: between sixty and
    /// a hundred percent of the particle's base alpha.
    pub fn twinkle_alpha(&self, particle: &Particle, sin_value: i64) -> (r: u64)
        requires
            -1_000_000 <= sin_value <= 1_000_000,
            particle.alpha <= UNIT,
        ensures
            r == spec_twinkle(particle.alpha as int, sin_value as int),
            r <= particle.alpha,
    {
        let t: u64 = if sin_value >= 0 {
            800_000 + (sin_value as u64) / 5
        } else {
            800_000 - ((-sin_value) as u64) / 5
        };
        proof {
            let a = particle.alpha as int;
            vstd::arithmetic::mul::lemma_mul_inequality(t as int, 1_000_000, a);
            assert(t * a == a * (t as int)) by (nonlinear_arith);
            assert(1_000_000 * a == a * 1_000_000) by (nonlinear_arith);
            vstd::arithmetic::div_mod::lemma_div_is_ordered(a * (t as int), a * 1_000_000, 1_000_000);
            vstd::arithmetic::div_mod::lemma_div_multiples_vanish(a, 1_000_000);
            vstd::arithmetic::mul::lemma_mul_nonnegative(a, t as int);
            vstd::arithmetic::div_mod::lemma_div_pos_is_pos(a * (t as int), 1_000_000);
        }
        mul_div(particle.alpha, t, UNIT)
    }
}

/// A position within eleven old widths scales to within eleven new ones.
proof fn lemma_scaled_position_bound(x: int, ow: int, nw: int)
    requires
        1 <= ow,
        0 <= nw,
        -11 * ow <= x <= 11 * ow,
    ensures
        -11 * nw <= tdiv(x * nw, ow) <= 11 * nw,
{
    assert(-((11 * nw) * ow) <= x * nw <= (11 * nw) * ow) by (nonlinear_arith)
        requires
            -11 * ow <= x <= 11 * ow,
            0 <= nw,
            1 <= ow,
    ;
    lemma_tdiv_quotient_bound(x * nw, ow, 11 * nw);
}

/// Law: stepping the field is deterministic — equal particles driven by
/// one step on one canvas stay equal.
pub proof fn lemma_update_deterministic(p1: Particle, p2: Particle, w: int, h: int, dt: int)
    requires
        p1 == p2,
    ensures
        spec_step(p1, w, h, dt) == spec_step(p2, w, h, dt),
{
}

/// Law: resizing scales positions proportionally — a particle at the
/// canvas center lands on the center of a doubled canvas, exactly.
pub proof fn lemma_resize_center(x: int, old_w: int, new_w: int)
    requires
        old_w >= 1,
        2 * x == old_w,
        new_w == 2 * old_w,
    ensures
        tdiv(x * new_w, old_w) == old_w,
{
    assert(x * new_w == old_w * old_w) by (nonlinear_arith)
        requires
            2 * x == old_w,
            new_w == 2 * old_w,
    ;
    vstd::arithmetic::mul::lemma_mul_nonnegative(old_w, old_w);
    vstd::arithmetic::div_mod::lemma_div_multiples_vanish(old_w, old_w);
}

} // verus!
