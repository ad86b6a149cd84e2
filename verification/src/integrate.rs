//! Advancing the particles in time: gravity, one explicit Euler step, and
//! reflection at the walls of the playground.

use vstd::prelude::*;
use vstd::arithmetic::div_mod::lemma_fundamental_div_mod;
use vstd::arithmetic::div_mod::lemma_mod_bound;
use crate::config::Config;
use crate::particle::Particle;
use crate::scalar::clamp_to_scalar;
use crate::scalar::saturate;
use crate::scalar::scaled;
use crate::scalar::scaled_product;
use crate::scalar::UNIT;

verus! {

/// A velocity component after it is reflected at a wall: turned round and
/// scaled by the damping coefficient.
pub open spec fn reflected(vel: int, damping: int) -> int {
    saturate(scaled(vel, -damping))
}

/// One coordinate and its velocity component after the walls have been
/// applied: a coordinate at or beyond `extent` pixels is put on the last
/// pixel, a negative one on the first, and in both cases the velocity is
/// reflected.
pub open spec fn bounced(pos: int, vel: int, extent: int, damping: int) -> (int, int) {
    if pos >= extent * UNIT {
        ((extent - 1) * UNIT, reflected(vel, damping))
    } else if pos < 0 {
        (0, reflected(vel, damping))
    } else {
        (pos, vel)
    }
}

/// A particle one time step later: gravity changes the vertical velocity,
/// then the velocity moves the particle, then the walls are applied.
pub open spec fn stepped_particle(cfg: Config, p: Particle) -> Particle {
    let vy = saturate(p.vel.1 + scaled(cfg.timestep as int, cfg.gravity as int));
    let x = saturate(p.pos.0 + scaled(cfg.timestep as int, p.vel.0 as int));
    let y = saturate(p.pos.1 + scaled(cfg.timestep as int, vy));
    let bx = bounced(x, p.vel.0 as int, cfg.playground_width as int, cfg.damping as int);
    let by = bounced(y, vy, cfg.playground_height as int, cfg.damping as int);
    Particle { pos: (bx.0 as i64, by.0 as i64), vel: (bx.1 as i64, by.1 as i64) }
}

/// The particles one time step later.
pub open spec fn stepped(cfg: Config, particles: Seq<Particle>) -> Seq<Particle> {
    Seq::new(particles.len(), |n: int| stepped_particle(cfg, particles[n]))
}

/// A particle on the right wall that moves to the right is put on the last
/// pixel column, and its horizontal velocity is reflected, whenever time
/// does not run backwards.
pub proof fn lemma_reflects_off_right_wall(cfg: Config, p: Particle)
    requires
        cfg.timestep >= 0,
        p.pos.0 == cfg.playground_width * UNIT,
        p.vel.0 > 0,
    ensures
        stepped_particle(cfg, p).pos.0 == (cfg.playground_width - 1) * UNIT,
        stepped_particle(cfg, p).vel.0 == reflected(p.vel.0 as int, cfg.damping as int),
{
    let dt = cfg.timestep as int;
    let v = p.vel.0 as int;
    assert(dt * v >= 0) by (nonlinear_arith)
        requires
            dt >= 0,
            v > 0,
    ;
    lemma_fundamental_div_mod(dt * v, UNIT as int);
    lemma_mod_bound(dt * v, UNIT as int);
    assert(scaled(dt, v) >= 0);
}

/// After a time step every particle lies in the playground, wherever it was
/// before.
pub proof fn lemma_step_ends_inside(cfg: Config, p: Particle)
    requires
        cfg.valid(),
    ensures
        0 <= stepped_particle(cfg, p).pos.0 < cfg.playground_width * UNIT,
        0 <= stepped_particle(cfg, p).pos.1 < cfg.playground_height * UNIT,
{
}

/// With walls that take no energy, reflection turns a velocity round
/// exactly.
pub proof fn lemma_elastic_reflection(vel: i64)
    ensures
        reflected(vel as int, UNIT as int) == saturate(-vel),
{
    assert(vel * (-(UNIT as int)) == (UNIT as int) * (-vel)) by (nonlinear_arith);
    vstd::arithmetic::div_mod::lemma_fundamental_div_mod_converse(
        vel * (-(UNIT as int)),
        UNIT as int,
        -vel,
        0,
    );
}

/// Applies the walls to one coordinate and its velocity component.
fn bounce(pos: i64, vel: i64, extent: u32, damping: i64) -> (r: (i64, i64))
    ensures
        (r.0 as int, r.1 as int) == bounced(pos as int, vel as int, extent as int, damping as int),
{
    if pos >= extent as i64 * UNIT {
        ((extent as i64 - 1) * UNIT, clamp_to_scalar(scaled_product(vel, -(damping as i128))))
    } else if pos < 0 {
        (0, clamp_to_scalar(scaled_product(vel, -(damping as i128))))
    } else {
        (pos, vel)
    }
}

/// Advances one particle by one time step.
pub fn step_particle(cfg: &Config, p: Particle) -> (r: Particle)
    ensures
        r == stepped_particle(*cfg, p),
{
    let vy: i64 = clamp_to_scalar(
        p.vel.1 as i128 + scaled_product(cfg.timestep, cfg.gravity as i128),
    );
    let x: i64 = clamp_to_scalar(p.pos.0 as i128 + scaled_product(cfg.timestep, p.vel.0 as i128));
    let y: i64 = clamp_to_scalar(p.pos.1 as i128 + scaled_product(cfg.timestep, vy as i128));
    let bx = bounce(x, p.vel.0, cfg.playground_width, cfg.damping);
    let by = bounce(y, vy, cfg.playground_height, cfg.damping);
    Particle { pos: (bx.0, by.0), vel: (bx.1, by.1) }
}

/// Advances every particle by one time step.
pub fn step_all(cfg: &Config, particles: &Vec<Particle>) -> (moved: Vec<Particle>)
    ensures
        moved@ == stepped(*cfg, particles@),
{
    let count: usize = particles.len();
    let mut moved: Vec<Particle> = Vec::new();
    let mut n: usize = 0;
    while n < count
        invariant
            n <= count,
            particles@.len() == count,
            moved@.len() == n,
            forall|i: int|
                0 <= i < n ==> #[trigger] moved@[i] == stepped_particle(*cfg, particles@[i]),
        decreases count - n,
    {
        moved.push(step_particle(cfg, particles[n]));
        n += 1;
    }
    assert(moved@ =~= stepped(*cfg, particles@));
    moved
}

} // verus!
