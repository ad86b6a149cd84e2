//! The occupancy field: one flag per pixel of the playground, set once a
//! particle has come to rest on that pixel, and never cleared by the
//! simulation again.

use vstd::prelude::*;
use vstd::arithmetic::div_mod::lemma_fundamental_div_mod;
use vstd::arithmetic::div_mod::lemma_mod_bound;
use crate::config::Config;
use crate::particle::Particle;
use crate::scalar::UNIT;

verus! {

/// The index of the pixel that a particle lies on, if it lies in the
/// playground.
pub open spec fn pixel_of(cfg: Config, p: Particle) -> Option<int> {
    let x = p.pos.0 as int / (UNIT as int);
    let y = p.pos.1 as int / (UNIT as int);
    if cfg.in_playground(x, y) {
        Some(cfg.pixel_index(x, y))
    } else {
        None
    }
}

/// Whether one of the particles lies on the pixel with index `i`.
pub open spec fn visited(cfg: Config, particles: Seq<Particle>, i: int) -> bool {
    exists|n: int| 0 <= n < particles.len() && pixel_of(cfg, #[trigger] particles[n]) == Some(i)
}

/// The occupancy field after the pixels under the particles are set: what
/// was set stays set.
pub open spec fn marked(cfg: Config, cells: Seq<bool>, particles: Seq<Particle>) -> Seq<bool> {
    Seq::new(cells.len(), |i: int| cells[i] || visited(cfg, particles, i))
}

/// One more particle visits the pixel it lies on and no other.
pub proof fn lemma_visited_step(cfg: Config, particles: Seq<Particle>, n: int, i: int)
    requires
        0 <= n < particles.len(),
    ensures
        visited(cfg, particles.take(n + 1), i) <==> visited(cfg, particles.take(n), i) || pixel_of(
            cfg,
            particles[n],
        ) == Some(i),
{
    let shorter = particles.take(n);
    let longer = particles.take(n + 1);
    if visited(cfg, longer, i) {
        let m = choose|m: int| 0 <= m < longer.len() && pixel_of(cfg, #[trigger] longer[m]) == Some(i);
        if m < n {
            assert(pixel_of(cfg, shorter[m]) == Some(i));
        }
    }
    if visited(cfg, shorter, i) {
        let m = choose|m: int|
            0 <= m < shorter.len() && pixel_of(cfg, #[trigger] shorter[m]) == Some(i);
        assert(pixel_of(cfg, longer[m]) == Some(i));
    }
    if pixel_of(cfg, particles[n]) == Some(i) {
        assert(pixel_of(cfg, longer[n]) == Some(i));
    }
}

/// The index of the pixel that a particle lies on, if it lies in the
/// playground.
pub fn pixel_under(cfg: &Config, p: Particle) -> (r: Option<usize>)
    requires
        cfg.valid(),
    ensures
        match r {
            Some(i) => pixel_of(*cfg, p) == Some(i as int) && i < cfg.pixel_count(),
            None => pixel_of(*cfg, p) is None,
        },
{
    if p.pos.0 < 0 || p.pos.1 < 0 {
        proof {
            lemma_fundamental_div_mod(p.pos.0 as int, UNIT as int);
            lemma_mod_bound(p.pos.0 as int, UNIT as int);
            lemma_fundamental_div_mod(p.pos.1 as int, UNIT as int);
            lemma_mod_bound(p.pos.1 as int, UNIT as int);
        }
        return None;
    }
    let x: i64 = p.pos.0 / UNIT;
    let y: i64 = p.pos.1 / UNIT;
    if x < cfg.playground_width as i64 && y < cfg.playground_height as i64 {
        proof {
            cfg.lemma_grid_shape();
            assert(0 <= x + y * cfg.playground_width < cfg.playground_width
                * cfg.playground_height) by (nonlinear_arith)
                requires
                    0 <= x < cfg.playground_width,
                    0 <= y < cfg.playground_height,
            ;
            assert(0 <= y * cfg.playground_width) by (nonlinear_arith)
                requires
                    0 <= y,
                    0 <= cfg.playground_width,
            ;
        }
        Some((x as u64 + y as u64 * cfg.playground_width as u64) as usize)
    } else {
        None
    }
}

} // verus!
