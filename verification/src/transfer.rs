//! Moving velocity between the particles and the grid.
//!
//! The scatter pass splats every particle's velocity onto the grid nodes
//! around it; the gather pass interpolates a change of the grid back to the
//! particles. Both use the same bilinear stencil.

use vstd::prelude::*;
use vstd::arithmetic::div_mod::lemma_fundamental_div_mod;
use vstd::arithmetic::div_mod::lemma_hoist_over_denominator;
use vstd::arithmetic::div_mod::lemma_mod_bound;
use vstd::arithmetic::mul::lemma_mul_is_distributive_add;
use vstd::arithmetic::mul::lemma_mul_is_distributive_add_other_way;
use crate::config::Config;
use crate::particle::Particle;
use crate::scalar::clamp_to_scalar;
use crate::scalar::floor_div;
use crate::scalar::lemma_floor_div_nested;
use crate::scalar::saturate;
use crate::scalar::UNIT;
use crate::stencil::corner_shares;
use crate::stencil::lemma_weights_sum_to_one;
use crate::stencil::node;
use crate::stencil::weight;

verus! {

/// What every accumulated grid sample is divided by at the end of a scatter
/// pass, so that densely visited cells do not grow without bound.
pub const SPLAT_DIVISOR: i64 = 10;

/// The part of a velocity component `v` that goes to corner `k` of the
/// stencil around `pos`: the corner's weight times `v`, rounded down.
pub open spec fn share(pos: (i64, i64), span: int, k: int, v: int) -> int {
    (weight(pos, span, k) * v) / (span * span)
}

/// What a particle adds to the sample of cell `c` through corner `k` of its
/// stencil: its share, if the corner is that cell's node, and nothing if the
/// corner is another node or lies outside the grid.
pub open spec fn corner_deposit(cfg: Config, p: Particle, k: int, c: int) -> (int, int) {
    let n = node(p.pos, cfg.cell_span(), k);
    if cfg.in_grid(n) && cfg.cell_index(n) == c {
        (
            share(p.pos, cfg.cell_span(), k, p.vel.0 as int),
            share(p.pos, cfg.cell_span(), k, p.vel.1 as int),
        )
    } else {
        (0, 0)
    }
}

/// What a particle adds to the sample of cell `c`, through all four corners.
pub open spec fn deposit(cfg: Config, p: Particle, c: int) -> (int, int) {
    let top_left = corner_deposit(cfg, p, 0, c);
    let top_right = corner_deposit(cfg, p, 1, c);
    let bottom_right = corner_deposit(cfg, p, 2, c);
    let bottom_left = corner_deposit(cfg, p, 3, c);
    (
        top_left.0 + top_right.0 + bottom_right.0 + bottom_left.0,
        top_left.1 + top_right.1 + bottom_right.1 + bottom_left.1,
    )
}

/// The sum of what all the particles add to the sample of cell `c`.
pub open spec fn cell_total(cfg: Config, particles: Seq<Particle>, c: int) -> (int, int)
    decreases particles.len(),
{
    if particles.len() == 0 {
        (0, 0)
    } else {
        let rest = cell_total(cfg, particles.drop_last(), c);
        let d = deposit(cfg, particles.last(), c);
        (rest.0 + d.0, rest.1 + d.1)
    }
}

/// The sample of cell `c` after a scatter pass: the cell's total, divided by
/// `SPLAT_DIVISOR` and held inside the scalar range.
pub open spec fn splat(cfg: Config, particles: Seq<Particle>, c: int) -> (i64, i64) {
    let t = cell_total(cfg, particles, c);
    (
        saturate(t.0 / (SPLAT_DIVISOR as int)) as i64,
        saturate(t.1 / (SPLAT_DIVISOR as int)) as i64,
    )
}

/// The grid after a scatter pass. It depends on the particles alone: nothing
/// of an earlier grid is left in it.
pub open spec fn scattered_grid(cfg: Config, particles: Seq<Particle>) -> Seq<(i64, i64)> {
    Seq::new(cfg.grid_len() as nat, |c: int| splat(cfg, particles, c))
}

/// A share is never larger in magnitude than the component it is taken of.
pub proof fn lemma_share_bounded(pos: (i64, i64), span: int, k: int, v: int)
    requires
        span > 0,
        0 <= k < 4,
        -0x8000_0000_0000_0000 <= v <= 0x8000_0000_0000_0000,
    ensures
        -0x8000_0000_0000_0000 <= share(pos, span, k, v) <= 0x8000_0000_0000_0000,
{
    lemma_weights_sum_to_one(pos, span);
    let w = weight(pos, span, k);
    let s = span * span;
    assert(s > 0) by (nonlinear_arith)
        requires
            span > 0,
            s == span * span,
    ;
    lemma_fundamental_div_mod(w * v, s);
    lemma_mod_bound(w * v, s);
    let q = (w * v) / s;
    let r = (w * v) % s;
    assert(-0x8000_0000_0000_0000 <= q <= 0x8000_0000_0000_0000) by (nonlinear_arith)
        requires
            w * v == s * q + r,
            0 <= r < s,
            0 <= w <= s,
            -0x8000_0000_0000_0000 <= v <= 0x8000_0000_0000_0000,
    ;
}

/// Adding particle `p` to a sequence of particles adds its deposit to every
/// cell's total.
pub proof fn lemma_cell_total_step(cfg: Config, particles: Seq<Particle>, n: int, c: int)
    requires
        0 <= n < particles.len(),
    ensures
        cell_total(cfg, particles.take(n + 1), c).0 == cell_total(cfg, particles.take(n), c).0
            + deposit(cfg, particles[n], c).0,
        cell_total(cfg, particles.take(n + 1), c).1 == cell_total(cfg, particles.take(n), c).1
            + deposit(cfg, particles[n], c).1,
{
    assert(particles.take(n + 1).drop_last() =~= particles.take(n));
    assert(particles.take(n + 1).last() == particles[n]);
}

/// Adds to `acc` what particle `p` deposits through corner `k` of its stencil.
fn deposit_corner(cfg: &Config, acc: &mut Vec<(i128, i128)>, p: Particle, k: usize)
    requires
        cfg.valid(),
        k < 4,
        old(acc)@.len() == cfg.grid_len(),
        forall|c: int|
            0 <= c < old(acc)@.len() ==> {
                &&& -0x1_0000_0000_0000_0000_0000_0000_0000 <= (#[trigger] old(acc)@[c]).0
                    <= 0x1_0000_0000_0000_0000_0000_0000_0000
                &&& -0x1_0000_0000_0000_0000_0000_0000_0000 <= old(acc)@[c].1
                    <= 0x1_0000_0000_0000_0000_0000_0000_0000
            },
    ensures
        final(acc)@.len() == old(acc)@.len(),
        forall|c: int|
            0 <= c < old(acc)@.len() ==> {
                &&& (#[trigger] final(acc)@[c]).0 == old(acc)@[c].0 + corner_deposit(
                    *cfg,
                    p,
                    k as int,
                    c,
                ).0
                &&& final(acc)@[c].1 == old(acc)@[c].1 + corner_deposit(*cfg, p, k as int, c).1
                &&& -0x8000_0000_0000_0000 <= corner_deposit(*cfg, p, k as int, c).0
                    <= 0x8000_0000_0000_0000
                &&& -0x8000_0000_0000_0000 <= corner_deposit(*cfg, p, k as int, c).1
                    <= 0x8000_0000_0000_0000
            },
{
    let (at, wx, wy) = corner_shares(cfg, p.pos, k);
    let span: i64 = cfg.cell_size as i64 * UNIT;
    proof {
        cfg.lemma_grid_shape();
        lemma_share_bounded(p.pos, cfg.cell_span(), k as int, p.vel.0 as int);
        lemma_share_bounded(p.pos, cfg.cell_span(), k as int, p.vel.1 as int);
    }
    if cfg.exists_in_vel_grid(at) {
        let columns: u32 = cfg.num_width_cells();
        proof {
            let n = (at.0 as int, at.1 as int);
            assert(cfg.in_grid(n));
            assert(0 <= cfg.cell_index(n) < cfg.grid_len());
            assert(0 <= at.1 * columns <= cfg.grid_len()) by (nonlinear_arith)
                requires
                    0 <= at.1 < cfg.height_cells(),
                    columns == cfg.width_cells(),
                    columns >= 1,
                    cfg.grid_len() == cfg.width_cells() * cfg.height_cells(),
            ;
        }
        let index: usize = (at.0 as u64 + at.1 as u64 * columns as u64) as usize;
        let sx: i128 = weighted_share(wx, wy, span, p.vel.0);
        let sy: i128 = weighted_share(wx, wy, span, p.vel.1);
        let sample: (i128, i128) = acc[index];
        acc.set(index, (sample.0 + sx, sample.1 + sy));
    }
}

/// A numerator of at most `bound` denominators in magnitude gives a
/// quotient of at most `bound` in magnitude.
proof fn lemma_quotient_bounded(num: int, den: int, bound: int)
    requires
        den > 0,
        bound >= 0,
        -bound * den <= num <= bound * den,
    ensures
        -bound <= num / den <= bound,
{
    lemma_fundamental_div_mod(num, den);
    lemma_mod_bound(num, den);
    let q = num / den;
    let r = num % den;
    assert(-bound <= q <= bound) by (nonlinear_arith)
        requires
            num == den * q + r,
            0 <= r < den,
            bound >= 0,
            -bound * den <= num <= bound * den,
    ;
}

/// The part `wx * wy / (span * span)` of `v`, rounded down once. The product
/// of all three does not fit 128 bits, so the division is made in two
/// steps, each carrying its remainder on.
fn weighted_share(wx: i64, wy: i64, span: i64, v: i64) -> (r: i128)
    requires
        1 <= span <= 4_294_967_295_000_000,
        0 <= wx <= span,
        0 <= wy <= span,
    ensures
        r == (wx * wy * v) / (span * span),
{
    let wide: i128 = span as i128;
    proof {
        assert(-0x8000_0000_0000_0000 * span <= wx * v <= 0x8000_0000_0000_0000 * span
            && -0x8_0000_0000_0000_0000_0000_0000_0000 <= 0x8000_0000_0000_0000 * span
            <= 0x8_0000_0000_0000_0000_0000_0000_0000) by (nonlinear_arith)
            requires
                0 <= wx <= span,
                span <= 4_294_967_295_000_000,
                -0x8000_0000_0000_0000 <= v <= 0x8000_0000_0000_0000,
        ;
    }
    let first: i128 = wx as i128 * v as i128;
    let q1: i128 = floor_div(first, wide);
    proof {
        lemma_quotient_bounded(first as int, span as int, 0x8000_0000_0000_0000);
        lemma_fundamental_div_mod(first as int, span as int);
        lemma_mod_bound(first as int, span as int);
        assert(-0x8_0000_0000_0000_0000_0000_0000_0000 <= q1 * span
            <= 0x8_0000_0000_0000_0000_0000_0000_0000 && -0x8_0000_0000_0000_0000_0000_0000_0000
            <= wy * q1 <= 0x8_0000_0000_0000_0000_0000_0000_0000) by (nonlinear_arith)
            requires
                0 <= wy <= span,
                1 <= span <= 4_294_967_295_000_000,
                -0x8000_0000_0000_0000 <= q1 <= 0x8000_0000_0000_0000,
        ;
        assert(span * q1 == q1 * span) by (nonlinear_arith);
    }
    let r1: i128 = first - q1 * wide;
    proof {
        assert(0 <= wy * r1 <= 0x100_0000_0000_0000_0000_0000_0000) by (nonlinear_arith)
            requires
                0 <= wy <= span,
                0 <= r1 < span,
                span <= 4_294_967_295_000_000,
        ;
    }
    let carried: i128 = floor_div(wy as i128 * r1, wide);
    proof {
        let whole = wx * wy * v;
        lemma_fundamental_div_mod(wy * r1, span as int);
        lemma_mod_bound(wy * r1, span as int);
        assert(0 <= (wy * r1) / (span as int) <= wy * r1) by (nonlinear_arith)
            requires
                wy * r1 == span * ((wy * r1) / (span as int)) + (wy * r1) % (span as int),
                0 <= (wy * r1) % (span as int) < span,
                0 <= wy * r1,
                span >= 1,
        ;
        assert(whole == wy * r1 + (wy * q1) * span) by (nonlinear_arith)
            requires
                whole == wx * wy * v,
                first == wx * v,
                first == span * q1 + r1,
        ;
        lemma_hoist_over_denominator(wy * r1, wy * q1, span as nat);
        assert(wy * q1 + carried == whole / (span as int));
        lemma_floor_div_nested(whole, span as int, span as int);
    }
    floor_div(wy as i128 * q1 + carried, wide)
}

/// The scatter pass: the grid that the particles' velocities splat onto.
pub fn scatter(cfg: &Config, particles: &Vec<Particle>) -> (grid: Vec<(i64, i64)>)
    requires
        cfg.valid(),
        particles@.len() <= u32::MAX,
    ensures
        grid@ == scattered_grid(*cfg, particles@),
{
    proof {
        cfg.lemma_grid_shape();
    }
    let columns: u32 = cfg.num_width_cells();
    let rows: u32 = cfg.num_height_cells();
    let cells: usize = (columns as u64 * rows as u64) as usize;
    let mut acc: Vec<(i128, i128)> = Vec::new();
    let mut c: usize = 0;
    while c < cells
        invariant
            c <= cells,
            acc@.len() == c,
            forall|i: int| 0 <= i < c ==> #[trigger] acc@[i] == (0i128, 0i128),
        decreases cells - c,
    {
        acc.push((0, 0));
        c += 1;
    }
    let count: usize = particles.len();
    let mut n: usize = 0;
    while n < count
        invariant
            cfg.valid(),
            count == particles@.len(),
            count <= u32::MAX,
            n <= count,
            acc@.len() == cells,
            cells == cfg.grid_len(),
            forall|i: int|
                0 <= i < cells ==> {
                    &&& (#[trigger] acc@[i]).0 == cell_total(*cfg, particles@.take(n as int), i).0
                    &&& acc@[i].1 == cell_total(*cfg, particles@.take(n as int), i).1
                    &&& -0x2_0000_0000_0000_0000 * n <= acc@[i].0 <= 0x2_0000_0000_0000_0000 * n
                    &&& -0x2_0000_0000_0000_0000 * n <= acc@[i].1 <= 0x2_0000_0000_0000_0000 * n
                },
        decreases count - n,
    {
        let p: Particle = particles[n];
        deposit_corner(cfg, &mut acc, p, 0);
        deposit_corner(cfg, &mut acc, p, 1);
        deposit_corner(cfg, &mut acc, p, 2);
        deposit_corner(cfg, &mut acc, p, 3);
        proof {
            assert forall|i: int| 0 <= i < cells implies {
                &&& (#[trigger] acc@[i]).0 == cell_total(*cfg, particles@.take(n + 1), i).0
                &&& acc@[i].1 == cell_total(*cfg, particles@.take(n + 1), i).1
            } by {
                lemma_cell_total_step(*cfg, particles@, n as int, i);
            }
        }
        n += 1;
    }
    assert(particles@.take(count as int) =~= particles@);
    let mut grid: Vec<(i64, i64)> = Vec::new();
    let mut c: usize = 0;
    while c < cells
        invariant
            c <= cells,
            acc@.len() == cells,
            cells == cfg.grid_len(),
            grid@.len() == c,
            forall|i: int|
                0 <= i < cells ==> {
                    &&& (#[trigger] acc@[i]).0 == cell_total(*cfg, particles@, i).0
                    &&& acc@[i].1 == cell_total(*cfg, particles@, i).1
                },
            forall|i: int| 0 <= i < c ==> #[trigger] grid@[i] == splat(*cfg, particles@, i),
        decreases cells - c,
    {
        let sum: (i128, i128) = acc[c];
        let x: i64 = clamp_to_scalar(floor_div(sum.0, SPLAT_DIVISOR as i128));
        let y: i64 = clamp_to_scalar(floor_div(sum.1, SPLAT_DIVISOR as i128));
        grid.push((x, y));
        c += 1;
    }
    assert(grid@ =~= scattered_grid(*cfg, particles@));
    grid
}

/// The change of the sample of cell `c` from the grid `before` to the grid
/// `after`.
pub open spec fn delta(after: Seq<(i64, i64)>, before: Seq<(i64, i64)>, c: int) -> (int, int) {
    (after[c].0 - before[c].0, after[c].1 - before[c].1)
}

/// What corner `k` of the stencil around `pos` adds to the two numerators
/// and to the denominator of the interpolation: its weight times the change
/// of its node, and its weight; nothing if the corner lies outside the grid.
pub open spec fn corner_pull(
    cfg: Config,
    pos: (i64, i64),
    after: Seq<(i64, i64)>,
    before: Seq<(i64, i64)>,
    k: int,
) -> (int, int, int) {
    let n = node(pos, cfg.cell_span(), k);
    if cfg.in_grid(n) {
        let w = weight(pos, cfg.cell_span(), k);
        let d = delta(after, before, cfg.cell_index(n));
        (w * d.0, w * d.1, w)
    } else {
        (0, 0, 0)
    }
}

/// The numerators and the denominator of the interpolation at `pos`, summed
/// over the corners that lie in the grid.
pub open spec fn pull(
    cfg: Config,
    pos: (i64, i64),
    after: Seq<(i64, i64)>,
    before: Seq<(i64, i64)>,
) -> (int, int, int) {
    let top_left = corner_pull(cfg, pos, after, before, 0);
    let top_right = corner_pull(cfg, pos, after, before, 1);
    let bottom_right = corner_pull(cfg, pos, after, before, 2);
    let bottom_left = corner_pull(cfg, pos, after, before, 3);
    (
        top_left.0 + top_right.0 + bottom_right.0 + bottom_left.0,
        top_left.1 + top_right.1 + bottom_right.1 + bottom_left.1,
        top_left.2 + top_right.2 + bottom_right.2 + bottom_left.2,
    )
}

/// A particle after the gather pass: its velocity has grown by the
/// interpolated change of the grid, rounded down. Where no corner with a
/// positive weight lies in the grid there is nothing to interpolate, and the
/// particle is left as it was.
pub open spec fn gathered_particle(
    cfg: Config,
    p: Particle,
    after: Seq<(i64, i64)>,
    before: Seq<(i64, i64)>,
) -> Particle {
    let s = pull(cfg, p.pos, after, before);
    if s.2 > 0 {
        Particle {
            pos: p.pos,
            vel: (saturate(p.vel.0 + s.0 / s.2) as i64, saturate(p.vel.1 + s.1 / s.2) as i64),
        }
    } else {
        p
    }
}

/// The particles after the gather pass.
pub open spec fn gathered(
    cfg: Config,
    particles: Seq<Particle>,
    after: Seq<(i64, i64)>,
    before: Seq<(i64, i64)>,
) -> Seq<Particle> {
    Seq::new(particles.len(), |n: int| gathered_particle(cfg, particles[n], after, before))
}

/// A particle in the playground always has a node with a positive weight
/// in the grid, the top-left one, so the gather pass never skips it.
pub proof fn lemma_inside_has_weight(
    cfg: Config,
    pos: (i64, i64),
    after: Seq<(i64, i64)>,
    before: Seq<(i64, i64)>,
)
    requires
        cfg.valid(),
        0 <= pos.0 < cfg.playground_width * UNIT,
        0 <= pos.1 < cfg.playground_height * UNIT,
    ensures
        cfg.in_grid(node(pos, cfg.cell_span(), 0)),
        pull(cfg, pos, after, before).2 > 0,
{
    let span = cfg.cell_span();
    let x = pos.0 as int;
    let y = pos.1 as int;
    cfg.lemma_grid_shape();
    lemma_weights_sum_to_one(pos, span);
    lemma_fundamental_div_mod(x, span);
    lemma_fundamental_div_mod(y, span);
    lemma_mod_bound(x, span);
    lemma_mod_bound(y, span);
    assert(0 <= x / span < cfg.width_cells()) by (nonlinear_arith)
        requires
            x == span * (x / span) + x % span,
            0 <= x % span < span,
            0 <= x < cfg.playground_width * UNIT,
            cfg.width_cells() * cfg.cell_size == cfg.playground_width,
            span == cfg.cell_size * UNIT,
    ;
    assert(0 <= y / span < cfg.height_cells()) by (nonlinear_arith)
        requires
            y == span * (y / span) + y % span,
            0 <= y % span < span,
            0 <= y < cfg.playground_height * UNIT,
            cfg.height_cells() * cfg.cell_size == cfg.playground_height,
            span == cfg.cell_size * UNIT,
    ;
    assert(weight(pos, span, 0) > 0) by (nonlinear_arith)
        requires
            weight(pos, span, 0) == (span - x % span) * (span - y % span),
            0 <= x % span < span,
            0 <= y % span < span,
    ;
}

/// The change of the sample of the node `at`, or zero where `inside` says
/// that the grid has no such node.
fn delta_at(
    cfg: &Config,
    after: &Vec<(i64, i64)>,
    before: &Vec<(i64, i64)>,
    at: (i64, i64),
    inside: bool,
) -> (d: (i128, i128))
    requires
        cfg.valid(),
        after@.len() == cfg.grid_len(),
        before@.len() == cfg.grid_len(),
        inside == cfg.in_grid((at.0 as int, at.1 as int)),
    ensures
        inside ==> (d.0 as int, d.1 as int) == delta(
            after@,
            before@,
            cfg.cell_index((at.0 as int, at.1 as int)),
        ),
        !inside ==> d == (0i128, 0i128),
        -0x1_0000_0000_0000_0000 <= d.0 <= 0x1_0000_0000_0000_0000,
        -0x1_0000_0000_0000_0000 <= d.1 <= 0x1_0000_0000_0000_0000,
{
    if inside {
        let columns: u32 = cfg.num_width_cells();
        proof {
            cfg.lemma_grid_shape();
            let n = (at.0 as int, at.1 as int);
            assert(0 <= cfg.cell_index(n) < cfg.grid_len());
            assert(0 <= at.1 * columns <= cfg.grid_len()) by (nonlinear_arith)
                requires
                    0 <= at.1 < cfg.height_cells(),
                    columns == cfg.width_cells(),
                    columns >= 1,
                    cfg.grid_len() == cfg.width_cells() * cfg.height_cells(),
            ;
        }
        let index: usize = (at.0 as u64 + at.1 as u64 * columns as u64) as usize;
        (
            after[index].0 as i128 - before[index].0 as i128,
            after[index].1 as i128 - before[index].1 as i128,
        )
    } else {
        (0, 0)
    }
}

/// The weighted mean of one row of the stencil, before it is divided: the
/// sum of the two changes in the row, each times the share of its column,
/// split into a multiple of the sum of the two shares and a remainder below
/// that sum.
fn row_mean(ex0: i64, ex1: i64, d0: i128, d1: i128) -> (r: (i128, i128))
    requires
        0 <= ex0,
        0 <= ex1,
        1 <= ex0 + ex1 <= 4_294_967_295_000_000,
        -0x1_0000_0000_0000_0000 <= d0 <= 0x1_0000_0000_0000_0000,
        -0x1_0000_0000_0000_0000 <= d1 <= 0x1_0000_0000_0000_0000,
    ensures
        ex0 * d0 + ex1 * d1 == (ex0 + ex1) * r.0 + r.1,
        0 <= r.1 < ex0 + ex1,
        -0x1_0000_0000_0000_0000 <= r.0 <= 0x1_0000_0000_0000_0000,
        -0x1_0000_0000_0000_0000 * (ex0 + ex1) <= ex0 * d0 + ex1 * d1 <= 0x1_0000_0000_0000_0000
            * (ex0 + ex1),
{
    let columns: i128 = ex0 as i128 + ex1 as i128;
    proof {
        assert(-0x1_0000_0000_0000_0000 * ex0 <= ex0 * d0 <= 0x1_0000_0000_0000_0000 * ex0
            && -0x1_0000_0000_0000_0000 * ex1 <= ex1 * d1 <= 0x1_0000_0000_0000_0000 * ex1)
            by (nonlinear_arith)
            requires
                0 <= ex0,
                0 <= ex1,
                -0x1_0000_0000_0000_0000 <= d0 <= 0x1_0000_0000_0000_0000,
                -0x1_0000_0000_0000_0000 <= d1 <= 0x1_0000_0000_0000_0000,
        ;
    }
    let sum: i128 = ex0 as i128 * d0 + ex1 as i128 * d1;
    let q: i128 = floor_div(sum, columns);
    proof {
        lemma_quotient_bounded(sum as int, columns as int, 0x1_0000_0000_0000_0000);
        lemma_fundamental_div_mod(sum as int, columns as int);
        lemma_mod_bound(sum as int, columns as int);
        assert(-0x10_0000_0000_0000_0000_0000_0000_0000 <= q * columns
            <= 0x10_0000_0000_0000_0000_0000_0000_0000 && columns * q == q * columns)
            by (nonlinear_arith)
            requires
                1 <= columns <= 4_294_967_295_000_000,
                -0x1_0000_0000_0000_0000 <= q <= 0x1_0000_0000_0000_0000,
        ;
    }
    (q, sum - q * columns)
}

/// The bilinear mean of four changes: the sum of each change times the
/// shares of its column and of its row, divided by the sum of those
/// products, rounded down once. A column or a row that lies outside the
/// grid comes with a share of zero. The sums do not fit 128 bits as they
/// stand, so the division is made axis by axis, each step carrying its
/// remainder on.
fn interpolate(
    ex0: i64,
    ex1: i64,
    ey0: i64,
    ey1: i64,
    d00: i128,
    d10: i128,
    d11: i128,
    d01: i128,
) -> (q: i128)
    requires
        0 <= ex0,
        0 <= ex1,
        0 <= ey0,
        0 <= ey1,
        1 <= ex0 + ex1 <= 4_294_967_295_000_000,
        1 <= ey0 + ey1 <= 4_294_967_295_000_000,
        -0x1_0000_0000_0000_0000 <= d00 <= 0x1_0000_0000_0000_0000,
        -0x1_0000_0000_0000_0000 <= d10 <= 0x1_0000_0000_0000_0000,
        -0x1_0000_0000_0000_0000 <= d11 <= 0x1_0000_0000_0000_0000,
        -0x1_0000_0000_0000_0000 <= d01 <= 0x1_0000_0000_0000_0000,
    ensures
        q == (ex0 * ey0 * d00 + ex1 * ey0 * d10 + ex1 * ey1 * d11 + ex0 * ey1 * d01) / ((ex0
            + ex1) * (ey0 + ey1)),
        -0x1_0000_0000_0000_0000 <= q <= 0x1_0000_0000_0000_0000,
{
    let columns: i128 = ex0 as i128 + ex1 as i128;
    let rows: i128 = ey0 as i128 + ey1 as i128;
    let top = row_mean(ex0, ex1, d00, d10);
    let bottom = row_mean(ex0, ex1, d01, d11);
    let ghost num = ex0 * ey0 * d00 + ex1 * ey0 * d10 + ex1 * ey1 * d11 + ex0 * ey1 * d01;
    proof {
        assert(-0x1_0000_0000_0000_0000 * ey0 <= ey0 * top.0 <= 0x1_0000_0000_0000_0000 * ey0
            && -0x1_0000_0000_0000_0000 * ey1 <= ey1 * bottom.0 <= 0x1_0000_0000_0000_0000
            * ey1) by (nonlinear_arith)
            requires
                0 <= ey0,
                0 <= ey1,
                -0x1_0000_0000_0000_0000 <= top.0 <= 0x1_0000_0000_0000_0000,
                -0x1_0000_0000_0000_0000 <= bottom.0 <= 0x1_0000_0000_0000_0000,
        ;
        assert(0 <= ey0 * top.1 <= ey0 * columns && 0 <= ey1 * bottom.1 <= ey1 * columns
            && ey0 * columns + ey1 * columns == rows * columns && rows * columns
            <= 0x100_0000_0000_0000_0000_0000_0000) by (nonlinear_arith)
            requires
                0 <= ey0,
                0 <= ey1,
                rows == ey0 + ey1,
                rows <= 4_294_967_295_000_000,
                0 <= top.1 < columns,
                0 <= bottom.1 < columns,
                columns <= 4_294_967_295_000_000,
        ;
    }
    let whole: i128 = ey0 as i128 * top.0 + ey1 as i128 * bottom.0;
    let rest: i128 = ey0 as i128 * top.1 + ey1 as i128 * bottom.1;
    let carried: i128 = floor_div(rest, columns);
    proof {
        lemma_fundamental_div_mod(rest as int, columns as int);
        lemma_mod_bound(rest as int, columns as int);
        assert(0 <= rest / columns <= rest) by (nonlinear_arith)
            requires
                rest == columns * (rest / columns) + rest % columns,
                0 <= rest % columns < columns,
                0 <= rest,
        ;
        let top_sum = ex0 * d00 + ex1 * d10;
        let bottom_sum = ex0 * d01 + ex1 * d11;
        lemma_rows_of_sum(
            ex0 as int,
            ex1 as int,
            ey0 as int,
            ey1 as int,
            d00 as int,
            d10 as int,
            d11 as int,
            d01 as int,
        );
        assert(num == ey0 * top_sum + ey1 * bottom_sum);
        lemma_weighted_pair(
            ey0 as int,
            ey1 as int,
            top_sum,
            bottom_sum,
            columns as int,
            top.0 as int,
            top.1 as int,
            bottom.0 as int,
            bottom.1 as int,
        );
        assert(num == rest + whole * columns);
        lemma_hoist_over_denominator(rest as int, whole as int, columns as nat);
        assert(whole + carried == num / (columns as int));
        lemma_floor_div_nested(num, columns as int, rows as int);
        assert(-0x1_0000_0000_0000_0000 * (columns * rows) <= num <= 0x1_0000_0000_0000_0000 * (
        columns * rows)) by (nonlinear_arith)
            requires
                num == ey0 * top_sum + ey1 * bottom_sum,
                rows == ey0 + ey1,
                0 <= ey0,
                0 <= ey1,
                -0x1_0000_0000_0000_0000 * columns <= top_sum <= 0x1_0000_0000_0000_0000
                    * columns,
                -0x1_0000_0000_0000_0000 * columns <= bottom_sum <= 0x1_0000_0000_0000_0000
                    * columns,
        ;
        lemma_quotient_bounded(num, columns * rows, 0x1_0000_0000_0000_0000);
    }
    floor_div(whole + carried, rows)
}

/// The sum over the four corners, taken row by row.
proof fn lemma_rows_of_sum(
    ex0: int,
    ex1: int,
    ey0: int,
    ey1: int,
    d00: int,
    d10: int,
    d11: int,
    d01: int,
)
    ensures
        ex0 * ey0 * d00 + ex1 * ey0 * d10 + ex1 * ey1 * d11 + ex0 * ey1 * d01 == ey0 * (ex0 * d00
            + ex1 * d10) + ey1 * (ex0 * d01 + ex1 * d11),
{
    assert(ex0 * ey0 * d00 == ey0 * (ex0 * d00)) by (nonlinear_arith);
    assert(ex1 * ey0 * d10 == ey0 * (ex1 * d10)) by (nonlinear_arith);
    assert(ex1 * ey1 * d11 == ey1 * (ex1 * d11)) by (nonlinear_arith);
    assert(ex0 * ey1 * d01 == ey1 * (ex0 * d01)) by (nonlinear_arith);
    lemma_mul_is_distributive_add(ey0, ex0 * d00, ex1 * d10);
    lemma_mul_is_distributive_add(ey1, ex0 * d01, ex1 * d11);
}

/// Two weighted sums, each split into a multiple of `d` and a remainder,
/// add up to a multiple of `d` and the sum of the weighted remainders.
proof fn lemma_weighted_pair(
    w0: int,
    w1: int,
    a0: int,
    a1: int,
    d: int,
    q0: int,
    r0: int,
    q1: int,
    r1: int,
)
    requires
        a0 == d * q0 + r0,
        a1 == d * q1 + r1,
    ensures
        w0 * a0 + w1 * a1 == (w0 * r0 + w1 * r1) + (w0 * q0 + w1 * q1) * d,
{
    assert(w0 * (d * q0 + r0) == (w0 * q0) * d + w0 * r0) by (nonlinear_arith);
    assert(w1 * (d * q1 + r1) == (w1 * q1) * d + w1 * r1) by (nonlinear_arith);
    lemma_mul_is_distributive_add_other_way(d, w0 * q0, w1 * q1);
}

/// A particle after the gather pass.
fn gather_particle(
    cfg: &Config,
    p: Particle,
    after: &Vec<(i64, i64)>,
    before: &Vec<(i64, i64)>,
) -> (r: Particle)
    requires
        cfg.valid(),
        after@.len() == cfg.grid_len(),
        before@.len() == cfg.grid_len(),
    ensures
        r == gathered_particle(*cfg, p, after@, before@),
{
    proof {
        cfg.lemma_grid_shape();
    }
    let columns: i64 = cfg.num_width_cells() as i64;
    let rows: i64 = cfg.num_height_cells() as i64;
    let (near, near_x, near_y) = corner_shares(cfg, p.pos, 0);
    let (far, far_x, far_y) = corner_shares(cfg, p.pos, 2);
    let col0: bool = 0 <= near.0 && near.0 < columns;
    let col1: bool = 0 <= far.0 && far.0 < columns;
    let row0: bool = 0 <= near.1 && near.1 < rows;
    let row1: bool = 0 <= far.1 && far.1 < rows;
    let ex0: i64 = if col0 { near_x } else { 0 };
    let ex1: i64 = if col1 { far_x } else { 0 };
    let ey0: i64 = if row0 { near_y } else { 0 };
    let ey1: i64 = if row1 { far_y } else { 0 };
    let d00 = delta_at(cfg, after, before, (near.0, near.1), col0 && row0);
    let d10 = delta_at(cfg, after, before, (far.0, near.1), col1 && row0);
    let d11 = delta_at(cfg, after, before, (far.0, far.1), col1 && row1);
    let d01 = delta_at(cfg, after, before, (near.0, far.1), col0 && row1);
    proof {
        let span = cfg.cell_span();
        let s = pull(*cfg, p.pos, after@, before@);
        lemma_corner_pull(*cfg, p.pos, after@, before@, 0, ex0 as int, ey0 as int, d00.0 as int, d00.1 as int);
        lemma_corner_pull(*cfg, p.pos, after@, before@, 1, ex1 as int, ey0 as int, d10.0 as int, d10.1 as int);
        lemma_corner_pull(*cfg, p.pos, after@, before@, 2, ex1 as int, ey1 as int, d11.0 as int, d11.1 as int);
        lemma_corner_pull(*cfg, p.pos, after@, before@, 3, ex0 as int, ey1 as int, d01.0 as int, d01.1 as int);
        assert(ex0 * ey0 + ex1 * ey0 + ex1 * ey1 + ex0 * ey1 == (ex0 + ex1) * (ey0 + ey1))
            by (nonlinear_arith);
        assert(s.2 == (ex0 + ex1) * (ey0 + ey1));
        assert(((ex0 + ex1) * (ey0 + ey1) > 0) == (ex0 + ex1 > 0 && ey0 + ey1 > 0))
            by (nonlinear_arith)
            requires
                0 <= ex0 + ex1,
                0 <= ey0 + ey1,
        ;
    }
    if ex0 + ex1 > 0 && ey0 + ey1 > 0 {
        let qx: i128 = interpolate(ex0, ex1, ey0, ey1, d00.0, d10.0, d11.0, d01.0);
        let qy: i128 = interpolate(ex0, ex1, ey0, ey1, d00.1, d10.1, d11.1, d01.1);
        Particle {
            pos: p.pos,
            vel: (clamp_to_scalar(p.vel.0 as i128 + qx), clamp_to_scalar(p.vel.1 as i128 + qy)),
        }
    } else {
        p
    }
}

/// What corner `k` adds to the interpolation, written with the shares of
/// its column and its row, where a share is zero if the column or the row
/// lies outside the grid.
proof fn lemma_corner_pull(
    cfg: Config,
    pos: (i64, i64),
    after: Seq<(i64, i64)>,
    before: Seq<(i64, i64)>,
    k: int,
    ex: int,
    ey: int,
    dx: int,
    dy: int,
)
    requires
        0 <= k < 4,
        ({
            let n = node(pos, cfg.cell_span(), k);
            let col_in = 0 <= n.0 < cfg.width_cells();
            let row_in = 0 <= n.1 < cfg.height_cells();
            &&& ex == if col_in {
                crate::stencil::axis_share(pos.0 as int, cfg.cell_span(), crate::stencil::corner_col(k))
            } else {
                0
            }
            &&& ey == if row_in {
                crate::stencil::axis_share(pos.1 as int, cfg.cell_span(), crate::stencil::corner_row(k))
            } else {
                0
            }
            &&& col_in && row_in ==> (dx, dy) == delta(after, before, cfg.cell_index(n))
        }),
    ensures
        corner_pull(cfg, pos, after, before, k) == (ex * ey * dx, ex * ey * dy, ex * ey),
{
    let n = node(pos, cfg.cell_span(), k);
    if cfg.in_grid(n) {
    } else {
        assert(ex * ey == 0) by (nonlinear_arith)
            requires
                ex == 0 || ey == 0,
        ;
        assert(0 * dx == 0 && 0 * dy == 0) by (nonlinear_arith);
    }
}

/// The gather pass: the particles, each with its velocity grown by the
/// change from the grid `before` to the grid `after`, interpolated at the
/// particle.
pub fn gather(
    cfg: &Config,
    particles: &Vec<Particle>,
    after: &Vec<(i64, i64)>,
    before: &Vec<(i64, i64)>,
) -> (moved: Vec<Particle>)
    requires
        cfg.valid(),
        after@.len() == cfg.grid_len(),
        before@.len() == cfg.grid_len(),
    ensures
        moved@ == gathered(*cfg, particles@, after@, before@),
{
    let count: usize = particles.len();
    let mut moved: Vec<Particle> = Vec::new();
    let mut n: usize = 0;
    while n < count
        invariant
            cfg.valid(),
            after@.len() == cfg.grid_len(),
            before@.len() == cfg.grid_len(),
            n <= count,
            particles@.len() == count,
            moved@.len() == n,
            forall|i: int|
                0 <= i < n ==> #[trigger] moved@[i] == gathered_particle(
                    *cfg,
                    particles@[i],
                    after@,
                    before@,
                ),
        decreases count - n,
    {
        moved.push(gather_particle(cfg, particles[n], after, before));
        n += 1;
    }
    assert(moved@ =~= gathered(*cfg, particles@, after@, before@));
    moved
}

} // verus!
