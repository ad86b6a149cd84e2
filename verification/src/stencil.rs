//! The bilinear stencil of a point: the four grid nodes around it and the
//! weight that each of them carries.
//!
//! Corners are numbered clockwise from the top-left one: `0` top-left, `1`
//! top-right, `2` bottom-right, `3` bottom-left. A weight is kept exactly, as
//! its numerator over the square of the cell span.

use vstd::prelude::*;
use vstd::arithmetic::div_mod::lemma_fundamental_div_mod;
use vstd::arithmetic::div_mod::lemma_mod_bound;
use crate::config::Config;
use crate::scalar::floor_div;
use crate::scalar::UNIT;

verus! {

/// One corner of a stencil: the node's grid coordinates and its weight, as a
/// numerator over the square of the cell span.
#[derive(Copy, Clone, Debug, PartialEq, Eq)]
pub struct Corner {
    pub node: (i64, i64),
    pub weight: i128,
}

/// Columns to the right of the top-left node at which corner `k` lies.
pub open spec fn corner_col(k: int) -> int {
    if k == 1 || k == 2 {
        1
    } else {
        0
    }
}

/// Rows below the top-left node at which corner `k` lies.
pub open spec fn corner_row(k: int) -> int {
    if k == 2 || k == 3 {
        1
    } else {
        0
    }
}

/// The share of a coordinate `p` that goes to the node before it (`far` is
/// 0) or to the node after it (`far` is 1), as a numerator over `span`.
pub open spec fn axis_share(p: int, span: int, far: int) -> int {
    if far == 0 {
        span - p % span
    } else {
        p % span
    }
}

/// The grid coordinates of corner `k` of the stencil around `pos`.
pub open spec fn node(pos: (i64, i64), span: int, k: int) -> (int, int) {
    (pos.0 as int / span + corner_col(k), pos.1 as int / span + corner_row(k))
}

/// The weight of corner `k` of the stencil around `pos`, as a numerator over
/// `span * span`.
pub open spec fn weight(pos: (i64, i64), span: int, k: int) -> int {
    axis_share(pos.0 as int, span, corner_col(k)) * axis_share(pos.1 as int, span, corner_row(k))
}

/// The four weights of a stencil are fractions of one that add up to one.
pub proof fn lemma_weights_sum_to_one(pos: (i64, i64), span: int)
    requires
        span > 0,
    ensures
        forall|k: int| 0 <= k < 4 ==> 0 <= #[trigger] weight(pos, span, k) <= span * span,
        weight(pos, span, 0) + weight(pos, span, 1) + weight(pos, span, 2) + weight(pos, span, 3)
            == span * span,
{
    let dx = pos.0 as int % span;
    let dy = pos.1 as int % span;
    lemma_mod_bound(pos.0 as int, span);
    lemma_mod_bound(pos.1 as int, span);
    assert((span - dx) * (span - dy) + dx * (span - dy) + dx * dy + (span - dx) * dy == span
        * span) by (nonlinear_arith);
    assert(0 <= (span - dx) * (span - dy) && 0 <= dx * (span - dy) && 0 <= dx * dy && 0 <= (span
        - dx) * dy) by (nonlinear_arith)
        requires
            0 <= dx < span,
            0 <= dy < span,
    ;
}

/// A point that lies exactly on a grid node gives that node all the weight.
pub proof fn lemma_weight_on_node(pos: (i64, i64), span: int)
    requires
        span > 0,
        pos.0 as int % span == 0,
        pos.1 as int % span == 0,
    ensures
        weight(pos, span, 0) == span * span,
        weight(pos, span, 1) == 0,
        weight(pos, span, 2) == 0,
        weight(pos, span, 3) == 0,
{
    assert(0 * span == 0 && span * 0 == 0 && 0 * 0 == 0) by (nonlinear_arith);
}

/// Splits a coordinate into the index of the node before it and the offset
/// from that node.
fn split_axis(p: i64, span: i64) -> (r: (i64, i64))
    requires
        1_000_000 <= span <= 4_294_967_295_000_000,
    ensures
        r.0 == (p as int) / (span as int),
        r.1 == (p as int) % (span as int),
        0 <= r.1 < span,
        -0x1000_0000_0000 <= r.0 <= 0x1000_0000_0000,
{
    let q: i128 = floor_div(p as i128, span as i128);
    proof {
        let pi = p as int;
        let si = span as int;
        let qi = q as int;
        let ri = pi % si;
        lemma_fundamental_div_mod(pi, si);
        lemma_mod_bound(pi, si);
        assert(-0x1000_0000_0000 <= qi && qi <= 0x1000_0000_0000) by (nonlinear_arith)
            requires
                pi == si * qi + ri,
                0 <= ri && ri < si,
                1_000_000 <= si,
                -0x8000_0000_0000_0000 <= pi && pi <= 0x7fff_ffff_ffff_ffff,
        ;
        assert(pi - si * qi == ri);
        assert(-0x1_0000_0000_0000_0000_0000_0000 <= si * qi && si * qi
            <= 0x1_0000_0000_0000_0000_0000_0000) by (nonlinear_arith)
            requires
                1 <= si && si <= 4_294_967_295_000_000,
                -0x1000_0000_0000 <= qi && qi <= 0x1000_0000_0000,
        ;
    }
    let offset: i128 = p as i128 - span as i128 * q;
    (q as i64, offset as i64)
}

/// Corner `k` of the stencil around `pos`, with its weight still in two
/// factors: the node, the share of the horizontal axis and the share of the
/// vertical axis, each share a numerator over the cell span.
pub fn corner_shares(cfg: &Config, pos: (i64, i64), k: usize) -> (r: ((i64, i64), i64, i64))
    requires
        cfg.valid(),
        k < 4,
    ensures
        (r.0.0 as int, r.0.1 as int) == node(pos, cfg.cell_span(), k as int),
        r.1 == axis_share(pos.0 as int, cfg.cell_span(), corner_col(k as int)),
        r.2 == axis_share(pos.1 as int, cfg.cell_span(), corner_row(k as int)),
        0 <= r.1 <= cfg.cell_span(),
        0 <= r.2 <= cfg.cell_span(),
        r.1 * r.2 == weight(pos, cfg.cell_span(), k as int),
{
    proof {
        cfg.lemma_grid_shape();
    }
    let span: i64 = cfg.cell_size as i64 * UNIT;
    let (ix, dx) = split_axis(pos.0, span);
    let (iy, dy) = split_axis(pos.1, span);
    let (col, wx): (i64, i64) = if k == 1 || k == 2 {
        (ix + 1, dx)
    } else {
        (ix, span - dx)
    };
    let (row, wy): (i64, i64) = if k == 2 || k == 3 {
        (iy + 1, dy)
    } else {
        (iy, span - dy)
    };
    ((col, row), wx, wy)
}

/// Corner `k` of the stencil around `pos`.
pub fn corner(cfg: &Config, pos: (i64, i64), k: usize) -> (c: Corner)
    requires
        cfg.valid(),
        k < 4,
    ensures
        (c.node.0 as int, c.node.1 as int) == node(pos, cfg.cell_span(), k as int),
        c.weight == weight(pos, cfg.cell_span(), k as int),
        0 <= c.weight <= cfg.cell_span() * cfg.cell_span(),
{
    let (at, wx, wy) = corner_shares(cfg, pos, k);
    proof {
        cfg.lemma_grid_shape();
        let span = cfg.cell_span();
        assert(0 <= wx * wy <= span * span <= 0x100_0000_0000_0000_0000_0000_0000)
            by (nonlinear_arith)
            requires
                0 <= wx <= span,
                0 <= wy <= span,
                span <= 4_294_967_295_000_000,
        ;
    }
    Corner { node: at, weight: wx as i128 * wy as i128 }
}

} // verus!
