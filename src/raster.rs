use vstd::arithmetic::div_mod::lemma_fundamental_div_mod_converse;
use vstd::prelude::*;

use crate::fixed::abs;
use crate::SCALE;

verus! {

/// A point of a polyline, in thousandths of a terminal cell: `(column, row)`.
pub type Point = (i32, i32);

pub open spec fn max(a: int, b: int) -> int {
    if a < b {
        b
    } else {
        a
    }
}

pub open spec fn seg_dx(p: Point, q: Point) -> int {
    abs(q.0 - p.0)
}

pub open spec fn seg_dy(p: Point, q: Point) -> int {
    abs(q.1 - p.1)
}

pub open spec fn step_x(p: Point, q: Point) -> int {
    if p.0 < q.0 {
        SCALE as int
    } else {
        -(SCALE as int)
    }
}

pub open spec fn step_y(p: Point, q: Point) -> int {
    if p.1 < q.1 {
        SCALE as int
    } else {
        -(SCALE as int)
    }
}

/// State `(x, y, err)` of the error-accumulating line walk from `p` towards `q`
/// after `k` steps; each step moves by at most one cell on each axis.
pub open spec fn walk(p: Point, q: Point, k: nat) -> (int, int, int)
    decreases k,
{
    if k == 0 {
        (p.0 as int, p.1 as int, seg_dx(p, q) - seg_dy(p, q))
    } else {
        let s = walk(p, q, (k - 1) as nat);
        let e2 = 2 * s.2;
        let x1 = if e2 > -seg_dy(p, q) { s.0 + step_x(p, q) } else { s.0 };
        let err1 = if e2 > -seg_dy(p, q) { s.2 - seg_dy(p, q) } else { s.2 };
        let y1 = if e2 < seg_dx(p, q) { s.1 + step_y(p, q) } else { s.1 };
        let err2 = if e2 < seg_dx(p, q) { err1 + seg_dx(p, q) } else { err1 };
        (x1, y1, err2)
    }
}

/// The largest number of steps the walk takes: the longer axis, in whole cells, rounded up.
pub open spec fn walk_cap(p: Point, q: Point) -> int {
    (max(seg_dx(p, q), seg_dy(p, q)) + SCALE - 1) / (SCALE as int)
}

pub open spec fn reached(p: Point, q: Point, k: nat) -> bool {
    walk(p, q, k).0 == q.0 && walk(p, q, k).1 == q.1
}

/// Step `k` of the walk is drawn: it is within the cap and the target was not met earlier.
pub open spec fn plotted(p: Point, q: Point, k: nat) -> bool {
    &&& k <= walk_cap(p, q)
    &&& forall|j: nat| j < k ==> !#[trigger] reached(p, q, j)
}

/// `v / d` rounded to the nearest integer, halves away from zero.
pub open spec fn round_div(v: int, d: int) -> int {
    if v >= 0 {
        (v + d / 2) / d
    } else {
        -((-v + d / 2) / d)
    }
}

/// Dot column of a position: two dots per cell.
pub open spec fn dot_col(x: int) -> int {
    round_div(2 * x, SCALE as int)
}

/// Dot row of a position: four dots per cell.
pub open spec fn dot_row(y: int) -> int {
    round_div(4 * y, SCALE as int)
}

/// Index in a column-major dot grid of `bw` by `bh` dots of step `k` of the walk,
/// or -1 where that dot lies outside the grid.
pub open spec fn dot_index(p: Point, q: Point, k: nat, bw: int, bh: int) -> int {
    let s = walk(p, q, k);
    let gx = dot_col(s.0);
    let gy = dot_row(s.1);
    if 0 <= gx < bw && 0 <= gy < bh {
        gx * bh + gy
    } else {
        -1
    }
}

/// One of the first `n` steps of the segment from `p` to `q` lights dot `c`.
pub open spec fn segment_hits(p: Point, q: Point, n: int, bw: int, bh: int, c: int) -> bool {
    exists|k: nat| k < n && #[trigger] plotted(p, q, k) && dot_index(p, q, k, bw, bh) == c
}

/// One of the first `i` segments of the polyline lights dot `c`.
pub open spec fn lit_before(pts: Seq<Point>, i: int, bw: int, bh: int, c: int) -> bool {
    exists|j: int|
        0 <= j < i && j + 1 < pts.len() && #[trigger] segment_hits(
            pts[j],
            pts[j + 1],
            walk_cap(pts[j], pts[j + 1]) + 1,
            bw,
            bh,
            c,
        )
}

/// The dot grid of a polyline: dot `c` is lit iff some segment lights it.
pub open spec fn dot_grid(pts: Seq<Point>, bw: int, bh: int) -> Seq<bool> {
    Seq::new((bw * bh) as nat, |c: int| lit_before(pts, pts.len() - 1, bw, bh, c))
}

proof fn lemma_hits_extend(p: Point, q: Point, k: nat, bw: int, bh: int, c: int)
    ensures
        segment_hits(p, q, k + 1 as int, bw, bh, c) == (segment_hits(p, q, k as int, bw, bh, c) || (
        plotted(p, q, k) && dot_index(p, q, k, bw, bh) == c)),
{
    if segment_hits(p, q, k + 1 as int, bw, bh, c) {
        let k2 = choose|k2: nat|
            k2 < k + 1 && #[trigger] plotted(p, q, k2) && dot_index(p, q, k2, bw, bh) == c;
        if k2 < k {
            assert(segment_hits(p, q, k as int, bw, bh, c));
        }
    }
    if plotted(p, q, k) && dot_index(p, q, k, bw, bh) == c {
        assert(segment_hits(p, q, k + 1 as int, bw, bh, c));
    }
}

proof fn lemma_hits_saturate(p: Point, q: Point, k: nat, bw: int, bh: int, c: int)
    requires
        k <= walk_cap(p, q),
        reached(p, q, k) || k == walk_cap(p, q),
    ensures
        segment_hits(p, q, k + 1 as int, bw, bh, c) == segment_hits(
            p,
            q,
            walk_cap(p, q) + 1,
            bw,
            bh,
            c,
        ),
{
    if segment_hits(p, q, walk_cap(p, q) + 1, bw, bh, c) {
        let k2 = choose|k2: nat|
            k2 < walk_cap(p, q) + 1 && #[trigger] plotted(p, q, k2) && dot_index(p, q, k2, bw, bh)
                == c;
        if k2 > k {
            assert(!reached(p, q, k));
        }
        assert(segment_hits(p, q, k + 1 as int, bw, bh, c));
    }
    if segment_hits(p, q, k + 1 as int, bw, bh, c) {
        let k2 = choose|k2: nat|
            k2 < k + 1 && #[trigger] plotted(p, q, k2) && dot_index(p, q, k2, bw, bh) == c;
        assert(segment_hits(p, q, walk_cap(p, q) + 1, bw, bh, c));
    }
}

proof fn lemma_lit_extend(pts: Seq<Point>, i: int, bw: int, bh: int, c: int)
    requires
        0 <= i,
        i + 1 < pts.len(),
    ensures
        lit_before(pts, i + 1, bw, bh, c) == (lit_before(pts, i, bw, bh, c) || segment_hits(
            pts[i],
            pts[i + 1],
            walk_cap(pts[i], pts[i + 1]) + 1,
            bw,
            bh,
            c,
        )),
{
    if lit_before(pts, i + 1, bw, bh, c) {
        let j = choose|j: int|
            0 <= j < i + 1 && j + 1 < pts.len() && #[trigger] segment_hits(
                pts[j],
                pts[j + 1],
                walk_cap(pts[j], pts[j + 1]) + 1,
                bw,
                bh,
                c,
            );
        if j < i {
            assert(lit_before(pts, i, bw, bh, c));
        }
    }
    if segment_hits(pts[i], pts[i + 1], walk_cap(pts[i], pts[i + 1]) + 1, bw, bh, c) {
        assert(lit_before(pts, i + 1, bw, bh, c));
    }
}

fn round_div_exec(v: i64) -> (r: i64)
    requires
        -0x4000_0000_0000_0000 <= v <= 0x4000_0000_0000_0000,
    ensures
        r == round_div(v as int, SCALE as int),
        -0x4000_0000_0000_0000 <= r <= 0x4000_0000_0000_0000,
{
    if v >= 0 {
        (v + SCALE / 2) / SCALE
    } else {
        -((-v + SCALE / 2) / SCALE)
    }
}

/// Lights, in `grid`, every dot that the walk from `p` to `q` visits.
fn plot_segment(grid: &mut Vec<bool>, p: Point, q: Point, bw: usize, bh: usize)
    requires
        old(grid).len() == bw * bh,
    ensures
        final(grid).len() == bw * bh,
        forall|c: int|
            0 <= c < bw * bh ==> #[trigger] final(grid)@[c] == (old(grid)@[c] || segment_hits(
                p,
                q,
                walk_cap(p, q) + 1,
                bw as int,
                bh as int,
                c,
            )),
{
    let x1: i64 = p.0 as i64;
    let y1: i64 = p.1 as i64;
    let x2: i64 = q.0 as i64;
    let y2: i64 = q.1 as i64;
    let dx: i64 = if x2 >= x1 { x2 - x1 } else { x1 - x2 };
    let dy: i64 = if y2 >= y1 { y2 - y1 } else { y1 - y2 };
    let sx: i64 = if x1 < x2 { SCALE } else { -SCALE };
    let sy: i64 = if y1 < y2 { SCALE } else { -SCALE };
    let longer: i64 = if dx < dy { dy } else { dx };
    let cap: i64 = (longer + SCALE - 1) / SCALE;
    assert(cap == walk_cap(p, q));
    assert(cap <= 0x80_0000);
    let mut cx: i64 = x1;
    let mut cy: i64 = y1;
    let mut err: i64 = dx - dy;
    let mut k: i64 = 0;
    let ghost g0 = grid@;
    assert((k as int + 1) * (dx + dy) == dx + dy) by (nonlinear_arith)
        requires
            k == 0,
    ;
    loop
        invariant_except_break
            0 <= k <= cap,
            cap == walk_cap(p, q),
            cap <= 0x80_0000,
            dx == seg_dx(p, q),
            dy == seg_dy(p, q),
            sx == step_x(p, q),
            sy == step_y(p, q),
            x1 == p.0,
            y1 == p.1,
            x2 == q.0,
            y2 == q.1,
            walk(p, q, k as nat) == (cx as int, cy as int, err as int),
            -(k as int) * SCALE <= cx - x1 <= (k as int) * SCALE,
            -(k as int) * SCALE <= cy - y1 <= (k as int) * SCALE,
            -((k as int + 1) * (dx + dy)) <= err <= (k as int + 1) * (dx + dy),
            forall|j: nat| j < k ==> !#[trigger] reached(p, q, j),
            grid.len() == bw * bh,
            forall|c: int|
                0 <= c < bw * bh ==> #[trigger] grid@[c] == (g0[c] || segment_hits(
                    p,
                    q,
                    k as int,
                    bw as int,
                    bh as int,
                    c,
                )),
        ensures
            0 <= k <= cap,
            reached(p, q, k as nat) || k == cap,
            grid.len() == bw * bh,
            forall|c: int|
                0 <= c < bw * bh ==> #[trigger] grid@[c] == (g0[c] || segment_hits(
                    p,
                    q,
                    k + 1,
                    bw as int,
                    bh as int,
                    c,
                )),
        decreases cap - k,
    {
        assert(-0x10_0000_0000_0000 <= (k as int) * SCALE <= 0x10_0000_0000_0000) by (nonlinear_arith)
            requires
                0 <= k <= 0x80_0000,
        ;
        let gx = round_div_exec(2 * cx);
        let gy = round_div_exec(4 * cy);
        let ghost target: int = dot_index(p, q, k as nat, bw as int, bh as int);
        assert(plotted(p, q, k as nat));
        if 0 <= gx && (gx as u64) < (bw as u64) && 0 <= gy && (gy as u64) < (bh as u64) {
            let ux: usize = gx as usize;
            let uy: usize = gy as usize;
            assert(ux * bh + uy < bw * bh) by (nonlinear_arith)
                requires
                    ux < bw,
                    uy < bh,
            ;
            let idx: usize = ux * bh + uy;
            assert(idx == target);
            grid.set(idx, true);
        } else {
            assert(target == -1);
        }
        assert forall|c: int| 0 <= c < bw * bh implies #[trigger] grid@[c] == (g0[c] || segment_hits(
            p,
            q,
            k + 1,
            bw as int,
            bh as int,
            c,
        )) by {
            lemma_hits_extend(p, q, k as nat, bw as int, bh as int, c);
        }
        if cx == x2 && cy == y2 {
            break ;
        }
        if k == cap {
            break ;
        }
        assert(!reached(p, q, k as nat));
        let m: i64 = dx + dy;
        assert((k as int + 2) * m == (k as int + 1) * m + m) by (nonlinear_arith);
        assert((k as int + 2) * m <= 0x80_0002 * 0x2_0000_0000) by (nonlinear_arith)
            requires
                0 <= k + 2 <= 0x80_0002,
                0 <= m <= 0x2_0000_0000,
        ;
        assert((k as int + 1) * m <= (k as int + 2) * m) by (nonlinear_arith)
            requires
                0 <= m,
        ;
        assert((k as int + 1) * SCALE == (k as int) * SCALE + SCALE) by (nonlinear_arith);
        let e2: i64 = 2 * err;
        if e2 > -dy {
            err = err - dy;
            cx = cx + sx;
        }
        if e2 < dx {
            err = err + dx;
            cy = cy + sy;
        }
        k = k + 1;
    }
    assert forall|c: int| 0 <= c < bw * bh implies #[trigger] grid@[c] == (g0[c] || segment_hits(
        p,
        q,
        walk_cap(p, q) + 1,
        bw as int,
        bh as int,
        c,
    )) by {
        lemma_hits_saturate(p, q, k as nat, bw as int, bh as int, c);
    }
}

/// Rasterizes a polyline into a column-major grid of `bw` by `bh` dots
/// (dot `(gx, gy)` at index `gx * bh + gy`).
pub fn rasterize_polyline(points: &[Point], bw: usize, bh: usize) -> (grid: Vec<bool>)
    requires
        bw * bh <= usize::MAX,
    ensures
        grid@ == dot_grid(points@, bw as int, bh as int),
{
    let n: usize = bw * bh;
    let mut grid: Vec<bool> = Vec::with_capacity(n);
    let mut c: usize = 0;
    while c < n
        invariant
            n == bw * bh,
            c <= n,
            grid.len() == c,
            forall|j: int| 0 <= j < c ==> !#[trigger] grid@[j],
        decreases n - c,
    {
        grid.push(false);
        c = c + 1;
    }
    let mut i: usize = 0;
    while i + 1 < points.len()
        invariant
            n == bw * bh,
            grid.len() == n,
            i == 0 || i + 1 <= points.len(),
            forall|c2: int|
                0 <= c2 < n ==> #[trigger] grid@[c2] == lit_before(
                    points@,
                    i as int,
                    bw as int,
                    bh as int,
                    c2,
                ),
        decreases points.len() - i,
    {
        plot_segment(&mut grid, points[i], points[i + 1], bw, bh);
        assert forall|c2: int| 0 <= c2 < n implies #[trigger] grid@[c2] == lit_before(
            points@,
            i + 1,
            bw as int,
            bh as int,
            c2,
        ) by {
            lemma_lit_extend(points@, i as int, bw as int, bh as int, c2);
        }
        i = i + 1;
    }
    proof {
        if points.len() == 0 {
            assert forall|c2: int| 0 <= c2 < n implies grid@[c2] == lit_before(
                points@,
                points.len() - 1,
                bw as int,
                bh as int,
                c2,
            ) by {}
        } else {
            assert(i + 1 == points.len() || i == 0);
        }
    }
    assert(grid@ =~= dot_grid(points@, bw as int, bh as int));
    grid
}

proof fn lemma_diagonal_steps(p: Point, q: Point, d: int, k: nat)
    requires
        d >= 0,
        q.0 == p.0 + d * SCALE,
        q.1 == p.1 + d * SCALE,
        k <= d,
    ensures
        walk(p, q, k) == (p.0 + k * SCALE, p.1 + k * SCALE, 0int),
    decreases k,
{
    assert(seg_dx(p, q) == d * SCALE && seg_dy(p, q) == d * SCALE);
    if k > 0 {
        lemma_diagonal_steps(p, q, d, (k - 1) as nat);
        assert(d * SCALE > 0) by (nonlinear_arith)
            requires
                d >= k > 0,
                SCALE == 1000,
        ;
        assert(p.0 + (k - 1) * SCALE + SCALE == p.0 + k * SCALE) by (nonlinear_arith);
        assert(p.1 + (k - 1) * SCALE + SCALE == p.1 + k * SCALE) by (nonlinear_arith);
    }
}

/// A diagonal segment `d` whole cells long on both axes is drawn in exactly `d + 1`
/// steps, one cell along each axis per step: step `k` is at `p + (k, k)` cells for
/// `k <= d`, and no step after the `d`-th is drawn.
pub proof fn lemma_diagonal_segment(p: Point, q: Point, d: int)
    requires
        d >= 0,
        q.0 == p.0 + d * SCALE,
        q.1 == p.1 + d * SCALE,
    ensures
        walk_cap(p, q) == d,
        forall|k: nat| k <= d ==> #[trigger] plotted(p, q, k) && walk(p, q, k).0 == p.0 + k * SCALE
            && walk(p, q, k).1 == p.1 + k * SCALE,
        forall|k: nat| k > d ==> !#[trigger] plotted(p, q, k),
{
    assert(seg_dx(p, q) == d * SCALE && seg_dy(p, q) == d * SCALE);
    assert((d * SCALE + SCALE - 1) / (SCALE as int) == d) by {
        lemma_fundamental_div_mod_converse(d * SCALE + SCALE - 1, SCALE as int, d, SCALE - 1);
    }
    assert forall|k: nat| k <= d implies #[trigger] plotted(p, q, k) && walk(p, q, k).0 == p.0 + k
        * SCALE && walk(p, q, k).1 == p.1 + k * SCALE by {
        lemma_diagonal_steps(p, q, d, k);
        assert forall|j: nat| j < k implies !#[trigger] reached(p, q, j) by {
            lemma_diagonal_steps(p, q, d, j);
            assert(j * SCALE < d * SCALE) by (nonlinear_arith)
                requires
                    j < k <= d,
                    SCALE == 1000,
            ;
        }
    }
    assert forall|k: nat| k > d implies !#[trigger] plotted(p, q, k) by {
        lemma_diagonal_steps(p, q, d, d as nat);
        assert(reached(p, q, d as nat));
    }
}

} // verus!
