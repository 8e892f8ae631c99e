//! Ear-clipping triangulation of a closed ring.
//!
//! `triangulate` always returns exactly `n - 2` triangles over distinct ring
//! indices, and the sum of their doubled signed areas equals the ring's
//! doubled signed area exactly — clipping a vertex is an algebraic identity
//! on the shoelace sum, whatever vertex is clipped.  Ear selection (convexity
//! and emptiness tests) only steers the clipping toward non-overlapping
//! triangles on simple input; degenerate or self-crossing rings still get a
//! triangle list with the same count and area, never a crash.

use vstd::prelude::*;

use crate::geom::Vec2;
use crate::ring::{area2, cross2, edge_sum, lemma_area2_remove, ring_wf, tri_area2};

verus! {

/// One triangle, as indices into the point list it was built over.
#[derive(Clone, Copy, PartialEq, Eq, Structural, Debug)]
pub struct Tri {
    pub a: usize,
    pub b: usize,
    pub c: usize,
}

/// The triangle's indices address `n` points and are pairwise different.
pub open spec fn tri_in_range(t: Tri, n: int) -> bool {
    &&& t.a < n
    &&& t.b < n
    &&& t.c < n
    &&& t.a != t.b
    &&& t.b != t.c
    &&& t.a != t.c
}

pub open spec fn tris_wf(ts: Seq<Tri>, n: int) -> bool {
    forall|i: int| 0 <= i < ts.len() ==> #[trigger] tri_in_range(ts[i], n)
}

/// Sum of the doubled signed areas of the triangles, over the point list.
pub open spec fn tris_area2(pts: Seq<Vec2>, ts: Seq<Tri>) -> int
    decreases ts.len(),
{
    if ts.len() == 0 {
        0
    } else {
        tris_area2(pts, ts.drop_last()) + tri_area2(
            pts[ts.last().a as int],
            pts[ts.last().b as int],
            pts[ts.last().c as int],
        )
    }
}

/// The sub-ring that a list of indices selects from the point list.
pub open spec fn ring_of(pts: Seq<Vec2>, idx: Seq<usize>) -> Seq<Vec2> {
    idx.map_values(|i: usize| pts[i as int])
}

pub open spec fn idx_in_range(idx: Seq<usize>, n: int) -> bool {
    forall|i: int| 0 <= i < idx.len() ==> #[trigger] idx[i] < n
}

pub open spec fn idx_distinct(idx: Seq<usize>) -> bool {
    forall|i: int, j: int| 0 <= i < j < idx.len() ==> #[trigger] idx[i] != #[trigger] idx[j]
}

/// Exact doubled signed area of the triangle `(p, q, r)`, computed without
/// overflow.
pub fn tri_orient(p: Vec2, q: Vec2, r: Vec2) -> (o: i128)
    requires
        p.wf(),
        q.wf(),
        r.wf(),
    ensures
        o == tri_area2(p, q, r),
{
    let dx1: i64 = q.x - p.x;
    let dy1: i64 = q.y - p.y;
    let dx2: i64 = r.x - p.x;
    let dy2: i64 = r.y - p.y;
    proof {
        assert(-0x4000_0000_0000_0000 <= dx1 as int * dy2 as int <= 0x4000_0000_0000_0000
            && -0x4000_0000_0000_0000 <= dy1 as int * dx2 as int <= 0x4000_0000_0000_0000)
            by (nonlinear_arith)
            requires
                -0x8000_0000 <= dx1 as int <= 0x8000_0000,
                -0x8000_0000 <= dy1 as int <= 0x8000_0000,
                -0x8000_0000 <= dx2 as int <= 0x8000_0000,
                -0x8000_0000 <= dy2 as int <= 0x8000_0000,
        ;
    }
    let o: i128 = (dx1 as i128) * (dy2 as i128) - (dy1 as i128) * (dx2 as i128);
    proof {
        assert((q.x - p.x) * (r.y - p.y) - (q.y - p.y) * (r.x - p.x) == tri_area2(p, q, r))
            by (nonlinear_arith)
            requires
                p.wf(),
                q.wf(),
                r.wf(),
        ;
    }
    o
}

/// True when `x` lies inside or on the triangle `(p, q, r)` of orientation
/// sign `ccw`; used only to steer ear selection.
fn point_in_tri(p: Vec2, q: Vec2, r: Vec2, x: Vec2, ccw: bool) -> (inside: bool)
    requires
        p.wf(),
        q.wf(),
        r.wf(),
        x.wf(),
{
    let o1 = tri_orient(p, q, x);
    let o2 = tri_orient(q, r, x);
    let o3 = tri_orient(r, p, x);
    if ccw {
        o1 >= 0 && o2 >= 0 && o3 >= 0
    } else {
        o1 <= 0 && o2 <= 0 && o3 <= 0
    }
}

/// Picks the ring position to clip next: the first interior position that is
/// a convex ear containing no other active point, or position 1 if none
/// qualifies (degenerate input clips anyway, keeping the count and the area
/// sum exact).
fn find_ear(pts: &Vec<Vec2>, active: &Vec<usize>, ccw: bool) -> (j: usize)
    requires
        ring_wf(pts@),
        active.len() >= 4,
        idx_in_range(active@, pts@.len() as int),
    ensures
        1 <= j <= active.len() - 2,
{
    let m = active.len();
    let mut j: usize = 1;
    while j < m - 1
        invariant
            1 <= j <= m - 1,
            m == active.len() >= 4,
            ring_wf(pts@),
            idx_in_range(active@, pts@.len() as int),
        decreases m - j,
    {
        let p = pts[active[j - 1]];
        let q = pts[active[j]];
        let r = pts[active[j + 1]];
        proof {
            assert(pts@[active@[j - 1] as int].wf());
            assert(pts@[active@[j as int] as int].wf());
            assert(pts@[active@[j + 1] as int].wf());
        }
        let o = tri_orient(p, q, r);
        let convex = if ccw {
            o > 0
        } else {
            o < 0
        };
        if convex {
            let mut empty = true;
            let mut k: usize = 0;
            while k < m
                invariant
                    0 <= k <= m,
                    m == active.len(),
                    1 <= j <= m - 2,
                    ring_wf(pts@),
                    idx_in_range(active@, pts@.len() as int),
                    p.wf(),
                    q.wf(),
                    r.wf(),
                decreases m - k,
            {
                if k + 1 != j && k != j && k != j + 1 {
                    let x = pts[active[k]];
                    proof {
                        assert(pts@[active@[k as int] as int].wf());
                    }
                    if !(x.x == p.x && x.y == p.y) && !(x.x == q.x && x.y == q.y) && !(x.x == r.x
                        && x.y == r.y) {
                        if point_in_tri(p, q, r, x, ccw) {
                            empty = false;
                        }
                    }
                }
                k = k + 1;
            }
            if empty {
                return j;
            }
        }
        j = j + 1;
    }
    1
}

proof fn lemma_ring_of_remove(pts: Seq<Vec2>, idx: Seq<usize>, j: int)
    requires
        0 <= j < idx.len(),
    ensures
        ring_of(pts, idx.remove(j)) =~= ring_of(pts, idx).remove(j),
{
}

proof fn lemma_tris_area2_push(pts: Seq<Vec2>, ts: Seq<Tri>, t: Tri)
    ensures
        tris_area2(pts, ts.push(t)) == tris_area2(pts, ts) + tri_area2(
            pts[t.a as int],
            pts[t.b as int],
            pts[t.c as int],
        ),
{
    assert(ts.push(t).drop_last() =~= ts);
    assert(ts.push(t).last() == t);
}

/// Triangulates the closed ring `pts` by ear clipping.
///
/// Always returns exactly `pts.len() - 2` triangles of pairwise-distinct
/// in-range indices, whose doubled signed areas sum to the ring's doubled
/// signed area exactly.
pub fn triangulate(pts: &Vec<Vec2>) -> (ts: Vec<Tri>)
    requires
        ring_wf(pts@),
        pts.len() >= 3,
    ensures
        ts.len() == pts.len() - 2,
        tris_wf(ts@, pts@.len() as int),
        tris_area2(pts@, ts@) == area2(pts@),
{
    let n = pts.len();
    let total = crate::ring::signed_area2(pts);
    let ccw = total > 0;
    let mut active: Vec<usize> = Vec::new();
    let mut i: usize = 0;
    while i < n
        invariant
            0 <= i <= n == pts.len(),
            active.len() == i,
            forall|k: int| 0 <= k < i ==> #[trigger] active@[k] == k,
        decreases n - i,
    {
        active.push(i);
        i = i + 1;
    }
    proof {
        assert(ring_of(pts@, active@) =~= pts@);
        assert(idx_distinct(active@));
        assert(idx_in_range(active@, n as int));
    }
    let mut ts: Vec<Tri> = Vec::new();
    while active.len() > 3
        invariant
            ring_wf(pts@),
            n == pts.len() >= 3,
            3 <= active.len() <= n,
            idx_in_range(active@, n as int),
            idx_distinct(active@),
            ts.len() == n - active.len(),
            tris_wf(ts@, n as int),
            tris_area2(pts@, ts@) + area2(ring_of(pts@, active@)) == area2(pts@),
        decreases active.len(),
    {
        let j = find_ear(pts, &active, ccw);
        let ia = active[j - 1];
        let ib = active[j];
        let ic = active[j + 1];
        let t = Tri { a: ia, b: ib, c: ic };
        proof {
            let g = ring_of(pts@, active@);
            assert(g.len() == active@.len());
            assert(g[j - 1] == pts@[ia as int] && g[j as int] == pts@[ib as int] && g[j + 1]
                == pts@[ic as int]);
            lemma_area2_remove(g, j as int);
            lemma_ring_of_remove(pts@, active@, j as int);
            lemma_tris_area2_push(pts@, ts@, t);
            assert(tri_in_range(t, n as int));
        }
        ts.push(t);
        let ghost old_active = active@;
        active.remove(j);
        proof {
            assert(active@ =~= old_active.remove(j as int));
            assert forall|x: int, y: int| 0 <= x < y < active@.len() implies #[trigger] active@[x]
                != #[trigger] active@[y] by {
                let ox: int = if x < j as int {
                    x
                } else {
                    x + 1
                };
                let oy: int = if y < j as int {
                    y
                } else {
                    y + 1
                };
                assert(active@[x] == old_active[ox] && active@[y] == old_active[oy]);
            }
            assert(idx_in_range(active@, n as int)) by {
                assert(forall|k: int|
                    0 <= k < active@.len() ==> #[trigger] active@[k] == old_active[if k < j as int {
                        k
                    } else {
                        k + 1
                    }]);
            }
        }
    }
    let t = Tri { a: active[0], b: active[1], c: active[2] };
    proof {
        let g = ring_of(pts@, active@);
        assert(g.len() == 3);
        let g1 = g.drop_first();
        assert(g1.len() == 2 && g1[0] == g[1] && g1[1] == g[2]);
        assert(edge_sum(g1.drop_first()) == 0);
        assert(edge_sum(g1) == cross2(g[1], g[2]));
        assert(edge_sum(g) == cross2(g[0], g[1]) + edge_sum(g1));
        assert(area2(g) == tri_area2(g[0], g[1], g[2]));
        lemma_tris_area2_push(pts@, ts@, t);
        assert(tri_in_range(t, n as int));
    }
    let mut out = ts;
    out.push(t);
    out
}


/// The triangles' corner indices, one triple after another.
pub open spec fn flat_spec(ts: Seq<Tri>) -> Seq<usize>
    decreases ts.len(),
{
    if ts.len() == 0 {
        Seq::empty()
    } else {
        flat_spec(ts.drop_last()) + seq![ts.last().a, ts.last().b, ts.last().c]
    }
}

proof fn lemma_flat_spec_len(ts: Seq<Tri>, limit: int)
    requires
        tris_wf(ts, limit),
    ensures
        flat_spec(ts).len() == 3 * ts.len(),
        forall|i: int| 0 <= i < flat_spec(ts).len() ==> (#[trigger] flat_spec(ts)[i]) < limit,
    decreases ts.len(),
{
    if ts.len() > 0 {
        assert forall|i: int| 0 <= i < ts.drop_last().len() implies tri_in_range(
            #[trigger] ts.drop_last()[i],
            limit,
        ) by {
            assert(ts.drop_last()[i] == ts[i]);
        }
        lemma_flat_spec_len(ts.drop_last(), limit);
        assert(tri_in_range(ts[ts.len() - 1], limit));
    }
}

/// Flattens triangles into an index list — exactly `flat_spec`, or its
/// reverse — with every index below `limit`.
pub fn flat_indices(ts: &Vec<Tri>, limit: usize, rev: bool) -> (r: Vec<usize>)
    requires
        tris_wf(ts@, limit as int),
    ensures
        r.len() == 3 * ts.len(),
        forall|i: int| 0 <= i < r.len() ==> (#[trigger] r@[i]) < limit,
        r.len() % 3 == 0,
        !rev ==> r@ == flat_spec(ts@),
        rev ==> r@ == flat_spec(ts@).reverse(),
{
    let mut flat: Vec<usize> = Vec::new();
    let mut k: usize = 0;
    while k < ts.len()
        invariant
            0 <= k <= ts.len(),
            tris_wf(ts@, limit as int),
            flat.len() == 3 * k,
            flat@ == flat_spec(ts@.subrange(0, k as int)),
            forall|i: int| 0 <= i < flat.len() ==> (#[trigger] flat@[i]) < limit,
        decreases ts.len() - k,
    {
        let t = ts[k];
        proof {
            assert(tri_in_range(ts@[k as int], limit as int));
            let pre = ts@.subrange(0, k as int);
            let nxt = ts@.subrange(0, k as int + 1);
            assert(nxt.drop_last() =~= pre);
            assert(nxt.last() == ts@[k as int]);
        }
        let ghost f0 = flat@;
        flat.push(t.a);
        flat.push(t.b);
        flat.push(t.c);
        proof {
            assert(flat@ =~= f0 + seq![t.a, t.b, t.c]);
        }
        k = k + 1;
    }
    proof {
        assert(ts@.subrange(0, ts.len() as int) =~= ts@);
    }
    if !rev {
        return flat;
    }
    let mut out: Vec<usize> = Vec::new();
    let n = flat.len();
    let mut j: usize = 0;
    while j < n
        invariant
            0 <= j <= n == flat.len(),
            out.len() == j,
            flat@ == flat_spec(ts@),
            forall|i: int| 0 <= i < j ==> #[trigger] out@[i] == flat@[n - 1 - i],
            forall|i: int| 0 <= i < flat.len() ==> (#[trigger] flat@[i]) < limit,
            forall|i: int| 0 <= i < out.len() ==> (#[trigger] out@[i]) < limit,
        decreases n - j,
    {
        out.push(flat[n - 1 - j]);
        j = j + 1;
    }
    proof {
        assert(out.len() == 3 * ts.len());
        assert(out@ =~= flat_spec(ts@).reverse());
    }
    out
}

} // verus!
