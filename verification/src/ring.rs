//! Closed polygon rings: exact doubled signed area and winding normalization.
//!
//! A ring is a sequence of plane points; the edge from the last point back to
//! the first is implicit.  `area2` is twice the signed area (positive for
//! counter-clockwise rings in the usual orientation).  Generation code keeps
//! rings clockwise, as the shoelace check `sum (x1-x0)(y1+y0) >= 0` demands,
//! by reversing counter-clockwise input.

use vstd::prelude::*;

use crate::geom::{iabs, Vec2};

verus! {

/// Twice the signed area of the triangle edge pair `(a, b)` seen from the
/// origin: the cross product `a.x * b.y - b.x * a.y`.
pub open spec fn cross2(a: Vec2, b: Vec2) -> int {
    a.x * b.y - b.x * a.y
}

/// Twice the signed area of the triangle `(p, q, r)`.
pub open spec fn tri_area2(p: Vec2, q: Vec2, r: Vec2) -> int {
    cross2(p, q) + cross2(q, r) + cross2(r, p)
}

/// Sum of `cross2` over consecutive pairs, without the closing edge.
pub open spec fn edge_sum(s: Seq<Vec2>) -> int
    decreases s.len(),
{
    if s.len() < 2 {
        0
    } else {
        cross2(s[0], s[1]) + edge_sum(s.drop_first())
    }
}

/// Twice the signed area of the closed ring `s`.
pub open spec fn area2(s: Seq<Vec2>) -> int {
    if s.len() < 2 {
        0
    } else {
        edge_sum(s) + cross2(s[s.len() - 1], s[0])
    }
}

/// Every point of the ring is a well-formed coordinate.
pub open spec fn ring_wf(s: Seq<Vec2>) -> bool {
    forall|i: int| 0 <= i < s.len() ==> #[trigger] s[i].wf()
}

/// `edge_sum` splits over concatenation, paying one joining edge.
pub proof fn lemma_edge_sum_concat(a: Seq<Vec2>, b: Seq<Vec2>)
    requires
        a.len() >= 1,
        b.len() >= 1,
    ensures
        edge_sum(a + b) == edge_sum(a) + cross2(a[a.len() - 1], b[0]) + edge_sum(b),
    decreases a.len(),
{
    if a.len() == 1 {
        assert((a + b).drop_first() =~= b);
        assert(edge_sum(a) == 0);
        assert((a + b)[0] == a[0] && (a + b)[1] == b[0]);
    } else {
        lemma_edge_sum_concat(a.drop_first(), b);
        assert((a + b).drop_first() =~= a.drop_first() + b);
        assert((a + b)[0] == a[0] && (a + b)[1] == a[1]);
        assert(a.drop_first()[a.drop_first().len() - 1] == a[a.len() - 1]);
    }
}

/// Removing an interior ring vertex subtracts exactly the doubled area of the
/// ear triangle at that vertex.
pub proof fn lemma_area2_remove(s: Seq<Vec2>, i: int)
    requires
        s.len() >= 3,
        1 <= i <= s.len() - 2,
    ensures
        area2(s) == area2(s.remove(i)) + tri_area2(s[i - 1], s[i], s[i + 1]),
{
    let n = s.len() as int;
    let l = s.subrange(0, i);
    let m = seq![s[i]];
    let r = s.subrange(i + 1, n);
    assert(s =~= l + m + r);
    assert(s.remove(i) =~= l + r);
    lemma_edge_sum_concat(l + m, r);
    lemma_edge_sum_concat(l, m);
    assert((l + m)[(l + m).len() - 1] == s[i]);
    assert((l + m) + r =~= l + m + r);
    lemma_edge_sum_concat(l, r);
    assert(edge_sum(m) == 0);
    assert(edge_sum(s) == edge_sum(l) + cross2(s[i - 1], s[i]) + cross2(s[i], s[i + 1])
        + edge_sum(r));
    assert(edge_sum(s.remove(i)) == edge_sum(l) + cross2(s[i - 1], s[i + 1]) + edge_sum(r));
    assert(s.remove(i)[0] == s[0]);
    assert(s.remove(i)[s.remove(i).len() - 1] == s[n - 1]);
}

/// Reversing a ring negates `edge_sum`.
pub proof fn lemma_edge_sum_reverse(s: Seq<Vec2>)
    ensures
        edge_sum(s.reverse()) == -edge_sum(s),
    decreases s.len(),
{
    let n = s.len() as int;
    if n < 2 {
        assert(s.reverse().len() < 2);
    } else {
        lemma_edge_sum_reverse(s.drop_last());
        let h = seq![s[n - 1]];
        assert(s.reverse() =~= h + s.drop_last().reverse());
        if n == 2 {
            assert(s.drop_last().reverse().len() == 1);
            lemma_edge_sum_concat(h, s.drop_last().reverse());
            assert(s.drop_last().reverse()[0] == s[0]);
            assert(s =~= s.drop_last() + seq![s[n - 1]]);
            lemma_edge_sum_concat(s.drop_last(), seq![s[n - 1]]);
        } else {
            lemma_edge_sum_concat(h, s.drop_last().reverse());
            assert(s.drop_last().reverse()[0] == s.drop_last()[s.drop_last().len() - 1]);
            assert(s.drop_last().reverse()[0] == s[n - 2]);
            assert(s =~= s.drop_last() + seq![s[n - 1]]);
            lemma_edge_sum_concat(s.drop_last(), seq![s[n - 1]]);
            assert(edge_sum(s) == edge_sum(s.drop_last()) + cross2(s[n - 2], s[n - 1]));
        }
    }
}

/// Reversing a ring negates its doubled signed area.
pub proof fn lemma_area2_reverse(s: Seq<Vec2>)
    ensures
        area2(s.reverse()) == -area2(s),
{
    if s.len() < 2 {
    } else {
        let n = s.len() as int;
        lemma_edge_sum_reverse(s);
        assert(s.reverse()[0] == s[n - 1]);
        assert(s.reverse()[n - 1] == s[0]);
    }
}

/// The ring with the orientation the mesh builders keep: counter-clockwise
/// input (positive `area2`) is reversed, anything else is left alone.
pub open spec fn normalize_spec(s: Seq<Vec2>) -> Seq<Vec2> {
    if area2(s) > 0 {
        s.reverse()
    } else {
        s
    }
}

/// Winding normalization is idempotent: a second pass changes nothing.
pub proof fn lemma_normalize_idempotent(s: Seq<Vec2>)
    ensures
        normalize_spec(normalize_spec(s)) == normalize_spec(s),
{
    if area2(s) > 0 {
        lemma_area2_reverse(s);
    }
}

proof fn lemma_cross2_term_bound(a: Vec2, b: Vec2)
    requires
        a.wf(),
        b.wf(),
    ensures
        iabs(cross2(a, b)) <= 0x2000_0000_0000_0000,
{
    assert(iabs(a.x * b.y - b.x * a.y) <= 0x2000_0000_0000_0000) by (nonlinear_arith)
        requires
            -0x4000_0000 <= a.x <= 0x4000_0000,
            -0x4000_0000 <= a.y <= 0x4000_0000,
            -0x4000_0000 <= b.x <= 0x4000_0000,
            -0x4000_0000 <= b.y <= 0x4000_0000,
            iabs(a.x * b.y - b.x * a.y) == if a.x * b.y - b.x * a.y >= 0 {
                a.x * b.y - b.x * a.y
            } else {
                -(a.x * b.y - b.x * a.y)
            },
    ;
}

spec fn partial_cyclic_sum(s: Seq<Vec2>, k: int) -> int
    recommends
        0 <= k <= s.len(),
    decreases k,
{
    if k <= 0 {
        0
    } else {
        partial_cyclic_sum(s, k - 1) + cross2(s[k - 1], s[if k == s.len() { 0int } else { k }])
    }
}

proof fn lemma_partial_is_area2(s: Seq<Vec2>, k: int)
    requires
        2 <= k <= s.len(),
    ensures
        partial_cyclic_sum(s, k) == edge_sum(s.subrange(0, k)) + if k == s.len() {
            cross2(s[k - 1], s[0])
        } else {
            cross2(s[k - 1], s[k])
        },
    decreases k,
{
    if k == 2 {
        let t = s.subrange(0, 2);
        assert(t.len() == 2 && t[0] == s[0] && t[1] == s[1]);
        assert(edge_sum(t.drop_first()) == 0);
        assert(edge_sum(t) == cross2(s[0], s[1]));
        assert(partial_cyclic_sum(s, 0) == 0);
        assert(partial_cyclic_sum(s, 1) == cross2(s[0], s[if 1int == s.len() { 0int } else { 1int }]));
        assert(partial_cyclic_sum(s, 2) == partial_cyclic_sum(s, 1) + cross2(
            s[1],
            s[if 2 == s.len() { 0int } else { 2int }],
        ));
    } else {
        lemma_partial_is_area2(s, k - 1);
        let a = s.subrange(0, k - 1);
        let b = seq![s[k - 1]];
        assert(s.subrange(0, k) =~= a + b);
        lemma_edge_sum_concat(a, b);
        assert(edge_sum(b) == 0);
    }
}

/// Computes twice the signed area of `ring` exactly.
pub fn signed_area2(ring: &Vec<Vec2>) -> (r: i128)
    requires
        ring_wf(ring@),
    ensures
        r == area2(ring@),
{
    let n = ring.len();
    if n < 2 {
        return 0;
    }
    let mut acc: i128 = 0;
    let mut k: usize = 0;
    while k < n
        invariant
            2 <= n == ring.len(),
            0 <= k <= n,
            ring_wf(ring@),
            acc == partial_cyclic_sum(ring@, k as int),
            iabs(acc as int) <= (k as int) * 0x2000_0000_0000_0000,
        decreases n - k,
    {
        let p = ring[k];
        let q = ring[if k + 1 == n {
            0
        } else {
            k + 1
        }];
        proof {
            assert(ring@[k as int].wf());
            assert(ring@[if k + 1 == n { 0int } else { k as int + 1 }].wf());
            assert(iabs(p.x as int * q.y as int) <= 0x1000_0000_0000_0000 && iabs(
                q.x as int * p.y as int) <= 0x1000_0000_0000_0000) by (nonlinear_arith)
                requires
                    -0x4000_0000 <= p.x as int <= 0x4000_0000,
                    -0x4000_0000 <= p.y as int <= 0x4000_0000,
                    -0x4000_0000 <= q.x as int <= 0x4000_0000,
                    -0x4000_0000 <= q.y as int <= 0x4000_0000,
                    iabs(p.x as int * q.y as int) == if p.x as int * q.y as int >= 0 { p.x as int * q.y as int } else { -(p.x as int * q.y as int) },
                    iabs(q.x as int * p.y as int) == if q.x as int * p.y as int >= 0 { q.x as int * p.y as int } else { -(q.x as int * p.y as int) },
            ;
        }
        let term: i128 = (p.x as i128) * (q.y as i128) - (q.x as i128) * (p.y as i128);
        proof {
            lemma_cross2_term_bound(p, q);
            assert((k as int) * 0x2000_0000_0000_0000 + 0x2000_0000_0000_0000 == ((k
                + 1) as int) * 0x2000_0000_0000_0000) by (nonlinear_arith);
            assert((k as int) * 0x2000_0000_0000_0000 <= (0x1_0000_0000_0000_0000 as int)
                * 0x2000_0000_0000_0000) by (nonlinear_arith)
                requires
                    0 <= k as int <= 0x1_0000_0000_0000_0000,
            ;
        }
        acc = acc + term;
        k = k + 1;
    }
    proof {
        lemma_partial_is_area2(ring@, n as int);
        assert(ring@.subrange(0, n as int) =~= ring@);
    }
    acc
}

/// Reverses a ring in place order (returns the reversed copy).
pub fn reversed(ring: &Vec<Vec2>) -> (r: Vec<Vec2>)
    ensures
        r@ == ring@.reverse(),
{
    let n = ring.len();
    let mut out: Vec<Vec2> = Vec::new();
    let mut k: usize = 0;
    while k < n
        invariant
            0 <= k <= n == ring.len(),
            out@.len() == k,
            forall|j: int| 0 <= j < k ==> out@[j] == ring@[n - 1 - j],
        decreases n - k,
    {
        out.push(ring[n - 1 - k]);
        k = k + 1;
    }
    proof {
        assert(out@ =~= ring@.reverse());
    }
    out
}

/// Normalizes a ring's winding the way the mesh builders need it: a
/// counter-clockwise ring (positive doubled area) is reversed, anything else
/// is returned unchanged.  Running it twice gives the same ring as once.
pub fn normalize_winding(ring: &Vec<Vec2>) -> (r: Vec<Vec2>)
    requires
        ring_wf(ring@),
    ensures
        r@ == normalize_spec(ring@),
        area2(r@) <= 0,
        ring_wf(r@),
{
    let a = signed_area2(ring);
    if a > 0 {
        let r = reversed(ring);
        proof {
            lemma_area2_reverse(ring@);
            assert(forall|i: int|
                0 <= i < r@.len() ==> r@[i] == ring@[ring@.len() - 1 - i] && #[trigger] r@[i].wf());
        }
        r
    } else {
        let mut out: Vec<Vec2> = Vec::new();
        let n = ring.len();
        let mut k: usize = 0;
        while k < n
            invariant
                0 <= k <= n == ring.len(),
                out@ =~= ring@.subrange(0, k as int),
            decreases n - k,
        {
            out.push(ring[k]);
            k = k + 1;
        }
        proof {
            assert(out@ =~= ring@);
        }
        out
    }
}

} // verus!
