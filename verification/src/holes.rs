//! Door cut-outs as axis-aligned rectangles: grouping mutually-overlapping
//! rectangles, tracing the outline of each group's union, and triangulating
//! a rectangle with such outlines as holes.
//!
//! Overlap is closed (touching rectangles count), matching a polygon union
//! that merges adjacent boxes into one boundary.

use vstd::prelude::*;

use crate::geom::{Vec2, COORD_MAX};

verus! {

/// An axis-aligned rectangle, corners `(x0, y0)`..`(x1, y1)`.
#[derive(Clone, Copy, PartialEq, Eq, Structural, Debug)]
pub struct Rect2 {
    pub x0: i64,
    pub y0: i64,
    pub x1: i64,
    pub y1: i64,
}

impl Rect2 {
    pub open spec fn wf(self) -> bool {
        &&& -COORD_MAX <= self.x0 <= COORD_MAX
        &&& -COORD_MAX <= self.y0 <= COORD_MAX
        &&& -COORD_MAX <= self.x1 <= COORD_MAX
        &&& -COORD_MAX <= self.y1 <= COORD_MAX
        &&& self.x0 <= self.x1
        &&& self.y0 <= self.y1
    }

    /// The rectangle enclosing some area.
    pub open spec fn positive(self) -> bool {
        self.x0 < self.x1 && self.y0 < self.y1
    }
}

/// Closed overlap: the rectangles share at least a boundary point.
pub open spec fn rects_overlap(a: Rect2, b: Rect2) -> bool {
    a.x0 <= b.x1 && b.x0 <= a.x1 && a.y0 <= b.y1 && b.y0 <= a.y1
}

/// Rectangle index `i` appears somewhere in the groups.
pub open spec fn listed(groups: Seq<Seq<usize>>, i: int) -> bool {
    exists|g: int, k: int|
        0 <= g < groups.len() && 0 <= k < groups[g].len() && groups[g][k] == i
}

/// Indices are in range and pairwise distinct, and each entry after the
/// first overlaps an earlier entry: the list spells out a connected chain.
pub open spec fn chain_ok(cur: Seq<usize>, rects: Seq<Rect2>) -> bool {
    &&& forall|k: int| 0 <= k < cur.len() ==> (#[trigger] cur[k]) < rects.len()
    &&& forall|k1: int, k2: int|
        0 <= k1 < k2 < cur.len() ==> #[trigger] cur[k1] != #[trigger] cur[k2]
    &&& forall|k: int|
        1 <= k < cur.len() ==> exists|k2: int|
            0 <= k2 < k && rects_overlap(
                rects[(#[trigger] cur[k]) as int],
                rects[#[trigger] cur[k2] as int],
            )
}

/// No entry of `cur` overlaps any member of any group.
pub open spec fn apart(cur: Seq<usize>, groups: Seq<Seq<usize>>, rects: Seq<Rect2>) -> bool {
    forall|k: int, g: int, k2: int|
        0 <= k < cur.len() && 0 <= g < groups.len() && 0 <= k2 < groups[g].len()
            ==> !rects_overlap(
            rects[(#[trigger] cur[k]) as int],
            rects[#[trigger] groups[g][k2] as int],
        )
}

/// The invariant of the closed groups: each is a nonempty connected chain,
/// no index repeats across slots, and distinct groups stay apart.
pub open spec fn closed_ok(groups: Seq<Seq<usize>>, rects: Seq<Rect2>) -> bool {
    &&& forall|g: int|
        0 <= g < groups.len() ==> (#[trigger] groups[g]).len() >= 1 && chain_ok(groups[g], rects)
    &&& forall|g1: int, k1: int, g2: int, k2: int|
        0 <= g1 < groups.len() && 0 <= k1 < groups[g1].len() && 0 <= g2 < groups.len() && 0 <= k2
            < groups[g2].len() && g1 != g2 ==> #[trigger] groups[g1][k1]
            != #[trigger] groups[g2][k2] && !rects_overlap(
            rects[groups[g1][k1] as int],
            rects[groups[g2][k2] as int],
        )
}

/// The grouping contract: each group is a nonempty connected chain of
/// rectangle indices (`chain_ok`), distinct groups never overlap
/// (`closed_ok`), every rectangle index appears, and no index appears in two
/// slots.
pub open spec fn groups_wf(groups: Seq<Seq<usize>>, rects: Seq<Rect2>) -> bool {
    &&& closed_ok(groups, rects)
    &&& forall|i: int| 0 <= i < rects.len() ==> listed(groups, i)
    &&& forall|g1: int, k1: int, g2: int, k2: int|
        0 <= g1 < groups.len() && 0 <= k1 < groups[g1].len() && 0 <= g2 < groups.len() && 0 <= k2
            < groups[g2].len() && (g1 != g2 || k1 != k2) ==> #[trigger] groups[g1][k1]
            != #[trigger] groups[g2][k2]
}

/// How many entries of the sequence are true.
pub open spec fn cnt_true(s: Seq<bool>) -> int
    decreases s.len(),
{
    if s.len() == 0 {
        0
    } else {
        cnt_true(s.drop_last()) + if s.last() {
            1int
        } else {
            0int
        }
    }
}

proof fn lemma_cnt_bounds(s: Seq<bool>)
    ensures
        0 <= cnt_true(s) <= s.len(),
    decreases s.len(),
{
    if s.len() > 0 {
        lemma_cnt_bounds(s.drop_last());
    }
}

proof fn lemma_cnt_set_true(s: Seq<bool>, i: int)
    requires
        0 <= i < s.len(),
        !s[i],
    ensures
        cnt_true(s.update(i, true)) == cnt_true(s) + 1,
    decreases s.len(),
{
    if i == s.len() - 1 {
        assert(s.update(i, true).drop_last() =~= s.drop_last());
    } else {
        assert(s.update(i, true).drop_last() =~= s.drop_last().update(i, true));
        assert(s.update(i, true).last() == s.last());
        lemma_cnt_set_true(s.drop_last(), i);
    }
}

/// Every edge of the closed ring, the closing one included, is axis
/// aligned: consecutive points share an x or a y coordinate.
pub open spec fn ring_rectilinear(s: Seq<Vec2>) -> bool {
    forall|i: int|
        0 <= i < s.len() ==> ((#[trigger] s[i]).x == s[if i + 1 == s.len() {
            0int
        } else {
            i + 1
        }].x || s[i].y == s[if i + 1 == s.len() {
            0int
        } else {
            i + 1
        }].y)
}

/// The point's coordinates both come from edges of the group's rectangles.
pub open spec fn coord_of_group(v: Vec2, rects: Seq<Rect2>, group: Seq<usize>) -> bool {
    &&& exists|k: int|
        0 <= k < group.len() && ((#[trigger] rects[group[k] as int]).x0 == v.x || rects[group[
            k
        ] as int].x1 == v.x)
    &&& exists|k: int|
        0 <= k < group.len() && ((#[trigger] rects[group[k] as int]).y0 == v.y || rects[group[
            k
        ] as int].y1 == v.y)
}

/// The element-wise views of a list of index lists.
pub open spec fn views(gs: Seq<Vec<usize>>) -> Seq<Seq<usize>> {
    gs.map_values(|g: Vec<usize>| g@)
}

/// True when `r` overlaps some rectangle selected by `members`.
fn overlaps_any(rects: &Vec<Rect2>, r: Rect2, members: &Vec<usize>) -> (b: bool)
    requires
        forall|k: int| 0 <= k < members.len() ==> (#[trigger] members[k]) < rects.len(),
    ensures
        b == exists|k: int|
            0 <= k < members.len() && rects_overlap(r, rects[#[trigger] members@[k] as int]),
{
    let mut k: usize = 0;
    let m = members.len();
    while k < m
        invariant
            0 <= k <= m == members.len(),
            forall|j: int| 0 <= j < m ==> (#[trigger] members[j]) < rects.len(),
            forall|j: int|
                0 <= j < k ==> !rects_overlap(r, rects[#[trigger] members@[j] as int]),
        decreases m - k,
    {
        let idx = members[k];
        let o = rects[idx];
        if r.x0 <= o.x1 && o.x0 <= r.x1 && r.y0 <= o.y1 && o.y0 <= r.y1 {
            return true;
        }
        k = k + 1;
    }
    false
}

proof fn lemma_closed_implies_wf(groups: Seq<Seq<usize>>, rects: Seq<Rect2>)
    requires
        closed_ok(groups, rects),
        forall|i: int| 0 <= i < rects.len() ==> listed(groups, i),
    ensures
        groups_wf(groups, rects),
{
    assert forall|g1: int, k1: int, g2: int, k2: int|
        0 <= g1 < groups.len() && 0 <= k1 < groups[g1].len() && 0 <= g2 < groups.len() && 0 <= k2
            < groups[g2].len() && (g1 != g2 || k1 != k2) implies #[trigger] groups[g1][k1]
        != #[trigger] groups[g2][k2] by {
        if g1 == g2 && k1 != k2 {
            assert(chain_ok(groups[g1], rects));
        }
    }
}

/// Splits the rectangles into their groups of transitive overlap.
pub fn group_rects(rects: &Vec<Rect2>) -> (groups: Vec<Vec<usize>>)
    ensures
        groups_wf(views(groups@), rects@),
{
    let n = rects.len();
    let mut assigned: Vec<bool> = Vec::new();
    let mut k: usize = 0;
    while k < n
        invariant
            assigned.len() == k <= n,
            forall|i: int| 0 <= i < k ==> !(#[trigger] assigned@[i]),
        decreases n - k,
    {
        assigned.push(false);
        k = k + 1;
    }
    let mut groups: Vec<Vec<usize>> = Vec::new();
    let mut seed: usize = 0;
    while seed < n
        invariant
            n == rects.len(),
            assigned.len() == n,
            0 <= seed <= n,
            forall|i: int| 0 <= i < seed ==> #[trigger] assigned@[i],
            forall|i: int| 0 <= i < n ==> (#[trigger] assigned@[i] <==> listed(views(groups@), i)),
            closed_ok(views(groups@), rects@),
            forall|i: int, g: int, k2: int|
                0 <= i < n && !(#[trigger] assigned@[i]) && 0 <= g < views(groups@).len() && 0
                    <= k2 < views(groups@)[g].len() ==> !rects_overlap(
                    rects@[i],
                    rects@[#[trigger] views(groups@)[g][k2] as int],
                ),
        decreases n - seed,
    {
        if !assigned[seed] {
            let mut current: Vec<usize> = Vec::new();
            current.push(seed);
            proof {
                lemma_cnt_bounds(assigned@);
                lemma_cnt_set_true(assigned@, seed as int);
                lemma_cnt_bounds(assigned@.update(seed as int, true));
            }
            assigned.set(seed, true);
            let ghost mut at: int = cnt_true(assigned@);
            let mut count: usize = 1;
            let mut progress = true;
            proof {
                assert(current@.len() == 1 && current@[0] == seed);
                assert(current@.contains(seed));
                assert(chain_ok(current@, rects@));
            }
            while progress
                invariant
                    n == rects.len(),
                    assigned.len() == n,
                    seed < n,
                    forall|j: int| 0 <= j < seed ==> #[trigger] assigned@[j],
                    1 <= current.len(),
                    current.len() == count,
                    at == cnt_true(assigned@),
                    count <= at <= n,
                    current@[0] == seed,
                    chain_ok(current@, rects@),
                    apart(current@, views(groups@), rects@),
                    closed_ok(views(groups@), rects@),
                    forall|k2: int|
                        0 <= k2 < current@.len() ==> !listed(
                            views(groups@),
                            (#[trigger] current@[k2]) as int,
                        ),
                    forall|i: int|
                        0 <= i < n ==> (#[trigger] assigned@[i] <==> (listed(views(groups@), i)
                            || current@.contains(i as usize))),
                    !progress ==> forall|i: int|
                        0 <= i < n && !(#[trigger] assigned@[i]) ==> !(exists|k2: int|
                            0 <= k2 < current@.len() && rects_overlap(
                                rects@[i],
                                rects@[(#[trigger] current@[k2]) as int],
                            )),
                    forall|i: int, g: int, k2: int|
                        0 <= i < n && !(#[trigger] assigned@[i]) && 0 <= g < views(groups@).len()
                            && 0 <= k2 < views(groups@)[g].len() ==> !rects_overlap(
                            rects@[i],
                            rects@[#[trigger] views(groups@)[g][k2] as int],
                        ),
                decreases n - count, (if progress { 1int } else { 0int }),
            {
                progress = false;
                let ghost count0 = count as int;
                let mut i: usize = 0;
                while i < n
                    invariant
                        n == rects.len(),
                        assigned.len() == n,
                        0 <= i <= n,
                        seed < n,
                        forall|j: int| 0 <= j < seed ==> #[trigger] assigned@[j],
                        1 <= current.len(),
                        current.len() == count,
                        at == cnt_true(assigned@),
                        count <= at <= n,
                        count0 <= count,
                        progress ==> count > count0,
                        current@[0] == seed,
                        chain_ok(current@, rects@),
                        apart(current@, views(groups@), rects@),
                        closed_ok(views(groups@), rects@),
                        forall|k2: int|
                            0 <= k2 < current@.len() ==> !listed(
                                views(groups@),
                                (#[trigger] current@[k2]) as int,
                            ),
                        forall|j: int|
                            0 <= j < n ==> (#[trigger] assigned@[j] <==> (listed(views(groups@), j)
                                || current@.contains(j as usize))),
                        !progress ==> forall|j: int|
                            0 <= j < i && !(#[trigger] assigned@[j]) ==> !(exists|k2: int|
                                0 <= k2 < current@.len() && rects_overlap(
                                    rects@[j],
                                    rects@[(#[trigger] current@[k2]) as int],
                                )),
                        forall|j: int, g: int, k2: int|
                            0 <= j < n && !(#[trigger] assigned@[j]) && 0 <= g < views(
                                groups@,
                            ).len() && 0 <= k2 < views(groups@)[g].len() ==> !rects_overlap(
                                rects@[j],
                                rects@[#[trigger] views(groups@)[g][k2] as int],
                            ),
                    decreases n - i,
                {
                    if !assigned[i] {
                        let r = rects[i];
                        if overlaps_any(rects, r, &current) {
                            let ghost cur0 = current@;
                            current.push(i);
                            proof {
                                lemma_cnt_set_true(assigned@, i as int);
                                lemma_cnt_bounds(assigned@.update(i as int, true));
                            }
                            assigned.set(i, true);
                            proof {
                                at = at + 1;
                            }
                            count = count + 1;
                            progress = true;
                            proof {
                                assert(current@ == cur0.push(i));
                                assert(current@[current@.len() - 1] == i);
                                assert(forall|k2: int|
                                    0 <= k2 < cur0.len() ==> current@[k2] == #[trigger] cur0[k2]);
                                let kw = choose|k2: int|
                                    0 <= k2 < cur0.len() && rects_overlap(
                                        r,
                                        rects@[#[trigger] cur0[k2] as int],
                                    );
                                assert(rects_overlap(
                                    rects@[current@[current@.len() - 1] as int],
                                    rects@[current@[kw] as int],
                                ));
                                assert(chain_ok(current@, rects@)) by {
                                    assert forall|k: int| 1 <= k < current@.len() implies exists|
                                        k2: int,
                                    |
                                        0 <= k2 < k && rects_overlap(
                                            rects@[(#[trigger] current@[k]) as int],
                                            rects@[#[trigger] current@[k2] as int],
                                        ) by {
                                        if k < current@.len() - 1 {
                                            let k3 = choose|k3: int|
                                                0 <= k3 < k && rects_overlap(
                                                    rects@[(#[trigger] cur0[k]) as int],
                                                    rects@[#[trigger] cur0[k3] as int],
                                                );
                                            assert(rects_overlap(
                                                rects@[current@[k] as int],
                                                rects@[current@[k3] as int],
                                            ));
                                        } else {
                                            assert(rects_overlap(
                                                rects@[current@[k] as int],
                                                rects@[current@[kw] as int],
                                            ));
                                        }
                                    }
                                    assert forall|k1: int, k2: int|
                                        0 <= k1 < k2 < current@.len() implies #[trigger] current@[k1]
                                        != #[trigger] current@[k2] by {
                                        if k2 == current@.len() - 1 {
                                            assert(cur0.contains(cur0[k1]));
                                            if current@[k1] == i as usize {
                                                assert(assigned@[i as int]);
                                            }
                                        }
                                    }
                                }
                                assert forall|j: int| 0 <= j < n implies (#[trigger] assigned@[j]
                                    <==> (listed(views(groups@), j) || current@.contains(
                                    j as usize,
                                ))) by {
                                    if j == i {
                                        assert(current@.contains(i as usize));
                                    } else {
                                        if cur0.contains(j as usize) {
                                            let kx = choose|kx: int|
                                                0 <= kx < cur0.len() && cur0[kx] == j as usize;
                                            assert(current@[kx] == j as usize);
                                            assert(current@.contains(j as usize));
                                        }
                                        if current@.contains(j as usize) {
                                            let kx = choose|kx: int|
                                                0 <= kx < current@.len() && current@[kx]
                                                    == j as usize;
                                            if kx < cur0.len() {
                                                assert(cur0[kx] == j as usize);
                                                assert(cur0.contains(j as usize));
                                            }
                                        }
                                    }
                                }
                            }
                        }
                    }
                    i = i + 1;
                }
            }
            let ghost groups0 = views(groups@);
            let ghost cur = current@;
            groups.push(current);
            proof {
                assert(views(groups@).len() == groups0.len() + 1);
                assert(views(groups@)[groups0.len() as int] == cur);
                assert(forall|g: int|
                    0 <= g < groups0.len() ==> views(groups@)[g] == #[trigger] groups0[g]);
                // the new group keeps every closed-group law
                assert(closed_ok(views(groups@), rects@)) by {
                    let gs = views(groups@);
                    assert forall|g: int|
                        0 <= g < gs.len() implies (#[trigger] gs[g]).len() >= 1 && chain_ok(
                        gs[g],
                        rects@,
                    ) by {
                        if g < groups0.len() {
                            assert(gs[g] == groups0[g]);
                        } else {
                            assert(gs[g] == cur);
                        }
                    }
                    assert forall|g1: int, k1: int, g2: int, k2: int|
                        0 <= g1 < gs.len() && 0 <= k1 < gs[g1].len() && 0 <= g2 < gs.len() && 0
                            <= k2 < gs[g2].len() && g1 != g2 implies #[trigger] gs[g1][k1]
                        != #[trigger] gs[g2][k2] && !rects_overlap(
                            rects@[gs[g1][k1] as int],
                            rects@[gs[g2][k2] as int],
                        ) by {
                        if g1 < groups0.len() && g2 < groups0.len() {
                            assert(gs[g1] == groups0[g1] && gs[g2] == groups0[g2]);
                        } else if g1 < groups0.len() {
                            assert(gs[g2] == cur && gs[g1] == groups0[g1]);
                            assert(!listed(groups0, cur[k2] as int));
                            if gs[g1][k1] == gs[g2][k2] {
                                assert(listed(groups0, cur[k2] as int));
                            }
                            assert(!rects_overlap(
                                rects@[cur[k2] as int],
                                rects@[groups0[g1][k1] as int],
                            ));
                        } else {
                            assert(gs[g1] == cur && gs[g2] == groups0[g2]);
                            assert(!listed(groups0, cur[k1] as int));
                            if gs[g1][k1] == gs[g2][k2] {
                                assert(listed(groups0, cur[k1] as int));
                            }
                            assert(!rects_overlap(
                                rects@[cur[k1] as int],
                                rects@[groups0[g2][k2] as int],
                            ));
                        }
                    }
                }
                assert forall|j: int| 0 <= j < n implies (#[trigger] assigned@[j] <==> listed(
                    views(groups@),
                    j,
                )) by {
                    let gs = views(groups@);
                    if assigned@[j] {
                        if listed(groups0, j) {
                            let (g, k2): (int, int) = choose|g: int, k2: int|
                                0 <= g < groups0.len() && 0 <= k2 < groups0[g].len()
                                    && groups0[g][k2] == j;
                            assert(gs[g][k2] == j);
                        } else {
                            assert(cur.contains(j as usize));
                            let k2 = choose|k2: int| 0 <= k2 < cur.len() && cur[k2] == j as usize;
                            assert(gs[groups0.len() as int][k2] == j);
                        }
                    } else {
                        if listed(gs, j) {
                            let (g, k2): (int, int) = choose|g: int, k2: int|
                                0 <= g < gs.len() && 0 <= k2 < gs[g].len() && gs[g][k2] == j;
                            if g < groups0.len() {
                                assert(groups0[g][k2] == j);
                                assert(listed(groups0, j));
                            } else {
                                assert(cur[k2] == j as usize);
                                assert(cur.contains(j as usize));
                            }
                            assert(false);
                        }
                    }
                }
                assert forall|j: int, g: int, k2: int|
                    0 <= j < n && !(#[trigger] assigned@[j]) && 0 <= g < views(groups@).len() && 0
                        <= k2 < views(groups@)[g].len() implies !rects_overlap(
                    rects@[j],
                    rects@[#[trigger] views(groups@)[g][k2] as int],
                ) by {
                    let gs = views(groups@);
                    if g < groups0.len() {
                        assert(gs[g] == groups0[g]);
                    } else {
                        assert(gs[g] == cur);
                        assert(!(exists|k3: int|
                            0 <= k3 < cur.len() && rects_overlap(
                                rects@[j],
                                rects@[(#[trigger] cur[k3]) as int],
                            )));
                    }
                }
            }
        }
        proof {
            if !assigned@[seed as int] {
                assert(listed(views(groups@), seed as int) || !assigned@[seed as int]);
                assert(false) by {
                    assert(assigned@[seed as int]);
                }
            }
        }
        seed = seed + 1;
    }
    proof {
        assert forall|i: int| 0 <= i < rects@.len() implies listed(views(groups@), i) by {
            assert(assigned@[i]);
        }
        lemma_closed_implies_wf(views(groups@), rects@);
    }
    groups
}


/// The views of a list of point lists.
pub open spec fn ring_views(hs: Seq<Vec<Vec2>>) -> Seq<Seq<Vec2>> {
    hs.map_values(|h: Vec<Vec2>| h@)
}

/// Whether a cell of the coordinate grid is inside some member rectangle.
fn cell_covered(rects: &Vec<Rect2>, group: &Vec<usize>, x0: i64, x1: i64, y0: i64, y1: i64) -> (b: bool)
    requires
        forall|k: int| 0 <= k < group.len() ==> (#[trigger] group[k]) < rects.len(),
{
    let mut k: usize = 0;
    let m = group.len();
    while k < m
        invariant
            0 <= k <= m == group.len(),
            forall|j: int| 0 <= j < m ==> (#[trigger] group[j]) < rects.len(),
        decreases m - k,
    {
        let r = rects[group[k]];
        if r.x0 <= x0 && x1 <= r.x1 && r.y0 <= y0 && y1 <= r.y1 {
            return true;
        }
        k = k + 1;
    }
    false
}

/// Inserts `v` into the sorted list if it is not there yet.
fn sorted_insert(xs: &mut Vec<i64>, v: i64)
    requires
        forall|i: int, j: int| 0 <= i < j < old(xs).len() ==> old(xs)[i] < old(xs)[j],
        -COORD_MAX <= v <= COORD_MAX,
        forall|i: int| 0 <= i < old(xs).len() ==> -COORD_MAX <= (#[trigger] old(xs)[i]) <= COORD_MAX,
    ensures
        forall|i: int, j: int| 0 <= i < j < final(xs).len() ==> final(xs)[i] < final(xs)[j],
        forall|i: int|
            0 <= i < final(xs).len() ==> -COORD_MAX <= (#[trigger] final(xs)[i]) <= COORD_MAX,
        final(xs).len() >= old(xs).len(),
        final(xs)@.contains(v),
        forall|i: int|
            0 <= i < final(xs).len() ==> (#[trigger] final(xs)[i]) == v || old(xs)@.contains(
                final(xs)[i],
            ),
{
    let n = xs.len();
    let mut pos: usize = 0;
    while pos < n && xs[pos] < v
        invariant
            0 <= pos <= n == xs.len(),
            xs@ == old(xs)@,
            forall|i: int| 0 <= i < pos ==> (#[trigger] xs[i]) < v,
        decreases n - pos,
    {
        pos = pos + 1;
    }
    if pos < n && xs[pos] == v {
        proof {
            assert(xs@[pos as int] == v);
        }
        return ;
    }
    let ghost pre = xs@;
    xs.insert(pos, v);
    proof {
        assert(xs@[pos as int] == v);
        assert forall|i: int, j: int| 0 <= i < j < xs@.len() implies xs@[i] < xs@[j] by {
            let iv = if i < pos as int { pre[i] } else if i == pos as int { v } else { pre[i - 1] };
            let jv = if j < pos as int { pre[j] } else if j == pos as int { v } else { pre[j - 1] };
            assert(xs@[i] == iv && xs@[j] == jv);
            if i < pos as int && j == pos as int {
                assert(pre[i] < v);
            }
            if i == pos as int && j > pos as int {
                assert(!(pre[j - 1] < v) && pre[j - 1] != v);
            }
            if i < pos as int && j > pos as int {
                assert(pre[i] < v && !(pre[j - 1] < v) && pre[j - 1] != v);
            }
        }
        assert forall|i: int| 0 <= i < xs@.len() implies -COORD_MAX <= (#[trigger] xs@[i])
            <= COORD_MAX by {
            if i != pos as int {
                let iv = if i < pos as int { pre[i] } else { pre[i - 1] };
                assert(xs@[i] == iv);
            }
        }
    }
}

/// The bounding-box ring of the group, counter-clockwise from its low corner.
fn group_bbox_ring(rects: &Vec<Rect2>, group: &Vec<usize>) -> (ring: Vec<Vec2>)
    requires
        group.len() >= 1,
        forall|k: int| 0 <= k < group.len() ==> (#[trigger] group[k]) < rects.len(),
        forall|i: int| 0 <= i < rects.len() ==> (#[trigger] rects[i]).wf(),
    ensures
        ring.len() == 4,
        crate::ring::ring_wf(ring@),
        ring_rectilinear(ring@),
        forall|i: int|
            0 <= i < ring@.len() ==> #[trigger] coord_of_group(ring@[i], rects@, group@),
{
    let first = rects[group[0]];
    let mut x0 = first.x0;
    let mut y0 = first.y0;
    let mut x1 = first.x1;
    let mut y1 = first.y1;
    let mut k: usize = 1;
    while k < group.len()
        invariant
            1 <= k <= group.len(),
            forall|j: int| 0 <= j < group.len() ==> (#[trigger] group[j]) < rects.len(),
            forall|i: int| 0 <= i < rects.len() ==> (#[trigger] rects[i]).wf(),
            -COORD_MAX <= x0 <= COORD_MAX,
            -COORD_MAX <= y0 <= COORD_MAX,
            -COORD_MAX <= x1 <= COORD_MAX,
            -COORD_MAX <= y1 <= COORD_MAX,
            exists|j: int|
                0 <= j < group.len() && ((#[trigger] rects[group[j] as int]).x0 == x0 || rects[
                    group[j] as int
                ].x1 == x0),
            exists|j: int|
                0 <= j < group.len() && ((#[trigger] rects[group[j] as int]).y0 == y0 || rects[
                    group[j] as int
                ].y1 == y0),
            exists|j: int|
                0 <= j < group.len() && ((#[trigger] rects[group[j] as int]).x0 == x1 || rects[
                    group[j] as int
                ].x1 == x1),
            exists|j: int|
                0 <= j < group.len() && ((#[trigger] rects[group[j] as int]).y0 == y1 || rects[
                    group[j] as int
                ].y1 == y1),
        decreases group.len() - k,
    {
        let r = rects[group[k]];
        proof {
            assert(rects[group@[k as int] as int].wf());
        }
        if r.x0 < x0 {
            x0 = r.x0;
        }
        if r.y0 < y0 {
            y0 = r.y0;
        }
        if r.x1 > x1 {
            x1 = r.x1;
        }
        if r.y1 > y1 {
            y1 = r.y1;
        }
        k = k + 1;
    }
    proof {
        assert(rects[group@[0] as int].wf());
    }
    let mut ring: Vec<Vec2> = Vec::new();
    ring.push(Vec2 { x: x0, y: y0 });
    ring.push(Vec2 { x: x0, y: y1 });
    ring.push(Vec2 { x: x1, y: y1 });
    ring.push(Vec2 { x: x1, y: y0 });
    proof {
        assert(forall|i: int| 0 <= i < ring@.len() ==> (#[trigger] ring@[i]).wf());
        assert(ring@[0].x == ring@[1].x && ring@[1].y == ring@[2].y && ring@[2].x == ring@[3].x
            && ring@[3].y == ring@[0].y);
        assert(forall|i: int|
            0 <= i < ring@.len() ==> #[trigger] coord_of_group(ring@[i], rects@, group@));
    }
    ring
}

/// Traces the exterior boundary of the union of the group's rectangles by
/// walking grid edges with the covered region kept on the right.  On any
/// irregularity of the trace the group's bounding box stands in for the
/// outline, so a ring of at least four well-formed points always comes
/// back; either way every ring edge is axis aligned and every corner's
/// coordinates come from the member rectangles' own edges.
pub fn union_outline(rects: &Vec<Rect2>, group: &Vec<usize>) -> (ring: Vec<Vec2>)
    requires
        group.len() >= 1,
        forall|k: int| 0 <= k < group.len() ==> (#[trigger] group[k]) < rects.len(),
        forall|i: int| 0 <= i < rects.len() ==> (#[trigger] rects[i]).wf(),
    ensures
        ring.len() >= 4,
        crate::ring::ring_wf(ring@),
        ring_rectilinear(ring@),
        forall|i: int|
            0 <= i < ring@.len() ==> #[trigger] coord_of_group(ring@[i], rects@, group@),
{
    let mut xs: Vec<i64> = Vec::new();
    let mut ys: Vec<i64> = Vec::new();
    let mut k: usize = 0;
    while k < group.len()
        invariant
            0 <= k <= group.len(),
            forall|j: int| 0 <= j < group.len() ==> (#[trigger] group[j]) < rects.len(),
            forall|i: int| 0 <= i < rects.len() ==> (#[trigger] rects[i]).wf(),
            forall|i: int, j: int| 0 <= i < j < xs@.len() ==> xs@[i] < xs@[j],
            forall|i: int| 0 <= i < xs@.len() ==> -COORD_MAX <= (#[trigger] xs@[i]) <= COORD_MAX,
            forall|i: int, j: int| 0 <= i < j < ys@.len() ==> ys@[i] < ys@[j],
            forall|i: int| 0 <= i < ys@.len() ==> -COORD_MAX <= (#[trigger] ys@[i]) <= COORD_MAX,
            forall|i: int|
                0 <= i < xs@.len() ==> exists|j: int|
                    0 <= j < group.len() && ((#[trigger] rects[group[j] as int]).x0
                        == #[trigger] xs@[i] || rects[group[j] as int].x1 == xs@[i]),
            forall|i: int|
                0 <= i < ys@.len() ==> exists|j: int|
                    0 <= j < group.len() && ((#[trigger] rects[group[j] as int]).y0
                        == #[trigger] ys@[i] || rects[group[j] as int].y1 == ys@[i]),
        decreases group.len() - k,
    {
        let r = rects[group[k]];
        proof {
            assert(rects[group@[k as int] as int].wf());
        }
        let ghost xs0 = xs@;
        sorted_insert(&mut xs, r.x0);
        proof {
            assert forall|i: int| 0 <= i < xs@.len() implies exists|j: int|
                0 <= j < group.len() && ((#[trigger] rects[group[j] as int]).x0
                    == #[trigger] xs@[i] || rects[group[j] as int].x1 == xs@[i]) by {
                if xs@[i] == r.x0 {
                    assert(rects[group[k as int] as int].x0 == xs@[i]);
                } else {
                    assert(xs0.contains(xs@[i]));
                    let w = choose|w: int| 0 <= w < xs0.len() && xs0[w] == xs@[i];
                    assert(xs0[w] == xs@[i]);
                }
            }
        }
        let ghost xs1 = xs@;
        sorted_insert(&mut xs, r.x1);
        proof {
            assert forall|i: int| 0 <= i < xs@.len() implies exists|j: int|
                0 <= j < group.len() && ((#[trigger] rects[group[j] as int]).x0
                    == #[trigger] xs@[i] || rects[group[j] as int].x1 == xs@[i]) by {
                if xs@[i] == r.x1 {
                    assert(rects[group[k as int] as int].x1 == xs@[i]);
                } else {
                    assert(xs1.contains(xs@[i]));
                    let w = choose|w: int| 0 <= w < xs1.len() && xs1[w] == xs@[i];
                    assert(xs1[w] == xs@[i]);
                }
            }
        }
        let ghost ys0 = ys@;
        sorted_insert(&mut ys, r.y0);
        proof {
            assert forall|i: int| 0 <= i < ys@.len() implies exists|j: int|
                0 <= j < group.len() && ((#[trigger] rects[group[j] as int]).y0
                    == #[trigger] ys@[i] || rects[group[j] as int].y1 == ys@[i]) by {
                if ys@[i] == r.y0 {
                    assert(rects[group[k as int] as int].y0 == ys@[i]);
                } else {
                    assert(ys0.contains(ys@[i]));
                    let w = choose|w: int| 0 <= w < ys0.len() && ys0[w] == ys@[i];
                    assert(ys0[w] == ys@[i]);
                }
            }
        }
        let ghost ys1 = ys@;
        sorted_insert(&mut ys, r.y1);
        proof {
            assert forall|i: int| 0 <= i < ys@.len() implies exists|j: int|
                0 <= j < group.len() && ((#[trigger] rects[group[j] as int]).y0
                    == #[trigger] ys@[i] || rects[group[j] as int].y1 == ys@[i]) by {
                if ys@[i] == r.y1 {
                    assert(rects[group[k as int] as int].y1 == ys@[i]);
                } else {
                    assert(ys1.contains(ys@[i]));
                    let w = choose|w: int| 0 <= w < ys1.len() && ys1[w] == ys@[i];
                    assert(ys1[w] == ys@[i]);
                }
            }
        }
        k = k + 1;
    }
    let nx = xs.len();
    let ny = ys.len();
    if nx < 2 || ny < 2 {
        return group_bbox_ring(rects, group);
    }
    // Find the start corner: the lowest covered cell of the leftmost covered
    // column; its left edge lies on the exterior boundary.
    let mut sci: usize = 0;
    let mut scj: usize = 0;
    let mut found = false;
    let mut ci: usize = 0;
    while ci < nx - 1
        invariant
            0 <= ci <= nx - 1,
            nx == xs.len(),
            ny == ys.len(),
            nx >= 2,
            ny >= 2,
            forall|j: int| 0 <= j < group.len() ==> (#[trigger] group[j]) < rects.len(),
            found ==> sci < nx - 1 && scj < ny - 1,
        decreases nx - 1 - ci,
    {
        let mut cj: usize = 0;
        while cj < ny - 1
            invariant
                0 <= cj <= ny - 1,
                ci < nx - 1,
                nx == xs.len(),
                ny == ys.len(),
                ny >= 2,
                forall|j: int| 0 <= j < group.len() ==> (#[trigger] group[j]) < rects.len(),
                found ==> sci < nx - 1 && scj < ny - 1,
            decreases ny - 1 - cj,
        {
            if !found {
                if cell_covered(rects, group, xs[ci], xs[ci + 1], ys[cj], ys[cj + 1]) {
                    sci = ci;
                    scj = cj;
                    found = true;
                }
            }
            cj = cj + 1;
        }
        if found {
            break ;
        }
        ci = ci + 1;
    }
    if !found {
        return group_bbox_ring(rects, group);
    }
    // Walk. Directions: 0 = up, 1 = right, 2 = down, 3 = left.
    let mut ring: Vec<Vec2> = Vec::new();
    let mut pci = sci;
    let mut pcj = scj;
    let mut dir: usize = 0;
    ring.push(Vec2 { x: xs[pci], y: ys[pcj] });
    let mut fuel: usize = 0;
    let cap: usize = 0x1_0008;
    let mut closed = false;
    while fuel < cap && !closed
        invariant
            nx == xs.len() >= 2,
            ny == ys.len() >= 2,
            pci < nx,
            pcj < ny,
            sci < nx - 1,
            scj < ny - 1,
            group.len() >= 1,
            forall|j: int| 0 <= j < group.len() ==> (#[trigger] group[j]) < rects.len(),
            forall|i: int| 0 <= i < rects.len() ==> (#[trigger] rects[i]).wf(),
            forall|i: int, j: int| 0 <= i < j < xs@.len() ==> xs@[i] < xs@[j],
            forall|i: int| 0 <= i < xs@.len() ==> -COORD_MAX <= (#[trigger] xs@[i]) <= COORD_MAX,
            forall|i: int| 0 <= i < ys@.len() ==> -COORD_MAX <= (#[trigger] ys@[i]) <= COORD_MAX,
            forall|i: int|
                0 <= i < xs@.len() ==> exists|j: int|
                    0 <= j < group.len() && ((#[trigger] rects[group[j] as int]).x0
                        == #[trigger] xs@[i] || rects[group[j] as int].x1 == xs@[i]),
            forall|i: int|
                0 <= i < ys@.len() ==> exists|j: int|
                    0 <= j < group.len() && ((#[trigger] rects[group[j] as int]).y0
                        == #[trigger] ys@[i] || rects[group[j] as int].y1 == ys@[i]),
            dir < 4,
            crate::ring::ring_wf(ring@),
            ring.len() >= 1,
            ring.len() <= fuel + 1,
            ring@[0] == (Vec2 { x: xs@[sci as int], y: ys@[scj as int] }),
            forall|i: int|
                0 <= i < ring@.len() ==> #[trigger] coord_of_group(ring@[i], rects@, group@),
            forall|i: int|
                0 <= i < ring@.len() - 1 ==> ((#[trigger] ring@[i]).x == ring@[i + 1].x
                    || ring@[i].y == ring@[i + 1].y),
            (dir == 0 || dir == 2) ==> ring@.last().x == xs@[pci as int],
            (dir == 1 || dir == 3) ==> ring@.last().y == ys@[pcj as int],
            closed ==> pci == sci && pcj == scj,
        decreases cap - fuel, (if closed { 0int } else { 1int }),
    {
        // Move one edge in the current direction, if it is a boundary edge;
        // otherwise pick the next direction by right-hand preference.
        let mut moved = false;
        let mut t: usize = 0;
        let mut nd: usize = dir;
        while t < 4 && !moved
            invariant
                t <= 4,
                nd < 4,
                dir < 4,
                pci < nx,
                pcj < ny,
                nx == xs.len() >= 2,
                ny == ys.len() >= 2,
                forall|j: int| 0 <= j < group.len() ==> (#[trigger] group[j]) < rects.len(),
                moved ==> (nd == 0 ==> pcj + 1 < ny) && (nd == 1 ==> pci + 1 < nx) && (nd == 2
                    ==> pcj >= 1) && (nd == 3 ==> pci >= 1),
            decreases 4 - t, (if moved { 0int } else { 1int }),
        {
            let cand: usize = (dir + 5 - t) % 4;
            // A candidate direction is taken when its edge keeps a covered
            // cell on the right and an uncovered one on the left.
            let ok: bool = if cand == 0 {
                pcj + 1 < ny && pci + 1 < nx && cell_covered(
                    rects,
                    group,
                    xs[pci],
                    xs[pci + 1],
                    ys[pcj],
                    ys[pcj + 1],
                ) && !(pci >= 1 && cell_covered(
                    rects,
                    group,
                    xs[pci - 1],
                    xs[pci],
                    ys[pcj],
                    ys[pcj + 1],
                ))
            } else if cand == 1 {
                pci + 1 < nx && pcj >= 1 && cell_covered(
                    rects,
                    group,
                    xs[pci],
                    xs[pci + 1],
                    ys[pcj - 1],
                    ys[pcj],
                ) && !(pcj + 1 < ny && cell_covered(
                    rects,
                    group,
                    xs[pci],
                    xs[pci + 1],
                    ys[pcj],
                    ys[pcj + 1],
                ))
            } else if cand == 2 {
                pcj >= 1 && pci >= 1 && cell_covered(
                    rects,
                    group,
                    xs[pci - 1],
                    xs[pci],
                    ys[pcj - 1],
                    ys[pcj],
                ) && !(pci + 1 < nx && cell_covered(
                    rects,
                    group,
                    xs[pci],
                    xs[pci + 1],
                    ys[pcj - 1],
                    ys[pcj],
                ))
            } else {
                pci >= 1 && pcj + 1 < ny && cell_covered(
                    rects,
                    group,
                    xs[pci - 1],
                    xs[pci],
                    ys[pcj],
                    ys[pcj + 1],
                ) && !(pcj >= 1 && cell_covered(
                    rects,
                    group,
                    xs[pci - 1],
                    xs[pci],
                    ys[pcj - 1],
                    ys[pcj],
                ))
            };
            if ok {
                nd = cand;
                moved = true;
            } else {
                t = t + 1;
            }
        }
        if !moved {
            return group_bbox_ring(rects, group);
        }
        if nd != dir {
            let ghost ring0 = ring@;
            ring.push(Vec2 { x: xs[pci], y: ys[pcj] });
            proof {
                assert(ring@.last() == (Vec2 { x: xs@[pci as int], y: ys@[pcj as int] }));
                assert(coord_of_group(ring@.last(), rects@, group@));
                assert(ring0.last() == ring@[ring@.len() - 2]);
                assert forall|i: int| 0 <= i < ring@.len() - 1 implies ((#[trigger] ring@[i]).x
                    == ring@[i + 1].x || ring@[i].y == ring@[i + 1].y) by {
                    if i < ring0.len() - 1 {
                        assert(ring@[i] == ring0[i] && ring@[i + 1] == ring0[i + 1]);
                    }
                }
            }
        }
        dir = nd;
        if dir == 0 {
            pcj = pcj + 1;
        } else if dir == 1 {
            pci = pci + 1;
        } else if dir == 2 {
            if pcj == 0 {
                return group_bbox_ring(rects, group);
            }
            pcj = pcj - 1;
        } else {
            if pci == 0 {
                return group_bbox_ring(rects, group);
            }
            pci = pci - 1;
        }
        if pci == sci && pcj == scj {
            closed = true;
        }
        fuel = fuel + 1;
    }
    if !closed || ring.len() < 4 {
        return group_bbox_ring(rects, group);
    }
    proof {
        assert forall|i: int| 0 <= i < ring@.len() implies ((#[trigger] ring@[i]).x == ring@[if i
            + 1 == ring@.len() {
            0int
        } else {
            i + 1
        }].x || ring@[i].y == ring@[if i + 1 == ring@.len() {
            0int
        } else {
            i + 1
        }].y) by {
            if i + 1 == ring@.len() {
                assert(ring@.last().x == ring@[0].x || ring@.last().y == ring@[0].y);
            }
        }
    }
    ring
}


/// Total vertices that splicing these holes adds: each hole contributes its
/// points plus one repeated hole point and one repeated anchor point.
pub open spec fn holes_len_total(hs: Seq<Seq<Vec2>>) -> int
    decreases hs.len(),
{
    if hs.len() == 0 {
        0
    } else {
        holes_len_total(hs.drop_last()) + hs.last().len() + 2
    }
}

/// Sum of the doubled signed areas of the hole rings.
pub open spec fn holes_area_total(hs: Seq<Seq<Vec2>>) -> int
    decreases hs.len(),
{
    if hs.len() == 0 {
        0
    } else {
        holes_area_total(hs.drop_last()) + crate::ring::area2(hs.last())
    }
}

spec fn sel_len(hs: Seq<Seq<Vec2>>, done: Seq<bool>) -> int
    recommends
        hs.len() == done.len(),
    decreases hs.len(),
{
    if hs.len() == 0 {
        0
    } else {
        sel_len(hs.drop_last(), done.drop_last()) + if done.len() >= 1 && done.last() {
            hs.last().len() + 2int
        } else {
            0int
        }
    }
}

spec fn sel_area(hs: Seq<Seq<Vec2>>, done: Seq<bool>) -> int
    recommends
        hs.len() == done.len(),
    decreases hs.len(),
{
    if hs.len() == 0 {
        0
    } else {
        sel_area(hs.drop_last(), done.drop_last()) + if done.len() >= 1 && done.last() {
            crate::ring::area2(hs.last())
        } else {
            0int
        }
    }
}

proof fn lemma_sel_update(hs: Seq<Seq<Vec2>>, done: Seq<bool>, i: int)
    requires
        hs.len() == done.len(),
        0 <= i < done.len(),
        !done[i],
    ensures
        sel_len(hs, done.update(i, true)) == sel_len(hs, done) + hs[i].len() + 2,
        sel_area(hs, done.update(i, true)) == sel_area(hs, done) + crate::ring::area2(hs[i]),
    decreases hs.len(),
{
    let d2 = done.update(i, true);
    if i == done.len() - 1 {
        assert(d2.drop_last() =~= done.drop_last());
        assert(d2.last());
        assert(hs.last() == hs[i]);
    } else {
        assert(d2.drop_last() =~= done.drop_last().update(i, true));
        assert(d2.last() == done.last());
        lemma_sel_update(hs.drop_last(), done.drop_last(), i);
        assert(hs.drop_last()[i] == hs[i]);
    }
}

proof fn lemma_sel_full(hs: Seq<Seq<Vec2>>, done: Seq<bool>)
    requires
        hs.len() == done.len(),
        forall|i: int| 0 <= i < done.len() ==> done[i],
    ensures
        sel_len(hs, done) == holes_len_total(hs),
        sel_area(hs, done) == holes_area_total(hs),
    decreases hs.len(),
{
    if hs.len() > 0 {
        lemma_sel_full(hs.drop_last(), done.drop_last());
        assert(done.last() == done[done.len() - 1]);
    }
}

proof fn lemma_sel_none(hs: Seq<Seq<Vec2>>, done: Seq<bool>)
    requires
        hs.len() == done.len(),
        forall|i: int| 0 <= i < done.len() ==> !done[i],
    ensures
        sel_len(hs, done) == 0,
        sel_area(hs, done) == 0,
    decreases hs.len(),
{
    if hs.len() > 0 {
        lemma_sel_none(hs.drop_last(), done.drop_last());
        assert(done.last() == done[done.len() - 1]);
    }
}

/// Cyclic rotation keeps a ring's doubled signed area.
pub proof fn lemma_area2_rotation(s: Seq<Vec2>, k: int)
    requires
        0 <= k < s.len(),
    ensures
        crate::ring::area2(s.subrange(k, s.len() as int) + s.subrange(0, k))
            == crate::ring::area2(s),
{
    let n = s.len() as int;
    if k == 0 {
        assert(s.subrange(0, n) + s.subrange(0, 0) =~= s);
    } else {
        let a = s.subrange(0, k);
        let b = s.subrange(k, n);
        assert(s =~= a + b);
        crate::ring::lemma_edge_sum_concat(a, b);
        crate::ring::lemma_edge_sum_concat(b, a);
        let r = b + a;
        assert(r[0] == s[k] && r[r.len() - 1] == s[k - 1]);
        assert(s[0] == a[0] && s[n - 1] == b[b.len() - 1]);
        if n == 1 {
        } else {
            assert(crate::ring::area2(s) == crate::ring::edge_sum(a) + crate::ring::cross2(
                a[a.len() - 1],
                b[0],
            ) + crate::ring::edge_sum(b) + crate::ring::cross2(s[n - 1], s[0]));
            assert(crate::ring::area2(r) == crate::ring::edge_sum(b) + crate::ring::cross2(
                b[b.len() - 1],
                a[0],
            ) + crate::ring::edge_sum(a) + crate::ring::cross2(s[k - 1], s[k]));
        }
    }
}

/// Splicing a hole ring into a ring at an anchor vertex adds exactly the
/// hole's doubled signed area: the two bridge edges cancel.
proof fn lemma_splice_area(c: Seq<Vec2>, iw: int, h: Seq<Vec2>, k: int)
    requires
        c.len() >= 3,
        h.len() >= 3,
        0 <= iw < c.len(),
        0 <= k < h.len(),
    ensures
        crate::ring::area2(
            c.subrange(0, iw + 1) + (h.subrange(k, h.len() as int) + h.subrange(0, k)) + seq![
                h[k],
                c[iw],
            ] + c.subrange(iw + 1, c.len() as int),
        ) == crate::ring::area2(c) + crate::ring::area2(h),
{
    let n = c.len() as int;
    let r = h.subrange(k, h.len() as int) + h.subrange(0, k);
    let tail = seq![h[k], c[iw]];
    let l = c.subrange(0, iw + 1);
    let t = c.subrange(iw + 1, n);
    let mid = r + tail;
    let newr = l + r + tail + t;
    lemma_area2_rotation(h, k);
    assert(r.len() == h.len());
    assert(r[0] == h[k]);
    assert(r[r.len() - 1] == (if k == 0 {
        h[h.len() - 1]
    } else {
        h[k - 1]
    }));
    // edge_sum of the inserted middle: hole cycle plus the two bridges
    crate::ring::lemma_edge_sum_concat(r, tail);
    assert(tail.len() == 2 && tail[0] == h[k] && tail[1] == c[iw]);
    assert(tail.drop_first().len() == 1);
    assert(crate::ring::edge_sum(tail.drop_first()) == 0);
    assert(crate::ring::edge_sum(tail) == crate::ring::cross2(h[k], c[iw]));
    assert(crate::ring::edge_sum(mid) == crate::ring::edge_sum(r) + crate::ring::cross2(
        r[r.len() - 1],
        h[k],
    ) + crate::ring::cross2(h[k], c[iw]));
    assert(crate::ring::area2(r) == crate::ring::edge_sum(r) + crate::ring::cross2(
        r[r.len() - 1],
        r[0],
    ));
    crate::ring::lemma_edge_sum_concat(l, mid);
    assert(l[l.len() - 1] == c[iw]);
    assert(mid[0] == h[k]);
    if iw == n - 1 {
        assert(newr =~= l + mid);
        assert(t.len() == 0);
        assert(l =~= c);
        assert(newr[newr.len() - 1] == c[iw]);
        assert(newr[0] == c[0]);
        assert(crate::ring::area2(newr) == crate::ring::edge_sum(l) + crate::ring::cross2(
            c[iw],
            h[k],
        ) + crate::ring::edge_sum(mid) + crate::ring::cross2(c[iw], c[0]));
        assert(crate::ring::area2(c) == crate::ring::edge_sum(c) + crate::ring::cross2(
            c[n - 1],
            c[0],
        ));
    } else {
        assert(newr =~= l + mid + t);
        assert((l + mid) + t =~= newr);
        crate::ring::lemma_edge_sum_concat(l + mid, t);
        assert((l + mid)[(l + mid).len() - 1] == c[iw]);
        assert(t[0] == c[iw + 1]);
        assert(c =~= l + t);
        crate::ring::lemma_edge_sum_concat(l, t);
        assert(newr[newr.len() - 1] == t[t.len() - 1]);
        assert(t[t.len() - 1] == c[n - 1]);
        assert(newr[0] == c[0]);
        assert(crate::ring::edge_sum(l + mid) == crate::ring::edge_sum(l) + crate::ring::cross2(
            c[iw],
            h[k],
        ) + crate::ring::edge_sum(mid));
        assert(crate::ring::edge_sum(newr) == crate::ring::edge_sum(l + mid) + crate::ring::cross2(
            c[iw],
            c[iw + 1],
        ) + crate::ring::edge_sum(t));
        assert(crate::ring::edge_sum(c) == crate::ring::edge_sum(l) + crate::ring::cross2(
            c[iw],
            c[iw + 1],
        ) + crate::ring::edge_sum(t));
        assert(crate::ring::area2(newr) == crate::ring::edge_sum(newr) + crate::ring::cross2(
            c[n - 1],
            c[0],
        ));
        assert(crate::ring::area2(c) == crate::ring::edge_sum(c) + crate::ring::cross2(
            c[n - 1],
            c[0],
        ));
    }
}


proof fn lemma_cnt_saturated(s: Seq<bool>)
    requires
        cnt_true(s) == s.len(),
    ensures
        forall|i: int| 0 <= i < s.len() ==> s[i],
    decreases s.len(),
{
    if s.len() > 0 {
        lemma_cnt_bounds(s.drop_last());
        if !s.last() {
            assert(cnt_true(s) <= s.len() - 1);
        }
        lemma_cnt_saturated(s.drop_last());
        assert forall|i: int| 0 <= i < s.len() implies s[i] by {
            if i < s.len() - 1 {
                assert(s.drop_last()[i] == s[i]);
            }
        }
    }
}

proof fn lemma_cnt_none(s: Seq<bool>)
    requires
        forall|i: int| 0 <= i < s.len() ==> !s[i],
    ensures
        cnt_true(s) == 0,
    decreases s.len(),
{
    if s.len() > 0 {
        assert forall|i: int| 0 <= i < s.drop_last().len() implies !s.drop_last()[i] by {
            assert(s.drop_last()[i] == s[i]);
        }
        lemma_cnt_none(s.drop_last());
        assert(s.last() == s[s.len() - 1]);
    }
}

proof fn lemma_cnt_all(s: Seq<bool>)
    requires
        forall|i: int| 0 <= i < s.len() ==> s[i],
    ensures
        cnt_true(s) == s.len(),
    decreases s.len(),
{
    if s.len() > 0 {
        assert forall|i: int| 0 <= i < s.drop_last().len() implies s.drop_last()[i] by {
            assert(s.drop_last()[i] == s[i]);
        }
        lemma_cnt_all(s.drop_last());
        assert(s.last() == s[s.len() - 1]);
    }
}

/// The index of a point with the greatest x coordinate.
fn hole_max_x(h: &Vec<Vec2>) -> (idx: usize)
    requires
        h.len() >= 1,
    ensures
        idx < h.len(),
{
    let mut idx: usize = 0;
    let mut j: usize = 1;
    while j < h.len()
        invariant
            1 <= j <= h.len(),
            idx < j,
        decreases h.len() - j,
    {
        if h[j].x > h[idx].x || (h[j].x == h[idx].x && h[j].y > h[idx].y) {
            idx = j;
        }
        j = j + 1;
    }
    idx
}

/// Triangulates `outer` with the given rings as holes, by splicing each hole
/// into the ring at a bridge vertex (rightmost holes first) and ear-clipping
/// the spliced ring.
///
/// The spliced point list always has the length of the outer ring plus, per
/// hole, its length plus two; the triangles cover exactly the outer ring's
/// doubled signed area plus the holes' (negative, for rings wound against
/// the outer): the bridge edges cancel.
pub fn triangulate_with_holes(outer: &Vec<Vec2>, holes: &Vec<Vec<Vec2>>) -> (r: (
    Vec<Vec2>,
    Vec<crate::tri::Tri>,
))
    requires
        outer.len() >= 3,
        crate::ring::ring_wf(outer@),
        forall|i: int|
            0 <= i < holes.len() ==> (#[trigger] holes@[i])@.len() >= 3 && crate::ring::ring_wf(
                holes@[i]@,
            ),
    ensures
        r.0.len() == outer.len() + holes_len_total(ring_views(holes@)),
        r.1.len() == r.0.len() - 2,
        crate::tri::tris_wf(r.1@, r.0.len() as int),
        crate::ring::ring_wf(r.0@),
        crate::tri::tris_area2(r.0@, r.1@) == crate::ring::area2(outer@) + holes_area_total(
            ring_views(holes@),
        ),
        holes.len() == 0 ==> r.0@ == outer@,
{
    let ghost hv = ring_views(holes@);
    let m = holes.len();
    let mut combined: Vec<Vec2> = Vec::new();
    let mut j: usize = 0;
    while j < outer.len()
        invariant
            0 <= j <= outer.len(),
            combined@ == outer@.subrange(0, j as int),
        decreases outer.len() - j,
    {
        let ghost pre = combined@;
        combined.push(outer[j]);
        proof {
            assert(combined@ =~= outer@.subrange(0, j as int + 1));
        }
        j = j + 1;
    }
    proof {
        assert(combined@ =~= outer@);
    }
    let mut done: Vec<bool> = Vec::new();
    let mut j2: usize = 0;
    while j2 < m
        invariant
            done.len() == j2 <= m,
            forall|i: int| 0 <= i < j2 ==> !(#[trigger] done@[i]),
        decreases m - j2,
    {
        done.push(false);
        j2 = j2 + 1;
    }
    proof {
        lemma_sel_none(hv, done@);
        lemma_cnt_none(done@);
        assert(hv.len() == m);
    }
    let mut processed: usize = 0;
    while processed < m
        invariant
            m == holes.len(),
            hv == ring_views(holes@),
            hv.len() == m,
            done.len() == m,
            0 <= processed <= m,
            processed == cnt_true(done@),
            forall|i: int|
                0 <= i < holes.len() ==> (#[trigger] holes@[i])@.len() >= 3
                    && crate::ring::ring_wf(holes@[i]@),
            combined.len() >= 3,
            crate::ring::ring_wf(combined@),
            combined.len() == outer.len() + sel_len(hv, done@),
            crate::ring::area2(combined@) == crate::ring::area2(outer@) + sel_area(hv, done@),
            m == 0 ==> combined@ == outer@,
        decreases m - processed,
    {
        // Pick the unprocessed hole whose rightmost point is furthest right.
        let mut best: usize = 0;
        let mut have = false;
        let mut bx: i64 = 0;
        let mut i: usize = 0;
        while i < m
            invariant
                0 <= i <= m == holes.len(),
                done.len() == m,
                have ==> best < m && !done@[best as int],
                !have ==> forall|ii: int| 0 <= ii < i ==> #[trigger] done@[ii],
                forall|ii: int|
                    0 <= ii < holes.len() ==> (#[trigger] holes@[ii])@.len() >= 3,
            decreases m - i,
        {
            if !done[i] {
                let ki = hole_max_x(&holes[i]);
                let x = holes[i][ki].x;
                if !have || x > bx {
                    best = i;
                    bx = x;
                    have = true;
                }
            }
            i = i + 1;
        }
        proof {
            if !have {
                lemma_cnt_all(done@);
                assert(false);
            }
        }
        let h = &holes[best];
        let hm = h.len();
        let k = hole_max_x(h);
        let hx = h[k].x;
        let hy = h[k].y;
        // Bridge: the nearest vertical edge of the spliced ring at or right
        // of the hole's rightmost point, spanning its height.
        let n = combined.len();
        let mut iw: usize = n - 1;
        let mut found_edge = false;
        let mut ex: i64 = 0;
        let mut e: usize = 0;
        proof {
            assert(h@[k as int].wf());
        }
        while e < n
            invariant
                0 <= e <= n == combined.len(),
                n >= 3,
                iw < n,
                crate::ring::ring_wf(combined@),
                -COORD_MAX <= hy <= COORD_MAX,
            decreases n - e,
        {
            let a = combined[e];
            proof {
                assert(combined@[e as int].wf());
                assert(combined@[if e + 1 == n { 0int } else { e as int + 1 }].wf());
            }
            let b = combined[if e + 1 == n {
                0
            } else {
                e + 1
            }];
            if a.x == b.x && a.x >= hx {
                let lo = if a.y < b.y {
                    a.y
                } else {
                    b.y
                };
                let hi = if a.y < b.y {
                    b.y
                } else {
                    a.y
                };
                if lo <= hy && hy <= hi {
                    if !found_edge || a.x < ex {
                        ex = a.x;
                        found_edge = true;
                        let da = if a.y >= hy {
                            a.y - hy
                        } else {
                            hy - a.y
                        };
                        let db = if b.y >= hy {
                            b.y - hy
                        } else {
                            hy - b.y
                        };
                        iw = if da <= db {
                            e
                        } else {
                            if e + 1 == n {
                                0
                            } else {
                                e + 1
                            }
                        };
                    }
                }
            }
            e = e + 1;
        }
        // Splice the hole cycle in after the bridge vertex.
        let ghost c0 = combined@;
        let mut nc: Vec<Vec2> = Vec::new();
        let mut p: usize = 0;
        while p <= iw
            invariant
                0 <= p <= iw + 1,
                iw < combined.len(),
                combined@ == c0,
                nc@ == c0.subrange(0, p as int),
            decreases iw + 1 - p,
        {
            nc.push(combined[p]);
            proof {
                assert(nc@ =~= c0.subrange(0, p as int + 1));
            }
            p = p + 1;
        }
        let mut q: usize = k;
        while q < hm
            invariant
                k <= q <= hm == h.len(),
                k < hm,
                iw < combined.len(),
                combined@ == c0,
                nc@ == c0.subrange(0, iw + 1) + h@.subrange(k as int, q as int),
            decreases hm - q,
        {
            nc.push(h[q]);
            proof {
                assert(nc@ =~= c0.subrange(0, iw + 1) + h@.subrange(k as int, q as int + 1));
            }
            q = q + 1;
        }
        let mut q2: usize = 0;
        while q2 < k
            invariant
                0 <= q2 <= k < hm == h.len(),
                iw < combined.len(),
                combined@ == c0,
                nc@ == c0.subrange(0, iw + 1) + h@.subrange(k as int, hm as int) + h@.subrange(
                    0,
                    q2 as int,
                ),
            decreases k - q2,
        {
            nc.push(h[q2]);
            proof {
                assert(nc@ =~= c0.subrange(0, iw + 1) + h@.subrange(k as int, hm as int)
                    + h@.subrange(0, q2 as int + 1));
            }
            q2 = q2 + 1;
        }
        nc.push(h[k]);
        nc.push(combined[iw]);
        let mut p2: usize = iw + 1;
        while p2 < n
            invariant
                iw + 1 <= p2 <= n == combined.len(),
                combined@ == c0,
                nc@ == c0.subrange(0, iw + 1) + h@.subrange(k as int, hm as int) + h@.subrange(
                    0,
                    k as int,
                ) + seq![h@[k as int], c0[iw as int]] + c0.subrange(iw + 1, p2 as int),
            decreases n - p2,
        {
            nc.push(combined[p2]);
            proof {
                assert(nc@ =~= c0.subrange(0, iw + 1) + h@.subrange(k as int, hm as int)
                    + h@.subrange(0, k as int) + seq![h@[k as int], c0[iw as int]] + c0.subrange(
                    iw + 1,
                    p2 as int + 1,
                ));
            }
            p2 = p2 + 1;
        }
        proof {
            assert(nc@ =~= c0.subrange(0, iw + 1) + (h@.subrange(k as int, hm as int)
                + h@.subrange(0, k as int)) + seq![h@[k as int], c0[iw as int]] + c0.subrange(
                iw + 1,
                c0.len() as int,
            ));
            lemma_splice_area(c0, iw as int, h@, k as int);
            assert(hv[best as int] == h@);
            lemma_sel_update(hv, done@, best as int);
            assert(crate::ring::ring_wf(nc@)) by {
                assert forall|ii: int| 0 <= ii < nc@.len() implies (#[trigger] nc@[ii]).wf() by {
                    let l1 = iw + 1;
                    let l2 = l1 + (hm - k);
                    let l3 = l2 + k;
                    let l4 = l3 + 2;
                    if ii < l1 {
                        assert(nc@[ii] == c0[ii]);
                    } else if ii < l2 {
                        assert(nc@[ii] == h@[k + (ii - l1)]);
                    } else if ii < l3 {
                        assert(nc@[ii] == h@[ii - l2]);
                    } else if ii < l4 {
                        assert(nc@[ii] == h@[k as int] || nc@[ii] == c0[iw as int]);
                    } else {
                        assert(nc@[ii] == c0[iw + 1 + (ii - l4)]);
                    }
                }
            }
        }
        combined = nc;
        let ghost d0 = done@;
        done.set(best, true);
        proof {
            lemma_cnt_set_true(d0, best as int);
        }
        processed = processed + 1;
    }
    proof {
        lemma_cnt_saturated(done@);
        lemma_sel_full(hv, done@);
    }
    let tris = crate::tri::triangulate(&combined);
    (combined, tris)
}


/// Computes the hole boundaries for a set of door cut-out rectangles:
/// exactly one boundary ring per group of mutually-overlapping rectangles.
/// The grouping itself comes back beside the rings, with its full contract,
/// so the one-ring-per-group law is part of this signature.
pub fn hole_rings(rects: &Vec<Rect2>) -> (r: (Vec<Vec<Vec2>>, Vec<Vec<usize>>))
    requires
        forall|i: int| 0 <= i < rects.len() ==> (#[trigger] rects[i]).wf(),
    ensures
        groups_wf(views(r.1@), rects@),
        r.0.len() == r.1.len(),
        forall|g: int|
            0 <= g < r.0.len() ==> (#[trigger] r.0@[g])@.len() >= 4 && crate::ring::ring_wf(
                r.0@[g]@,
            ) && ring_rectilinear(r.0@[g]@) && (forall|i: int|
                0 <= i < r.0@[g]@.len() ==> #[trigger] coord_of_group(
                    r.0@[g]@[i],
                    rects@,
                    r.1@[g]@,
                )),
{
    let groups = group_rects(rects);
    let mut rings: Vec<Vec<Vec2>> = Vec::new();
    let mut g: usize = 0;
    while g < groups.len()
        invariant
            0 <= g <= groups.len(),
            rings.len() == g,
            groups_wf(views(groups@), rects@),
            forall|i: int| 0 <= i < rects.len() ==> (#[trigger] rects[i]).wf(),
            forall|gg: int|
                0 <= gg < g ==> (#[trigger] rings@[gg])@.len() >= 4 && crate::ring::ring_wf(
                    rings@[gg]@,
                ) && ring_rectilinear(rings@[gg]@) && (forall|i: int|
                    0 <= i < rings@[gg]@.len() ==> #[trigger] coord_of_group(
                        rings@[gg]@[i],
                        rects@,
                        groups@[gg]@,
                    )),
        decreases groups.len() - g,
    {
        proof {
            assert(views(groups@)[g as int].len() >= 1) by {
                assert(closed_ok(views(groups@), rects@));
            }
            assert(chain_ok(views(groups@)[g as int], rects@)) by {
                assert(closed_ok(views(groups@), rects@));
            }
            assert(forall|k: int|
                0 <= k < groups@[g as int]@.len() ==> (#[trigger] groups@[g as int]@[k])
                    < rects.len());
        }
        let ring = union_outline(rects, &groups[g]);
        rings.push(ring);
        g = g + 1;
    }
    (rings, groups)
}


/// Splice totals are never negative.
pub proof fn lemma_holes_len_total_nonneg(hs: Seq<Seq<Vec2>>)
    ensures
        holes_len_total(hs) >= 0,
    decreases hs.len(),
{
    if hs.len() > 0 {
        lemma_holes_len_total_nonneg(hs.drop_last());
    }
}

} // verus!
