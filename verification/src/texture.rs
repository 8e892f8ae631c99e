//! Texture bindings and UV projection of surface-local points.
//!
//! A `MeshTex` carries a texture id, an aspect ratio, a 2D offset, per-axis
//! flip flags and a tiling style.  `get_tex_coords` maps surface points to
//! fixed-point UV coordinates under two policies: a fixed tile count across
//! the surface's bounding box, or a fixed world-space scale (anchored to the
//! world origin or to the surface's own bounding-box corner).  A degenerate
//! bounding box or a non-positive divisor yields all-zero UVs instead of a
//! division failure.

use vstd::prelude::*;

use crate::geom::{divt, mul_fx_spec, Vec2, COORD_MAX, FP_ONE};
use crate::ring::ring_wf;

verus! {

/// A texture id with the texture's width/height ratio in fixed point.
#[derive(Clone, Copy, PartialEq, Eq, Structural, Debug)]
pub struct TexInfo {
    pub id: u32,
    pub ratio: i64,
}

impl TexInfo {
    pub open spec fn wf(self) -> bool {
        0 <= self.ratio <= COORD_MAX
    }

    pub fn new(id: u32, ratio: i64) -> (r: TexInfo)
        ensures
            r.id == id,
            r.ratio == ratio,
    {
        TexInfo { id, ratio }
    }
}

/// A fixed tile count per axis, in fixed point.
#[derive(Clone, Copy, PartialEq, Eq, Structural, Debug)]
pub struct TileSpecific(pub i64, pub i64);

/// A world-space scale and whether it anchors to the world origin.
#[derive(Clone, Copy, PartialEq, Eq, Structural, Debug)]
pub struct TileScale(pub i64, pub bool);

/// The tiling policy a caller asked for.
pub enum TileResultThing {
    TileSpecific(TileSpecific),
    TileScale(TileScale),
}

/// Both tiling parameter sets, with a flag saying which one is active.
#[derive(Clone, Copy, PartialEq, Eq, Structural, Debug)]
pub struct TileStyle {
    pub specific: TileSpecific,
    pub scale: TileScale,
    pub is_specific: bool,
}

impl TileStyle {
    pub open spec fn wf(self) -> bool {
        &&& -COORD_MAX <= self.specific.0 <= COORD_MAX
        &&& -COORD_MAX <= self.specific.1 <= COORD_MAX
        &&& -COORD_MAX <= self.scale.0 <= COORD_MAX
    }

    /// Wraps one policy, filling the inactive one with its usual default
    /// (ten tiles, or a scale of a tenth anchored globally).
    pub fn new(choice: TileResultThing) -> (r: TileStyle)
        ensures
            match choice {
                TileResultThing::TileSpecific(a) => r.specific == a && r.is_specific && r.scale
                    == TileScale((FP_ONE / 10) as i64, true),
                TileResultThing::TileScale(a) => r.scale == a && !r.is_specific && r.specific
                    == TileSpecific((10 * FP_ONE) as i64, (10 * FP_ONE) as i64),
            },
    {
        match choice {
            TileResultThing::TileSpecific(a) => TileStyle {
                specific: a,
                scale: TileScale(FP_ONE / 10, true),
                is_specific: true,
            },
            TileResultThing::TileScale(a) => TileStyle {
                specific: TileSpecific(10 * FP_ONE, 10 * FP_ONE),
                scale: a,
                is_specific: false,
            },
        }
    }

    pub fn tile_scale(a: i64, b: bool) -> (r: TileStyle)
        ensures
            r.scale == TileScale(a, b),
            r.specific == TileSpecific((10 * FP_ONE) as i64, (10 * FP_ONE) as i64),
            !r.is_specific,
    {
        TileStyle { specific: TileSpecific(10 * FP_ONE, 10 * FP_ONE), scale: TileScale(a, b), is_specific: false }
    }

    pub fn tile_specific(a: i64, b: i64) -> (r: TileStyle)
        ensures
            r.specific == TileSpecific(a, b),
            r.scale == TileScale((FP_ONE / 10) as i64, true),
            r.is_specific,
    {
        TileStyle { specific: TileSpecific(a, b), scale: TileScale(FP_ONE / 10, true), is_specific: true }
    }

    pub fn get_result(&self) -> (r: TileResultThing)
        ensures
            match r {
                TileResultThing::TileSpecific(a) => self.is_specific && a == self.specific,
                TileResultThing::TileScale(a) => !self.is_specific && a == self.scale,
            },
    {
        if self.is_specific {
            TileResultThing::TileSpecific(TileSpecific(self.specific.0, self.specific.1))
        } else {
            TileResultThing::TileScale(TileScale(self.scale.0, self.scale.1))
        }
    }
}

/// A texture binding with tiling, offset and flip parameters.
#[derive(Clone, Copy, PartialEq, Eq, Structural, Debug)]
pub struct MeshTex {
    pub id: TexInfo,
    pub offset: Vec2,
    pub tile: TileStyle,
    pub fliped_x: bool,
    pub fliped_y: bool,
}

/// Smallest x coordinate among the points.
pub open spec fn min_x(s: Seq<Vec2>) -> int
    recommends
        s.len() >= 1,
    decreases s.len(),
{
    if s.len() <= 1 {
        s[0].x as int
    } else if s.last().x < min_x(s.drop_last()) {
        s.last().x as int
    } else {
        min_x(s.drop_last())
    }
}

pub open spec fn min_y(s: Seq<Vec2>) -> int
    recommends
        s.len() >= 1,
    decreases s.len(),
{
    if s.len() <= 1 {
        s[0].y as int
    } else if s.last().y < min_y(s.drop_last()) {
        s.last().y as int
    } else {
        min_y(s.drop_last())
    }
}

pub open spec fn max_x(s: Seq<Vec2>) -> int
    recommends
        s.len() >= 1,
    decreases s.len(),
{
    if s.len() <= 1 {
        s[0].x as int
    } else if s.last().x > max_x(s.drop_last()) {
        s.last().x as int
    } else {
        max_x(s.drop_last())
    }
}

pub open spec fn max_y(s: Seq<Vec2>) -> int
    recommends
        s.len() >= 1,
    decreases s.len(),
{
    if s.len() <= 1 {
        s[0].y as int
    } else if s.last().y > max_y(s.drop_last()) {
        s.last().y as int
    } else {
        max_y(s.drop_last())
    }
}

proof fn lemma_minmax_in_range(s: Seq<Vec2>)
    requires
        s.len() >= 1,
        ring_wf(s),
    ensures
        -COORD_MAX <= min_x(s) <= COORD_MAX,
        -COORD_MAX <= min_y(s) <= COORD_MAX,
        -COORD_MAX <= max_x(s) <= COORD_MAX,
        -COORD_MAX <= max_y(s) <= COORD_MAX,
    decreases s.len(),
{
    assert(s[0].wf());
    if s.len() > 1 {
        assert(s[s.len() - 1].wf());
        assert(ring_wf(s.drop_last())) by {
            assert(forall|i: int| 0 <= i < s.len() - 1 ==> s.drop_last()[i] == #[trigger] s[i]);
        }
        lemma_minmax_in_range(s.drop_last());
    }
}

impl MeshTex {
    /// The whole UV list the projection returns for `pts`: all zero on
    /// degenerate input, otherwise the per-point formulas over the bounding
    /// box.
    pub open spec fn uv_list(self, pts: Seq<Vec2>) -> Seq<Vec2> {
        if self.degenerate(pts) {
            Seq::new(pts.len(), |i: int| Vec2 { x: 0, y: 0 })
        } else {
            Seq::new(
                pts.len(),
                |i: int|
                    Vec2 {
                        x: self.uv_x(min_x(pts), max_x(pts) - min_x(pts), pts[i].x as int) as i64,
                        y: self.uv_y(min_y(pts), max_y(pts) - min_y(pts), pts[i].y as int) as i64,
                    },
            )
        }
    }

    pub open spec fn wf(self) -> bool {
        &&& self.id.wf()
        &&& self.offset.wf()
        &&& self.tile.wf()
    }

    /// A binding of `id` with the given style, no offset and no flips.
    pub fn new(id: TexInfo, tile: TileStyle) -> (r: MeshTex)
        ensures
            r.id == id,
            r.tile == tile,
            r.offset == (Vec2 { x: 0, y: 0 }),
            !r.fliped_x,
            !r.fliped_y,
    {
        MeshTex { id, offset: Vec2 { x: 0, y: 0 }, tile, fliped_x: false, fliped_y: false }
    }

    /// The divisor of the x axis in world-scale mode: scale times ratio.
    pub open spec fn scale_den_x(self) -> int {
        mul_fx_spec(self.tile.scale.0 as int, self.id.ratio as int)
    }

    /// True when projection has no usable divisor and all UVs are zero.
    pub open spec fn degenerate(self, pts: Seq<Vec2>) -> bool {
        if self.tile.is_specific {
            ||| max_x(pts) == min_x(pts)
            ||| max_y(pts) == min_y(pts)
            ||| self.tile.specific.0 <= 0
            ||| self.tile.specific.1 <= 0
        } else {
            self.scale_den_x() <= 0 || self.tile.scale.0 <= 0
        }
    }

    /// The exact u coordinate of a point with x coordinate `px`, given the
    /// bounding box's smallest x `mnx` and width `w`.
    pub open spec fn uv_x(self, mnx: int, w: int, px: int) -> int {
        if self.tile.is_specific {
            let d = px - mnx + self.offset.x;
            if self.fliped_x {
                divt(d * self.tile.specific.0, w)
            } else {
                FP_ONE - divt(d * self.tile.specific.0, w)
            }
        } else {
            let v = if self.fliped_x {
                px
            } else {
                -px
            };
            let anchor = if self.tile.scale.1 {
                0
            } else {
                mnx
            };
            divt((v + self.offset.x + anchor) * FP_ONE, self.scale_den_x())
        }
    }

    /// The exact v coordinate, symmetric to `uv_x` with the plain scale as
    /// the world-scale divisor.
    pub open spec fn uv_y(self, mny: int, h: int, py: int) -> int {
        if self.tile.is_specific {
            let d = py - mny + self.offset.y;
            if self.fliped_y {
                divt(d * self.tile.specific.1, h)
            } else {
                FP_ONE - divt(d * self.tile.specific.1, h)
            }
        } else {
            let v = if self.fliped_y {
                py
            } else {
                -py
            };
            let anchor = if self.tile.scale.1 {
                0
            } else {
                mny
            };
            divt((v + self.offset.y + anchor) * FP_ONE, self.tile.scale.0 as int)
        }
    }

    /// Projects every surface point to its UV coordinate.
    ///
    /// On degenerate input (flat bounding box in fixed-tile mode, or a
    /// non-positive divisor in world-scale mode) every UV is zero.
    pub fn get_tex_coords(&self, points: &Vec<Vec2>) -> (r: Vec<Vec2>)
        requires
            self.wf(),
            ring_wf(points@),
        ensures
            r.len() == points.len(),
            r@ == self.uv_list(points@),
            self.degenerate(points@) && points.len() > 0 ==> forall|i: int|
                0 <= i < r.len() ==> #[trigger] r@[i] == (Vec2 { x: 0, y: 0 }),
            !self.degenerate(points@) ==> forall|i: int|
                0 <= i < r.len() ==> (#[trigger] r@[i]).x == self.uv_x(
                    min_x(points@),
                    max_x(points@) - min_x(points@),
                    points@[i].x as int,
                ) && r@[i].y == self.uv_y(
                    min_y(points@),
                    max_y(points@) - min_y(points@),
                    points@[i].y as int,
                ),
    {
        let n = points.len();
        let mut r: Vec<Vec2> = Vec::new();
        if n == 0 {
            proof {
                assert(r@ =~= self.uv_list(points@));
            }
            return r;
        }
        // Bounding box.
        let mut mnx: i64 = points[0].x;
        let mut mny: i64 = points[0].y;
        let mut mxx: i64 = points[0].x;
        let mut mxy: i64 = points[0].y;
        let mut i: usize = 1;
        while i < n
            invariant
                1 <= i <= n == points.len(),
                ring_wf(points@),
                mnx == min_x(points@.subrange(0, i as int)),
                mny == min_y(points@.subrange(0, i as int)),
                mxx == max_x(points@.subrange(0, i as int)),
                mxy == max_y(points@.subrange(0, i as int)),
            decreases n - i,
        {
            let p = points[i];
            proof {
                let pre = points@.subrange(0, i as int);
                let nxt = points@.subrange(0, i as int + 1);
                assert(nxt.drop_last() =~= pre);
                assert(nxt.last() == points@[i as int]);
            }
            if p.x < mnx {
                mnx = p.x;
            }
            if p.y < mny {
                mny = p.y;
            }
            if p.x > mxx {
                mxx = p.x;
            }
            if p.y > mxy {
                mxy = p.y;
            }
            i = i + 1;
        }
        proof {
            assert(points@.subrange(0, n as int) =~= points@);
            lemma_minmax_in_range(points@);
        }
        let w: i64 = mxx - mnx;
        let h: i64 = mxy - mny;

        // Degeneracy test, mirroring `degenerate`.
        let den_x: i64 = if self.tile.is_specific {
            0
        } else {
            crate::geom::mul_fx(self.tile.scale.0, self.id.ratio)
        };
        let degen: bool = if self.tile.is_specific {
            w == 0 || h == 0 || self.tile.specific.0 <= 0 || self.tile.specific.1 <= 0
        } else {
            den_x <= 0 || self.tile.scale.0 <= 0
        };
        if degen {
            let mut k: usize = 0;
            while k < n
                invariant
                    0 <= k <= n,
                    r.len() == k,
                    forall|j: int| 0 <= j < k ==> #[trigger] r@[j] == (Vec2 { x: 0, y: 0 }),
                decreases n - k,
            {
                r.push(Vec2 { x: 0, y: 0 });
                k = k + 1;
            }
            proof {
                assert(r@ =~= self.uv_list(points@));
            }
            return r;
        }
        let mut k: usize = 0;
        while k < n
            invariant
                0 <= k <= n == points.len(),
                ring_wf(points@),
                self.wf(),
                r.len() == k,
                -COORD_MAX <= mnx <= COORD_MAX,
                -COORD_MAX <= mny <= COORD_MAX,
                0 <= w <= 2 * COORD_MAX,
                0 <= h <= 2 * COORD_MAX,
                mnx == min_x(points@),
                mny == min_y(points@),
                w == max_x(points@) - min_x(points@),
                h == max_y(points@) - min_y(points@),
                den_x == if self.tile.is_specific {
                    0
                } else {
                    self.scale_den_x()
                },
                !self.degenerate(points@),
                self.tile.is_specific ==> w > 0 && h > 0 && self.tile.specific.0 > 0
                    && self.tile.specific.1 > 0,
                !self.tile.is_specific ==> den_x > 0 && self.tile.scale.0 > 0,
                forall|j: int|
                    0 <= j < k ==> (#[trigger] r@[j]).x == self.uv_x(
                        min_x(points@),
                        max_x(points@) - min_x(points@),
                        points@[j].x as int,
                    ) && r@[j].y == self.uv_y(
                        min_y(points@),
                        max_y(points@) - min_y(points@),
                        points@[j].y as int,
                    ),
            decreases n - k,
        {
            let p = points[k];
            proof {
                assert(points@[k as int].wf());
            }
            let u: i64;
            let v: i64;
            if self.tile.is_specific {
                let dx: i64 = p.x - mnx + self.offset.x;
                let dy: i64 = p.y - mny + self.offset.y;
                let px = crate::geom::mul_wide(dx, self.tile.specific.0);
                let py = crate::geom::mul_wide(dy, self.tile.specific.1);
                let qx = crate::geom::idiv(px, w);
                let qy = crate::geom::idiv(py, h);
                proof {
                    crate::geom::lemma_divt_bound(px as int, w as int, 0x4000_0000_0000_0000);
                    crate::geom::lemma_divt_bound(py as int, h as int, 0x4000_0000_0000_0000);
                }
                u = if self.fliped_x {
                    qx
                } else {
                    FP_ONE - qx
                };
                v = if self.fliped_y {
                    qy
                } else {
                    FP_ONE - qy
                };
            } else {
                let ax: i64 = if self.tile.scale.1 {
                    0
                } else {
                    mnx
                };
                let ay: i64 = if self.tile.scale.1 {
                    0
                } else {
                    mny
                };
                let nx: i64 = (if self.fliped_x {
                    p.x
                } else {
                    -p.x
                }) + self.offset.x + ax;
                let ny: i64 = (if self.fliped_y {
                    p.y
                } else {
                    -p.y
                }) + self.offset.y + ay;
                let sx = crate::geom::mul_wide(nx, FP_ONE);
                let sy = crate::geom::mul_wide(ny, FP_ONE);
                u = crate::geom::idiv(sx, den_x);
                v = crate::geom::idiv(sy, self.tile.scale.0);
            }
            r.push(Vec2 { x: u, y: v });
            k = k + 1;
        }
        proof {
            assert(r@ =~= self.uv_list(points@));
        }
        r
    }
}

/// In fixed-tile mode with a non-negative offset, the bounding box's two
/// corners project exactly one tile count apart on each axis: the flipped
/// value at the far corner exceeds the one at the near corner by the tile
/// count itself (and the unflipped values, being its mirror image, differ by
/// the same amount the other way).  The tile count thus spans the whole
/// bounding box as a ratio, not a fixed unit size.
pub proof fn lemma_fixed_tile_corner_uvs(tex: MeshTex, mnx: int, mny: int, w: int, h: int)
    requires
        tex.tile.is_specific,
        w > 0,
        h > 0,
        tex.offset.x >= 0,
        tex.offset.y >= 0,
        tex.tile.specific.0 >= 0,
        tex.tile.specific.1 >= 0,
    ensures
        tex.fliped_x ==> tex.uv_x(mnx, w, mnx + w) - tex.uv_x(mnx, w, mnx)
            == tex.tile.specific.0,
        !tex.fliped_x ==> tex.uv_x(mnx, w, mnx) - tex.uv_x(mnx, w, mnx + w)
            == tex.tile.specific.0,
        tex.fliped_y ==> tex.uv_y(mny, h, mny + h) - tex.uv_y(mny, h, mny)
            == tex.tile.specific.1,
        !tex.fliped_y ==> tex.uv_y(mny, h, mny) - tex.uv_y(mny, h, mny + h)
            == tex.tile.specific.1,
{
    lemma_fixed_tile_span(tex.offset.x as int, tex.tile.specific.0 as int, w);
    lemma_fixed_tile_span(tex.offset.y as int, tex.tile.specific.1 as int, h);
    assert((mnx + w) - mnx + tex.offset.x == w + tex.offset.x);
    assert((mny + h) - mny + tex.offset.y == h + tex.offset.y);
}

proof fn lemma_fixed_tile_span(off: int, t: int, w: int)
    requires
        w > 0,
        t >= 0,
        off >= 0,
    ensures
        divt((w + off) * t, w) - divt(off * t, w) == t,
{
    assert((w + off) * t == off * t + t * w) by (nonlinear_arith);
    assert(off * t >= 0) by (nonlinear_arith)
        requires
            off >= 0,
            t >= 0,
    ;
    assert(t * w >= 0) by (nonlinear_arith)
        requires
            w > 0,
            t >= 0,
    ;
    vstd::arithmetic::div_mod::lemma_hoist_over_denominator(off * t, t, w as nat);
    assert(divt(off * t + t * w, w) == (off * t + t * w) / w);
    assert(divt(off * t, w) == (off * t) / w);
}

} // verus!
