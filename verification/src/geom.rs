//! Fixed-point plane and space vectors, rotations, and integer square roots.
//!
//! Every coordinate in this crate is an `i64` counting 1/65536 world units, so
//! all geometry is exact integer arithmetic.  A rotation is stored as the pair
//! of its cosine and sine in the same fixed-point scale; quotients round
//! toward zero.

use vstd::prelude::*;

verus! {

/// One world unit in fixed-point coordinates.
pub const FP_ONE: i64 = 65536;

/// Largest magnitude allowed for a stored coordinate (2^30).
pub const COORD_MAX: i64 = 0x4000_0000;

/// Largest magnitude allowed for an entity's own position, extent or height
/// (2^24, a sixty-fourth of a coordinate, 256 world units): derived points
/// stay within `COORD_MAX` through rotation, translation and distance
/// taking.
pub const WORLD_MAX: i64 = 0x100_0000;

/// Both components within `[-m, m]`.
pub open spec fn vec2_in(v: Vec2, m: int) -> bool {
    -m <= v.x <= m && -m <= v.y <= m
}

/// All three components within `[-m, m]`.
pub open spec fn vec3_in(v: Vec3, m: int) -> bool {
    -m <= v.x <= m && -m <= v.y <= m && -m <= v.z <= m
}

/// Absolute value on mathematical integers.
pub open spec fn iabs(a: int) -> int {
    if a >= 0 {
        a
    } else {
        -a
    }
}

/// Truncated division (rounds toward zero), defined for positive divisors.
pub open spec fn divt(a: int, b: int) -> int
    recommends
        b > 0,
{
    if a >= 0 {
        a / b
    } else {
        -((-a) / b)
    }
}

/// A point or offset in the plane.
#[derive(Clone, Copy, PartialEq, Eq, Structural, Debug)]
pub struct Vec2 {
    pub x: i64,
    pub y: i64,
}

/// A point or offset in space; `y` is the vertical axis.
#[derive(Clone, Copy, PartialEq, Eq, Structural, Debug)]
pub struct Vec3 {
    pub x: i64,
    pub y: i64,
    pub z: i64,
}

/// A plane rotation, stored as fixed-point cosine and sine.
#[derive(Clone, Copy, PartialEq, Eq, Structural, Debug)]
pub struct Rot2 {
    pub c: i64,
    pub s: i64,
}

impl Vec2 {
    pub open spec fn wf(self) -> bool {
        -COORD_MAX <= self.x <= COORD_MAX && -COORD_MAX <= self.y <= COORD_MAX
    }

    pub fn new(x: i64, y: i64) -> (r: Vec2)
        ensures
            r.x == x,
            r.y == y,
    {
        Vec2 { x, y }
    }
}

impl Vec3 {
    pub open spec fn wf(self) -> bool {
        &&& -COORD_MAX <= self.x <= COORD_MAX
        &&& -COORD_MAX <= self.y <= COORD_MAX
        &&& -COORD_MAX <= self.z <= COORD_MAX
    }

    pub fn new(x: i64, y: i64, z: i64) -> (r: Vec3)
        ensures
            r.x == x,
            r.y == y,
            r.z == z,
    {
        Vec3 { x, y, z }
    }
}

impl Rot2 {
    /// Cosine and sine never exceed one world unit in magnitude.
    pub open spec fn wf(self) -> bool {
        -FP_ONE <= self.c <= FP_ONE && -FP_ONE <= self.s <= FP_ONE
    }

    /// The identity rotation.
    pub fn identity() -> (r: Rot2)
        ensures
            r == (Rot2 { c: FP_ONE, s: 0 }),
            r.wf(),
    {
        Rot2 { c: FP_ONE, s: 0 }
    }

    /// The rotation half a turn further on: negates both components.
    pub fn half_turn_from(self) -> (r: Rot2)
        requires
            self.wf(),
        ensures
            r.c == -self.c,
            r.s == -self.s,
            r.wf(),
    {
        Rot2 { c: -self.c, s: -self.s }
    }

    /// A quarter turn counter-clockwise further on.
    pub fn quarter_turn_from(self) -> (r: Rot2)
        requires
            self.wf(),
        ensures
            r.c == -self.s,
            r.s == self.c,
            r.wf(),
    {
        Rot2 { c: -self.s, s: self.c }
    }

    /// The inverse rotation: negates the sine.
    pub fn inverse(self) -> (r: Rot2)
        requires
            self.wf(),
        ensures
            r.c == self.c,
            r.s == -self.s,
            r.wf(),
    {
        Rot2 { c: self.c, s: -self.s }
    }
}

proof fn lemma_div_pos_bound(a: int, b: int, m: int)
    requires
        b > 0,
        0 <= a <= m,
    ensures
        0 <= a / b <= m,
{
    assert(a / b >= 0) by (nonlinear_arith)
        requires
            a >= 0,
            b > 0,
    ;
    assert(a / b <= a) by (nonlinear_arith)
        requires
            a >= 0,
            b > 0,
    ;
}

/// Truncated division stays within the magnitude of the dividend.
pub proof fn lemma_divt_bound(a: int, b: int, m: int)
    requires
        b > 0,
        -m <= a <= m,
        0 <= m,
    ensures
        -m <= divt(a, b) <= m,
{
    if a >= 0 {
        lemma_div_pos_bound(a, b, m);
    } else {
        lemma_div_pos_bound(-a, b, m);
    }
}

/// Dividing a magnitude bounded by `b * k` by `b` gives at most `k`.
pub proof fn lemma_divt_scale(a: int, b: int, k: int)
    requires
        b > 0,
        k >= 0,
        -(b * k) <= a <= b * k,
    ensures
        -k <= divt(a, b) <= k,
{
    if a >= 0 {
        assert(a / b <= k && a / b >= 0) by (nonlinear_arith)
            requires
                b > 0,
                k >= 0,
                0 <= a <= b * k,
        ;
    } else {
        assert((-a) / b <= k && (-a) / b >= 0) by (nonlinear_arith)
            requires
                b > 0,
                k >= 0,
                0 <= -a <= b * k,
        ;
    }
}

/// Truncated division of an `i64` by a positive divisor.
pub fn idiv(a: i64, b: i64) -> (r: i64)
    requires
        b > 0,
        -0x4000_0000_0000_0000 <= a <= 0x4000_0000_0000_0000,
    ensures
        r == divt(a as int, b as int),
        iabs(r as int) <= iabs(a as int),
{
    proof {
        lemma_divt_bound(a as int, b as int, iabs(a as int));
    }
    if a >= 0 {
        let q: u64 = (a as u64) / (b as u64);
        q as i64
    } else {
        let n: i64 = -a;
        let q: u64 = (n as u64) / (b as u64);
        -(q as i64)
    }
}

/// Product of two bounded `i64` values, exact and free of overflow.
pub fn mul_i64(a: i64, b: i64) -> (r: i64)
    requires
        -0x8000_0000 <= a <= 0x8000_0000,
        -0x8000_0000 <= b <= 0x8000_0000,
    ensures
        r == a as int * b as int,
        -0x4000_0000_0000_0000 <= r <= 0x4000_0000_0000_0000,
{
    proof {
        assert(-0x4000_0000_0000_0000 <= a as int * b as int <= 0x4000_0000_0000_0000)
            by (nonlinear_arith)
            requires
                -0x8000_0000 <= a as int <= 0x8000_0000,
                -0x8000_0000 <= b as int <= 0x8000_0000,
        ;
    }
    a * b
}

/// Product of a wider value with a coordinate-bounded one, exact and free of
/// overflow.
pub fn mul_wide(a: i64, b: i64) -> (r: i64)
    requires
        -0x1_0000_0000 <= a <= 0x1_0000_0000,
        -0x4000_0000 <= b <= 0x4000_0000,
    ensures
        r == a as int * b as int,
        -0x4000_0000_0000_0000 <= r <= 0x4000_0000_0000_0000,
{
    proof {
        assert(-0x4000_0000_0000_0000 <= a as int * b as int <= 0x4000_0000_0000_0000)
            by (nonlinear_arith)
            requires
                -0x1_0000_0000 <= a as int <= 0x1_0000_0000,
                -0x4000_0000 <= b as int <= 0x4000_0000,
        ;
    }
    a * b
}

/// Exact value of `a * b / FP_ONE` with truncation.
pub open spec fn mul_fx_spec(a: int, b: int) -> int {
    divt(a * b, FP_ONE as int)
}

/// Fixed-point product `a * b / FP_ONE`, rounding toward zero.
pub fn mul_fx(a: i64, b: i64) -> (r: i64)
    requires
        -0x8000_0000 <= a <= 0x8000_0000,
        -0x8000_0000 <= b <= 0x8000_0000,
    ensures
        r == mul_fx_spec(a as int, b as int),
{
    let p = mul_i64(a, b);
    idiv(p, FP_ONE)
}

/// Exact value of the x component of `v` rotated by `r`.
pub open spec fn rot_x(v: Vec2, r: Rot2) -> int {
    divt(v.x * r.c - v.y * r.s, FP_ONE as int)
}

/// Exact value of the y component of `v` rotated by `r`.
pub open spec fn rot_y(v: Vec2, r: Rot2) -> int {
    divt(v.x * r.s + v.y * r.c, FP_ONE as int)
}

proof fn lemma_fx_term_bound(x: int, c: int, m: int)
    requires
        -m <= x <= m,
        m >= 0,
        -FP_ONE <= c <= FP_ONE,
    ensures
        -(iabs(x) * FP_ONE) <= x * c <= iabs(x) * FP_ONE,
        -(m * FP_ONE) <= x * c <= m * FP_ONE,
{
    assert(-(iabs(x) * FP_ONE) <= x * c <= iabs(x) * FP_ONE && -(m * FP_ONE) <= x * c <= m
        * FP_ONE) by (nonlinear_arith)
        requires
            -m <= x <= m,
            m >= 0,
            -FP_ONE < 0 < FP_ONE,
            -FP_ONE <= c <= FP_ONE,
            iabs(x) == if x >= 0 {
                x
            } else {
                -x
            },
    ;
}

/// Rotates `v` by `r`; both components follow the exact fixed-point formula,
/// and the result's magnitude is at most `|v.x| + |v.y|` per component.
pub fn rotate(v: Vec2, r: Rot2) -> (w: Vec2)
    requires
        -0x2000_0000_0000 <= v.x <= 0x2000_0000_0000,
        -0x2000_0000_0000 <= v.y <= 0x2000_0000_0000,
        r.wf(),
    ensures
        w.x == rot_x(v, r),
        w.y == rot_y(v, r),
        -(iabs(v.x as int) + iabs(v.y as int)) <= w.x <= iabs(v.x as int) + iabs(v.y as int),
        -(iabs(v.x as int) + iabs(v.y as int)) <= w.y <= iabs(v.x as int) + iabs(v.y as int),
{
    let ghost k: int = iabs(v.x as int) + iabs(v.y as int);
    proof {
        lemma_fx_term_bound(v.x as int, r.c as int, 0x2000_0000_0000);
        lemma_fx_term_bound(v.y as int, r.s as int, 0x2000_0000_0000);
        lemma_fx_term_bound(v.x as int, r.s as int, 0x2000_0000_0000);
        lemma_fx_term_bound(v.y as int, r.c as int, 0x2000_0000_0000);
        assert(FP_ONE * k == iabs(v.x as int) * FP_ONE + iabs(v.y as int) * FP_ONE)
            by (nonlinear_arith)
            requires
                k == iabs(v.x as int) + iabs(v.y as int),
        ;
    }
    let xc = v.x * r.c;
    let ys = v.y * r.s;
    let xs = v.x * r.s;
    let yc = v.y * r.c;
    let nx = idiv(xc - ys, FP_ONE);
    let ny = idiv(xs + yc, FP_ONE);
    proof {
        lemma_divt_scale((xc - ys) as int, FP_ONE as int, k);
        lemma_divt_scale((xs + yc) as int, FP_ONE as int, k);
    }
    Vec2 { x: nx, y: ny }
}

/// The floor of the square root: the unique `r >= 0` with
/// `r * r <= n < (r + 1) * (r + 1)`.
pub open spec fn sqrt_floor(n: int) -> int
    recommends
        n >= 0,
{
    choose|r: int| 0 <= r && #[trigger] (r * r) <= n && n < (r + 1) * (r + 1)
}

pub proof fn lemma_sqrt_exists(n: int)
    requires
        n >= 0,
    ensures
        sqrt_floor(n) >= 0,
        sqrt_floor(n) * sqrt_floor(n) <= n,
        n < (sqrt_floor(n) + 1) * (sqrt_floor(n) + 1),
    decreases n,
{
    if n == 0 {
        assert(exists|r: int| 0 <= r && #[trigger] (r * r) <= n && n < (r + 1) * (r + 1)) by {
            assert(0 >= 0 && 0 * 0 <= n && n < (0 + 1) * (0 + 1));
        }
    } else {
        lemma_sqrt_exists(n - 1);
        let p = sqrt_floor(n - 1);
        if (p + 1) * (p + 1) <= n {
            assert(n < (p + 2) * (p + 2)) by (nonlinear_arith)
                requires
                    n - 1 < (p + 1) * (p + 1),
                    p >= 0,
            ;
            assert(exists|r: int| 0 <= r && #[trigger] (r * r) <= n && n < (r + 1) * (r + 1)) by {
                assert(p + 1 >= 0 && (p + 1) * (p + 1) <= n && n < ((p + 1) + 1) * ((p + 1) + 1));
            }
        } else {
            assert(exists|r: int| 0 <= r && #[trigger] (r * r) <= n && n < (r + 1) * (r + 1)) by {
                assert(p >= 0 && p * p <= n && n < (p + 1) * (p + 1));
            }
        }
    }
}

/// Two square-root witnesses for the same value agree.
pub proof fn lemma_sqrt_unique(n: int, a: int, b: int)
    requires
        a >= 0,
        a * a <= n,
        n < (a + 1) * (a + 1),
        b >= 0,
        b * b <= n,
        n < (b + 1) * (b + 1),
    ensures
        a == b,
{
    if a < b {
        assert((a + 1) * (a + 1) <= b * b) by (nonlinear_arith)
            requires
                0 <= a,
                a + 1 <= b,
        ;
    }
    if b < a {
        assert((b + 1) * (b + 1) <= a * a) by (nonlinear_arith)
            requires
                0 <= b,
                b + 1 <= a,
        ;
    }
}

/// Integer square root by bisection.
pub fn isqrt(n: u64) -> (r: u64)
    ensures
        r as int == sqrt_floor(n as int),
        r * r <= n,
        (n as int) < (r as int + 1) * (r as int + 1),
        r <= 0xffff_ffff,
{
    let mut lo: u64 = 0;
    let mut hi: u64 = 0x1_0000_0000;
    proof {
        assert((0x1_0000_0000 as int) * (0x1_0000_0000 as int) > u64::MAX as int)
            by (nonlinear_arith);
    }
    while lo + 1 < hi
        invariant
            lo < hi,
            hi <= 0x1_0000_0000,
            lo as int * lo as int <= n as int,
            (n as int) < hi as int * hi as int,
        decreases hi - lo,
    {
        let mid: u64 = lo + (hi - lo) / 2;
        proof {
            assert(mid as int * mid as int <= 0x1_0000_0000 * 0x1_0000_0000) by (nonlinear_arith)
                requires
                    0 <= mid as int <= 0x1_0000_0000,
            ;
        }
        let sq: u128 = (mid as u128) * (mid as u128);
        if sq <= n as u128 {
            lo = mid;
        } else {
            hi = mid;
        }
    }
    proof {
        lemma_sqrt_exists(n as int);
        lemma_sqrt_unique(n as int, lo as int, sqrt_floor(n as int));
    }
    lo
}

/// The planar distance between `a` and `b`: the rounded-down square root of
/// the exact squared distance.
pub open spec fn dist_spec(a: Vec2, b: Vec2) -> int {
    sqrt_floor((a.x - b.x) * (a.x - b.x) + (a.y - b.y) * (a.y - b.y))
}

/// Distance between two bounded points, exact per `dist_spec`.
pub fn dist(a: Vec2, b: Vec2) -> (r: i64)
    requires
        a.wf(),
        b.wf(),
    ensures
        r == dist_spec(a, b),
        0 <= r <= 0xffff_ffff,
{
    let dx: i64 = a.x - b.x;
    let dy: i64 = a.y - b.y;
    proof {
        assert(0 <= dx * dx <= 0x8000_0000 * 0x8000_0000) by (nonlinear_arith)
            requires
                -0x8000_0000 <= dx as int <= 0x8000_0000,
        ;
        assert(0 <= dy * dy <= 0x8000_0000 * 0x8000_0000) by (nonlinear_arith)
            requires
                -0x8000_0000 <= dy as int <= 0x8000_0000,
        ;
    }
    let sq: u64 = ((dx * dx) as u64) + ((dy * dy) as u64);
    let r = isqrt(sq);
    proof {
        assert((dx * dx) as u64 as int == dx * dx);
        assert((dy * dy) as u64 as int == dy * dy);
    }
    r as i64
}


/// Clamps a fixed-point value into the unit range `[-FP_ONE, FP_ONE]`.
pub open spec fn clamp_fp(v: int) -> int {
    if v > FP_ONE as int {
        FP_ONE as int
    } else if v < -(FP_ONE as int) {
        -(FP_ONE as int)
    } else {
        v
    }
}

/// Exact cosine component of composing two rotations.
pub open spec fn comp_c(a: Rot2, b: Rot2) -> int {
    clamp_fp(divt(a.c * b.c - a.s * b.s, FP_ONE as int))
}

/// Exact sine component of composing two rotations.
pub open spec fn comp_s(a: Rot2, b: Rot2) -> int {
    clamp_fp(divt(a.s * b.c + a.c * b.s, FP_ONE as int))
}

impl Rot2 {
    /// The rotation by the sum of the two angles, clamped to the unit range
    /// (unit inputs stay unit up to rounding).
    pub fn compose(self, other: Rot2) -> (r: Rot2)
        requires
            self.wf(),
            other.wf(),
        ensures
            r.c == comp_c(self, other),
            r.s == comp_s(self, other),
            r.wf(),
    {
        proof {
            assert(-0x2_0000 * 0x2_0000 <= self.c * other.c <= 0x2_0000 * 0x2_0000
                && -0x2_0000 * 0x2_0000 <= self.s * other.s <= 0x2_0000 * 0x2_0000
                && -0x2_0000 * 0x2_0000 <= self.s * other.c <= 0x2_0000 * 0x2_0000
                && -0x2_0000 * 0x2_0000 <= self.c * other.s <= 0x2_0000 * 0x2_0000)
                by (nonlinear_arith)
                requires
                    -FP_ONE <= self.c as int <= FP_ONE,
                    -FP_ONE <= self.s as int <= FP_ONE,
                    -FP_ONE <= other.c as int <= FP_ONE,
                    -FP_ONE <= other.s as int <= FP_ONE,
                    FP_ONE < 0x2_0000,
            ;
        }
        let rawc = idiv(self.c * other.c - self.s * other.s, FP_ONE);
        let raws = idiv(self.s * other.c + self.c * other.s, FP_ONE);
        let c = if rawc > FP_ONE {
            FP_ONE
        } else if rawc < -FP_ONE {
            -FP_ONE
        } else {
            rawc
        };
        let s = if raws > FP_ONE {
            FP_ONE
        } else if raws < -FP_ONE {
            -FP_ONE
        } else {
            raws
        };
        Rot2 { c, s }
    }
}

/// The length of `v`, rounded down.
pub open spec fn len_of(v: Vec2) -> int {
    sqrt_floor(v.x * v.x + v.y * v.y)
}

/// The unit direction of `v` as a rotation: its direction cosines in fixed
/// point.  The zero vector gets the identity rotation.
pub fn unit_of(v: Vec2) -> (r: Rot2)
    requires
        v.wf(),
    ensures
        r == unit_spec(v),
        v.x == 0 && v.y == 0 ==> r == (Rot2 { c: FP_ONE, s: 0 }),
        !(v.x == 0 && v.y == 0) ==> r.c == divt(v.x * FP_ONE, len_of(v)) && r.s == divt(
            v.y * FP_ONE,
            len_of(v),
        ),
        r.wf(),
{
    if v.x == 0 && v.y == 0 {
        Rot2 { c: FP_ONE, s: 0 }
    } else {
        let l = dist(v, Vec2 { x: 0, y: 0 });
        proof {
            assert((v.x - 0) * (v.x - 0) + (v.y - 0) * (v.y - 0) == v.x * v.x + v.y * v.y);
            assert(v.x * v.x >= 0 && v.y * v.y >= 0) by (nonlinear_arith);
            lemma_sqrt_exists(v.x * v.x + v.y * v.y);
            assert(l == len_of(v));
            assert(l >= 1) by {
                if l == 0 {
                    assert((l as int + 1) * (l as int + 1) == 1) by (nonlinear_arith)
                        requires
                            l as int == 0,
                    ;
                    assert(v.x * v.x + v.y * v.y < 1);
                    assert(v.x * v.x >= 1 || v.y * v.y >= 1) by (nonlinear_arith)
                        requires
                            !(v.x == 0 && v.y == 0),
                    ;
                }
            }
            assert(iabs(v.x as int) <= l && iabs(v.y as int) <= l) by {
                assert(l * l <= v.x * v.x + v.y * v.y);
                assert(v.x * v.x + v.y * v.y < (l + 1) * (l + 1));
                assert(iabs(v.x as int) <= l) by (nonlinear_arith)
                    requires
                        v.x * v.x + v.y * v.y < (l as int + 1) * (l as int + 1),
                        l >= 0,
                        v.y * v.y >= 0,
                        iabs(v.x as int) == if v.x >= 0 {
                            v.x as int
                        } else {
                            -(v.x as int)
                        },
                ;
                assert(iabs(v.y as int) <= l) by (nonlinear_arith)
                    requires
                        v.y * v.y + v.x * v.x < (l as int + 1) * (l as int + 1),
                        l >= 0,
                        v.x * v.x >= 0,
                        iabs(v.y as int) == if v.y >= 0 {
                            v.y as int
                        } else {
                            -(v.y as int)
                        },
                ;
            }
        }
        let nx = mul_wide(v.x, FP_ONE);
        let ny = mul_wide(v.y, FP_ONE);
        let c = idiv(nx, l);
        let s = idiv(ny, l);
        proof {
            assert(l * FP_ONE >= iabs(v.x as int) * FP_ONE && iabs(v.x as int * FP_ONE) == iabs(
                v.x as int,
            ) * FP_ONE) by (nonlinear_arith)
                requires
                    iabs(v.x as int) <= l as int,
                    FP_ONE > 0,
                    iabs(v.x as int) >= 0,
                    iabs(v.x as int * FP_ONE) == if v.x as int * FP_ONE >= 0 {
                        v.x as int * FP_ONE
                    } else {
                        -(v.x as int * FP_ONE)
                    },
                    iabs(v.x as int) == if v.x >= 0 {
                        v.x as int
                    } else {
                        -(v.x as int)
                    },
            ;
            assert(l * FP_ONE >= iabs(v.y as int) * FP_ONE && iabs(v.y as int * FP_ONE) == iabs(
                v.y as int,
            ) * FP_ONE) by (nonlinear_arith)
                requires
                    iabs(v.y as int) <= l as int,
                    FP_ONE > 0,
                    iabs(v.y as int) >= 0,
                    iabs(v.y as int * FP_ONE) == if v.y as int * FP_ONE >= 0 {
                        v.y as int * FP_ONE
                    } else {
                        -(v.y as int * FP_ONE)
                    },
                    iabs(v.y as int) == if v.y >= 0 {
                        v.y as int
                    } else {
                        -(v.y as int)
                    },
            ;
            lemma_divt_scale(v.x as int * FP_ONE, l as int, FP_ONE as int);
            lemma_divt_scale(v.y as int * FP_ONE, l as int, FP_ONE as int);
            assert(l * FP_ONE == FP_ONE * (l as int)) by (nonlinear_arith);
        }
        Rot2 { c, s }
    }
}


/// Spec mirror of `quarter_turn_from`.
pub open spec fn rot_quarter(r: Rot2) -> Rot2 {
    Rot2 { c: (-(r.s as int)) as i64, s: r.c }
}

/// Spec mirror of `half_turn_from`.
pub open spec fn rot_half(r: Rot2) -> Rot2 {
    Rot2 { c: (-(r.c as int)) as i64, s: (-(r.s as int)) as i64 }
}

/// Spec mirror of `inverse`.
pub open spec fn rot_inv(r: Rot2) -> Rot2 {
    Rot2 { c: r.c, s: (-(r.s as int)) as i64 }
}

/// Spec mirror of `compose`.
pub open spec fn rot_comp(a: Rot2, b: Rot2) -> Rot2 {
    Rot2 { c: comp_c(a, b) as i64, s: comp_s(a, b) as i64 }
}

/// Spec mirror of `unit_of`.
pub open spec fn unit_spec(v: Vec2) -> Rot2 {
    if v.x == 0 && v.y == 0 {
        Rot2 { c: FP_ONE, s: 0 }
    } else {
        Rot2 {
            c: divt(v.x * FP_ONE, len_of(v)) as i64,
            s: divt(v.y * FP_ONE, len_of(v)) as i64,
        }
    }
}

/// Fixed-point product of a doubly-bounded value with a unit-range factor,
/// staying doubly bounded.
pub fn mul_fx_unit(a: i64, t: i64) -> (r: i64)
    requires
        -2 * COORD_MAX <= a <= 2 * COORD_MAX,
        -FP_ONE <= t <= FP_ONE,
    ensures
        r == mul_fx_spec(a as int, t as int),
        -iabs(a as int) <= r <= iabs(a as int),
{
    let p = mul_wide(a, t);
    let r = idiv(p, FP_ONE);
    proof {
        assert(-((FP_ONE as int) * iabs(a as int)) <= a as int * t as int <= (FP_ONE as int) * iabs(
            a as int,
        )) by (nonlinear_arith)
            requires
                -FP_ONE <= t as int <= FP_ONE,
                FP_ONE > 0,
                iabs(a as int) == if a >= 0 {
                    a as int
                } else {
                    -(a as int)
                },
        ;
        lemma_divt_scale(a as int * t as int, FP_ONE as int, iabs(a as int));
    }
    r
}


/// A square root is at most any `m` whose square covers the operand.
pub proof fn lemma_sqrt_le(n: int, m: int)
    requires
        0 <= n,
        0 <= m,
        n <= m * m,
    ensures
        sqrt_floor(n) <= m,
{
    lemma_sqrt_exists(n);
    let r = sqrt_floor(n);
    assert(r <= m) by (nonlinear_arith)
        requires
            r >= 0,
            m >= 0,
            r * r <= n,
            n <= m * m,
    ;
}

} // verus!
