//! Room modifiers: auxiliary solids meshed relative to their parent room — a
//! ramp, an extruded cliff footprint, or an extruded regular disc.

use vstd::prelude::*;

use crate::geom::{Rot2, Vec2, Vec3, COORD_MAX};
use crate::room::Wall;
use crate::texture::MeshTex;

verus! {

/// An auxiliary solid attached to a room.
#[derive(Clone, Debug)]
pub enum Modifier {
    Ramp {
        pos: Vec3,
        dir: Rot2,
        size: Vec3,
        ramp_texture: MeshTex,
        wall_texture: MeshTex,
        bottom_texture: MeshTex,
    },
    Cliff { walls: Vec<Wall>, on_roof: bool, height: i64, floor_texture: MeshTex },
    Disc {
        pos: Vec3,
        size: Vec3,
        sides: Vec<MeshTex>,
        dir: Rot2,
        top_tex: MeshTex,
        bottom_tex: MeshTex,
    },
}

impl Modifier {
    pub open spec fn wf(self) -> bool {
        match self {
            Modifier::Ramp { pos, dir, size, ramp_texture, wall_texture, bottom_texture } => {
                &&& pos.wf()
                &&& crate::geom::vec3_in(pos, crate::geom::WORLD_MAX as int)
                &&& dir.wf()
                &&& size.wf()
                &&& 0 <= size.x <= crate::geom::WORLD_MAX
                &&& 0 <= size.y <= crate::geom::WORLD_MAX
                &&& 0 <= size.z <= crate::geom::WORLD_MAX
                &&& ramp_texture.wf()
                &&& wall_texture.wf()
                &&& bottom_texture.wf()
            },
            Modifier::Cliff { walls, on_roof, height, floor_texture } => {
                &&& 0 <= height <= crate::geom::WORLD_MAX
                &&& walls.len() <= 65536
                &&& forall|i: int| 0 <= i < walls.len() ==> (#[trigger] walls[i]).wf()
                &&& forall|i: int|
                    0 <= i < walls.len() ==> crate::geom::vec2_in(
                        (#[trigger] walls[i]).local_pos,
                        crate::geom::WORLD_MAX as int,
                    )
                &&& floor_texture.wf()
            },
            Modifier::Disc { pos, size, sides, dir, top_tex, bottom_tex } => {
                &&& pos.wf()
                &&& crate::geom::vec3_in(pos, crate::geom::WORLD_MAX as int)
                &&& dir.wf()
                &&& size.wf()
                &&& 0 <= size.x <= crate::geom::WORLD_MAX
                &&& 0 <= size.y <= crate::geom::WORLD_MAX
                &&& 0 <= size.z <= crate::geom::WORLD_MAX
                &&& sides.len() <= 4096
                &&& forall|i: int| 0 <= i < sides.len() ==> (#[trigger] sides[i]).wf()
                &&& top_tex.wf()
                &&& bottom_tex.wf()
            },
        }
    }

    /// How many meshes this modifier generates: a ramp always five; a cliff
    /// one floor plus one wall per footprint edge, or nothing when its ring
    /// is degenerate; a disc a top, a bottom, and one quad per side, or
    /// nothing when it has under three sides.
    pub open spec fn mesh_count(self) -> int {
        match self {
            Modifier::Ramp { .. } => 5,
            Modifier::Cliff { walls, .. } => if walls.len() >= 3 {
                1 + walls.len() as int
            } else {
                0
            },
            Modifier::Disc { sides, .. } => if sides.len() >= 3 {
                2 + sides.len() as int
            } else {
                0
            },
        }
    }
}


/// Spec mirror of `place`: the two-stage transform of a modifier-local
/// point into the world — rotate the ground components by the modifier's
/// own facing, move by its own position, rotate by the room, move to the
/// room.
pub open spec fn place_spec(
    p: Vec3,
    own_dir: Rot2,
    own_pos: Vec3,
    room_rot: Rot2,
    room_pos: Vec3,
) -> Vec3 {
    let r1x = crate::geom::rot_x(Vec2 { x: p.x, y: p.y }, own_dir);
    let r1y = crate::geom::rot_y(Vec2 { x: p.x, y: p.y }, own_dir);
    let w1x = r1x + own_pos.x;
    let w1y = p.z + own_pos.y;
    let w1z = r1y + own_pos.z;
    let r2x = crate::geom::rot_x(Vec2 { x: w1x as i64, y: w1z as i64 }, room_rot);
    let r2y = crate::geom::rot_y(Vec2 { x: w1x as i64, y: w1z as i64 }, room_rot);
    Vec3 {
        x: (r2x + room_pos.x) as i64,
        y: (w1y + room_pos.y) as i64,
        z: (r2y + room_pos.z) as i64,
    }
}

/// Places a modifier-local point in the world, exactly per `place_spec`.
/// The local point's ground components sit in `x` and `y` and its height in
/// `z`, as the generators lay their faces out.
fn place(p: Vec3, own_dir: Rot2, own_pos: Vec3, room_rot: Rot2, room_pos: Vec3) -> (r: Vec3)
    requires
        crate::geom::vec3_in(p, 2 * crate::geom::WORLD_MAX as int),
        own_dir.wf(),
        crate::geom::vec3_in(own_pos, crate::geom::WORLD_MAX as int),
        room_rot.wf(),
        crate::geom::vec3_in(room_pos, crate::geom::WORLD_MAX as int),
    ensures
        r == place_spec(p, own_dir, own_pos, room_rot, room_pos),
        crate::geom::vec3_in(r, 16 * crate::geom::WORLD_MAX as int),
{
    let r1 = crate::geom::rotate(Vec2 { x: p.x, y: p.y }, own_dir);
    let w1x = r1.x + own_pos.x;
    let w1y = p.z + own_pos.y;
    let w1z = r1.y + own_pos.z;
    let r2 = crate::geom::rotate(Vec2 { x: w1x, y: w1z }, room_rot);
    Vec3 { x: r2.x + room_pos.x, y: w1y + room_pos.y, z: r2.y + room_pos.z }
}

/// Exact value of the quadratic sine approximation at `f` turns.
pub open spec fn sin_turn_spec(f: int) -> int {
    let fp = crate::geom::FP_ONE as int;
    let u = if f < fp / 2 {
        2 * f
    } else {
        2 * f - fp
    };
    let w = crate::geom::mul_fx_spec(u, fp - u);
    let q = crate::geom::divt(16 * w * fp, 5 * fp - 4 * w);
    if f < fp / 2 {
        q
    } else {
        -q
    }
}

/// Exact value of the unit-circle point at `k` of `n` turns.
pub open spec fn circle_spec(k: int, n: int) -> Rot2 {
    let fp = crate::geom::FP_ONE as int;
    let f0 = crate::geom::divt(k * fp, n);
    let f = if f0 < 0 {
        0
    } else if f0 >= fp {
        fp - 1
    } else {
        f0
    };
    let fc0 = f + fp / 4;
    let fc = if fc0 >= fp {
        fc0 - fp
    } else {
        fc0
    };
    Rot2 { c: sin_turn_spec(fc) as i64, s: sin_turn_spec(f) as i64 }
}

/// The disc's footprint corner `k` of `n`: the circle point scaled by the
/// disc's ground extents and turned by its own facing.
pub open spec fn disc_fp(k: int, n: int, size: Vec3, dir: Rot2) -> Vec2 {
    let cp = circle_spec(k, n);
    let bx = crate::geom::mul_fx_spec(size.x as int, cp.c as int);
    let bz = crate::geom::mul_fx_spec(size.z as int, cp.s as int);
    Vec2 {
        x: crate::geom::rot_x(Vec2 { x: bx as i64, y: bz as i64 }, dir) as i64,
        y: crate::geom::rot_y(Vec2 { x: bx as i64, y: bz as i64 }, dir) as i64,
    }
}

/// A point of the unit circle at `k` of `n` turns, by a fixed-point
/// quadratic sine approximation; always a well-formed rotation.
fn circle_point(k: usize, n: usize) -> (r: Rot2)
    requires
        1 <= n,
        k < n,
        n <= 4096,
    ensures
        r.wf(),
        r == circle_spec(k as int, n as int),
{
    let kf: i64 = (k as i64) * crate::geom::FP_ONE;
    let f0 = crate::geom::idiv(kf, n as i64);
    let f: i64 = if f0 < 0 {
        0
    } else if f0 >= crate::geom::FP_ONE {
        crate::geom::FP_ONE - 1
    } else {
        f0
    };
    let quarter = crate::geom::FP_ONE / 4;
    let fc0 = f + quarter;
    let fc: i64 = if fc0 >= crate::geom::FP_ONE {
        fc0 - crate::geom::FP_ONE
    } else {
        fc0
    };
    let s = sin_turn(f);
    let c = sin_turn(fc);
    Rot2 { c, s }
}

/// Sine of `f` turns (`f` in fixed point, within one turn), by the
/// quadratic rational approximation; the result is exactly `sin_turn_spec`
/// and stays within one unit.
fn sin_turn(f: i64) -> (r: i64)
    requires
        0 <= f < crate::geom::FP_ONE,
    ensures
        r == sin_turn_spec(f as int),
        -crate::geom::FP_ONE <= r <= crate::geom::FP_ONE,
{
    let half = crate::geom::FP_ONE / 2;
    let (u, neg): (i64, bool) = if f < half {
        (2 * f, false)
    } else {
        (2 * f - crate::geom::FP_ONE, true)
    };
    let w = crate::geom::mul_fx(u, crate::geom::FP_ONE - u);
    proof {
        assert(0 <= u < crate::geom::FP_ONE);
        assert(0 <= u * (crate::geom::FP_ONE - u) && 4 * (u * (crate::geom::FP_ONE - u)) <= (
        crate::geom::FP_ONE as int) * crate::geom::FP_ONE) by (nonlinear_arith)
            requires
                0 <= u < crate::geom::FP_ONE,
        ;
        crate::geom::lemma_divt_scale(
            u * (crate::geom::FP_ONE - u),
            crate::geom::FP_ONE as int,
            crate::geom::FP_ONE as int,
        );
        assert(4 * crate::geom::mul_fx_spec(u as int, crate::geom::FP_ONE - u) <= (
        crate::geom::FP_ONE as int)) by {
            assert(crate::geom::mul_fx_spec(u as int, crate::geom::FP_ONE - u)
                == crate::geom::divt(
                u * (crate::geom::FP_ONE - u),
                crate::geom::FP_ONE as int,
            ));
            assert(crate::geom::divt(
                u * (crate::geom::FP_ONE - u),
                crate::geom::FP_ONE as int,
            ) == (u * (crate::geom::FP_ONE - u)) / (crate::geom::FP_ONE as int));
            assert((u * (crate::geom::FP_ONE - u)) / (crate::geom::FP_ONE as int) * 4 <= (
            crate::geom::FP_ONE as int)) by (nonlinear_arith)
                requires
                    0 <= u * (crate::geom::FP_ONE - u),
                    4 * (u * (crate::geom::FP_ONE - u)) <= (crate::geom::FP_ONE as int) * (
                    crate::geom::FP_ONE as int),
                    crate::geom::FP_ONE == 0x1_0000,
            ;
        }
    }
    let num = 16 * w;
    let den = 5 * crate::geom::FP_ONE - 4 * w;
    proof {
        assert(den >= crate::geom::FP_ONE);
        assert(num <= 4 * crate::geom::FP_ONE);
        assert(num * crate::geom::FP_ONE <= den * crate::geom::FP_ONE) by (nonlinear_arith)
            requires
                num <= den,
                crate::geom::FP_ONE > 0,
        ;
        crate::geom::lemma_divt_scale(
            num as int * crate::geom::FP_ONE,
            den as int,
            crate::geom::FP_ONE as int,
        );
    }
    let q = crate::geom::idiv(num * crate::geom::FP_ONE, den);
    if neg {
        -q
    } else {
        q
    }
}



/// The identity rotation as a spec value.
pub open spec fn ident_rot() -> Rot2 {
    Rot2 { c: crate::geom::FP_ONE, s: 0 }
}

/// A cliff cap vertex: the footprint point turned into the room's frame, at
/// the cap's base height, moved to the room.
pub open spec fn cliff_cap_point(
    walls: Seq<crate::room::Wall>,
    i: int,
    base: int,
    td: Rot2,
    tp: Vec3,
) -> Vec3 {
    Vec3 {
        x: (crate::geom::rot_x(walls[i].local_pos, td) + tp.x) as i64,
        y: (base + tp.y) as i64,
        z: (crate::geom::rot_y(walls[i].local_pos, td) + tp.z) as i64,
    }
}

/// Corner `c` of cliff wall quad `e`: the quad spans the footprint edge at
/// heights `wb` to `wb + height`, laid along the edge's unit direction.
pub open spec fn cliff_wall_corner(
    walls: Seq<crate::room::Wall>,
    e: int,
    c: int,
    height: int,
    wb: int,
    td: Rot2,
    tp: Vec3,
) -> Vec3 {
    let n = walls.len() as int;
    let w1 = walls[e].local_pos;
    let w2 = walls[if e + 1 == n {
        0int
    } else {
        e + 1
    }].local_pos;
    let l = crate::geom::dist_spec(w1, w2);
    let d2 = crate::geom::unit_spec(
        Vec2 { x: (w2.x - w1.x) as i64, y: (w2.y - w1.y) as i64 },
    );
    let px: int = if c == 1 || c == 2 {
        l
    } else {
        0
    };
    let py: int = if c == 2 || c == 3 {
        height
    } else {
        0
    };
    let lx = (crate::geom::mul_fx_spec(px, d2.c as int) + w1.x) as i64;
    let ly = (crate::geom::mul_fx_spec(px, d2.s as int) + w1.y) as i64;
    Vec3 {
        x: (crate::geom::rot_x(Vec2 { x: lx, y: ly }, td) + tp.x) as i64,
        y: (py + wb + tp.y) as i64,
        z: (crate::geom::rot_y(Vec2 { x: lx, y: ly }, td) + tp.z) as i64,
    }
}

/// A disc cap vertex: footprint corner `k`, half the disc height up or
/// down, placed by the disc's position and the room's frame.
pub open spec fn disc_cap_point(
    k: int,
    n: int,
    size: Vec3,
    dir: Rot2,
    pos: Vec3,
    top: bool,
    td: Rot2,
    tp: Vec3,
) -> Vec3 {
    let p = disc_fp(k, n, size, dir);
    let sy2 = crate::geom::divt(size.y as int, 2);
    place_spec(
        Vec3 {
            x: p.x,
            y: p.y,
            z: (if top {
                sy2
            } else {
                -sy2
            }) as i64,
        },
        ident_rot(),
        pos,
        td,
        tp,
    )
}

/// The running-distance-by-height frame a disc side projects its texture
/// from: one axis the side's ground length, the other the disc's vertical
/// extent about its centre.
pub open spec fn disc_side_frame(e: int, n: int, size: Vec3, dir: Rot2, pos: Vec3) -> Seq<Vec2> {
    let p1 = disc_fp(e, n, size, dir);
    let p2 = disc_fp(
        if e + 1 == n {
            0int
        } else {
            e + 1
        },
        n,
        size,
        dir,
    );
    let sd = crate::geom::dist_spec(p1, p2);
    let sy2 = crate::geom::divt(size.y as int, 2);
    seq![
        Vec2 { x: 0, y: (pos.y - sy2) as i64 },
        Vec2 { x: sd as i64, y: (pos.y - sy2) as i64 },
        Vec2 { x: sd as i64, y: (pos.y + sy2) as i64 },
        Vec2 { x: 0, y: (pos.y + sy2) as i64 },
    ]
}

/// What `gen_mesh` leaves at `r[off..]` for this modifier: every mesh's
/// texture, vertex count, index list and vertex positions, per variant.  A
/// cliff or disc with fewer than three edges leaves nothing.
pub open spec fn modifier_meshes_ok(
    m: Modifier,
    r: Seq<crate::mesh::Mesh>,
    off: int,
    tp: Vec3,
    td: Rot2,
    rh: i64,
) -> bool {
    match m {
        Modifier::Ramp { pos, dir, size, ramp_texture, wall_texture, bottom_texture } => {
            let sx = size.x;
            let sy = size.y;
            let sz = size.z;
            &&& r[off].texture == ramp_texture.id.id
            &&& r[off].vertices.len() == 4
            &&& r[off].indices@ == seq![2usize, 1, 0, 3, 2, 0]
            &&& r[off].vertices[0].position == place_spec(Vec3 { x: sx, y: 0, z: 0 }, dir, pos, td, tp)
            &&& r[off].vertices[1].position == place_spec(Vec3 { x: sx, y: sz, z: sy }, dir, pos, td, tp)
            &&& r[off].vertices[2].position == place_spec(Vec3 { x: 0, y: sz, z: sy }, dir, pos, td, tp)
            &&& r[off].vertices[3].position == place_spec(Vec3 { x: 0, y: 0, z: 0 }, dir, pos, td, tp)
            &&& r[off + 1].texture == wall_texture.id.id
            &&& r[off + 1].vertices.len() == 4
            &&& r[off + 1].indices@ == seq![2usize, 3, 0, 1, 2, 0]
            &&& r[off + 1].vertices[0].position == place_spec(Vec3 { x: 0, y: sz, z: 0 }, dir, pos, td, tp)
            &&& r[off + 1].vertices[1].position == place_spec(Vec3 { x: sx, y: sz, z: 0 }, dir, pos, td, tp)
            &&& r[off + 1].vertices[2].position == place_spec(Vec3 { x: sx, y: sz, z: sy }, dir, pos, td, tp)
            &&& r[off + 1].vertices[3].position == place_spec(Vec3 { x: 0, y: sz, z: sy }, dir, pos, td, tp)
            &&& r[off + 2].texture == wall_texture.id.id
            &&& r[off + 2].vertices.len() == 3
            &&& r[off + 2].indices@ == seq![0usize, 2, 1]
            &&& r[off + 2].vertices[0].position == place_spec(Vec3 { x: sx, y: 0, z: 0 }, dir, pos, td, tp)
            &&& r[off + 2].vertices[1].position == place_spec(Vec3 { x: sx, y: sz, z: 0 }, dir, pos, td, tp)
            &&& r[off + 2].vertices[2].position == place_spec(Vec3 { x: sx, y: sz, z: sy }, dir, pos, td, tp)
            &&& r[off + 3].texture == wall_texture.id.id
            &&& r[off + 3].vertices.len() == 3
            &&& r[off + 3].indices@ == seq![1usize, 2, 0]
            &&& r[off + 3].vertices[0].position == place_spec(Vec3 { x: 0, y: 0, z: 0 }, dir, pos, td, tp)
            &&& r[off + 3].vertices[1].position == place_spec(Vec3 { x: 0, y: sz, z: 0 }, dir, pos, td, tp)
            &&& r[off + 3].vertices[2].position == place_spec(Vec3 { x: 0, y: sz, z: sy }, dir, pos, td, tp)
            &&& r[off + 4].texture == bottom_texture.id.id
            &&& r[off + 4].vertices.len() == 4
            &&& r[off + 4].indices@ == seq![2usize, 3, 0, 1, 2, 0]
            &&& r[off + 4].vertices[0].position == place_spec(Vec3 { x: 0, y: 0, z: 0 }, dir, pos, td, tp)
            &&& r[off + 4].vertices[1].position == place_spec(Vec3 { x: sx, y: 0, z: 0 }, dir, pos, td, tp)
            &&& r[off + 4].vertices[2].position == place_spec(Vec3 { x: sx, y: sz, z: 0 }, dir, pos, td, tp)
            &&& r[off + 4].vertices[3].position == place_spec(Vec3 { x: 0, y: sz, z: 0 }, dir, pos, td, tp)
        },
        Modifier::Cliff { walls, on_roof, height, floor_texture } => walls.len() >= 3 ==> {
            let n = walls.len() as int;
            let base: int = if on_roof {
                rh - height
            } else {
                height as int
            };
            let wb: int = if on_roof {
                rh - height
            } else {
                0
            };
            &&& r[off].texture == floor_texture.id.id
            &&& r[off].vertices.len() == n
            &&& r[off].indices.len() == 3 * (n - 2)
            &&& forall|i: int|
                0 <= i < n ==> (#[trigger] r[off].vertices[i]).position == cliff_cap_point(
                    walls@,
                    i,
                    base,
                    td,
                    tp,
                )
            &&& forall|e: int|
                0 <= e < n ==> (#[trigger] r[off + 1 + e]).texture
                    == walls[e].wall_texture.id.id && r[off + 1 + e].vertices.len() == 4 && r[off
                    + 1 + e].indices@ == seq![0usize, 3, 2, 0, 2, 1] && (forall|c: int|
                    0 <= c < 4 ==> (#[trigger] r[off + 1 + e].vertices[c]).position
                        == cliff_wall_corner(walls@, e, c, height as int, wb, td, tp))
        },
        Modifier::Disc { pos, size, sides, dir, top_tex, bottom_tex } => sides.len() >= 3 ==> {
            let n = sides.len() as int;
            &&& r[off].texture == top_tex.id.id
            &&& r[off].vertices.len() == n
            &&& r[off].indices.len() == 3 * (n - 2)
            &&& r[off + 1].texture == bottom_tex.id.id
            &&& r[off + 1].vertices.len() == n
            &&& r[off + 1].indices.len() == 3 * (n - 2)
            &&& r[off].indices@ == r[off + 1].indices@.reverse()
            &&& forall|k: int|
                0 <= k < n ==> (#[trigger] r[off].vertices[k]).position == disc_cap_point(
                    k,
                    n,
                    size,
                    dir,
                    pos,
                    true,
                    td,
                    tp,
                ) && r[off + 1].vertices[k].position == disc_cap_point(
                    k,
                    n,
                    size,
                    dir,
                    pos,
                    false,
                    td,
                    tp,
                )
            &&& forall|e: int|
                0 <= e < n ==> (#[trigger] r[off + 2 + e]).texture == sides[e].id.id && r[off + 2
                    + e].vertices.len() == 4 && r[off + 2 + e].indices@ == seq![2usize, 1, 0, 3, 2, 0]
                    && r[off + 2 + e].vertices[0].position == disc_cap_point(e, n, size, dir, pos, false, td, tp)
                    && r[off + 2 + e].vertices[1].position == disc_cap_point(
                    if e + 1 == n {
                        0int
                    } else {
                        e + 1
                    },
                    n,
                    size,
                    dir,
                    pos,
                    false,
                    td,
                    tp,
                )
                    && r[off + 2 + e].vertices[2].position == disc_cap_point(
                    if e + 1 == n {
                        0int
                    } else {
                        e + 1
                    },
                    n,
                    size,
                    dir,
                    pos,
                    true,
                    td,
                    tp,
                )
                    && r[off + 2 + e].vertices[3].position == disc_cap_point(e, n, size, dir, pos, true, td, tp)
                    && (forall|c: int|
                    0 <= c < 4 ==> (#[trigger] r[off + 2 + e].vertices[c]).tex_coords
                        == sides[e].uv_list(disc_side_frame(e, n, size, dir, pos))[c])
        },
    }
}

impl Modifier {
    /// Meshes the modifier in the frame of its parent room: build the solid
    /// in the modifier's own frame, turn and move it by the modifier's own
    /// placement, then by the room's.  The mesh count is exactly
    /// `mesh_count`, and every mesh's texture, index list and vertex
    /// positions are pinned by `modifier_meshes_ok`; malformed geometry (a
    /// cliff or disc with fewer than three edges) yields no meshes rather
    /// than a failure.
    #[verifier::rlimit(100)]
    #[verifier::spinoff_prover]
    pub fn gen_mesh(&self, true_position: Vec3, true_dir: Rot2, room_height: i64) -> (r: Vec<
        crate::mesh::Mesh,
    >)
        requires
            self.wf(),
            true_position.wf(),
            crate::geom::vec3_in(true_position, crate::geom::WORLD_MAX as int),
            true_dir.wf(),
            0 <= room_height <= crate::geom::WORLD_MAX,
        ensures
            r.len() == self.mesh_count(),
            forall|i: int| 0 <= i < r.len() ==> (#[trigger] r@[i]).wf(),
            modifier_meshes_ok(*self, r@, 0, true_position, true_dir, room_height),
    {
        let mut meshs: Vec<crate::mesh::Mesh> = Vec::new();
        match self {
            Modifier::Ramp { pos, dir, size, ramp_texture, wall_texture, bottom_texture } => {
                let sx = size.x;
                let sy = size.y;
                let sz = size.z;
                let rd = crate::geom::dist(Vec2 { x: sz, y: sy }, Vec2 { x: 0, y: 0 });
                proof {
                    let n2 = (sz as int) * (sz as int) + (sy as int) * (sy as int);
                    assert(0 <= (sz as int) * (sz as int) <= 0x100_0000 * 0x100_0000)
                        by (nonlinear_arith)
                        requires
                            0 <= sz as int <= 0x100_0000,
                    ;
                    assert(0 <= (sy as int) * (sy as int) <= 0x100_0000 * 0x100_0000)
                        by (nonlinear_arith)
                        requires
                            0 <= sy as int <= 0x100_0000,
                    ;
                    assert(n2 <= (crate::geom::COORD_MAX as int) * (crate::geom::COORD_MAX as int))
                        by (nonlinear_arith)
                        requires
                            (sz as int) * (sz as int) <= 0x100_0000 * 0x100_0000,
                            (sy as int) * (sy as int) <= 0x100_0000 * 0x100_0000,
                            n2 == (sz as int) * (sz as int) + (sy as int) * (sy as int),
                            crate::geom::COORD_MAX == 0x4000_0000,
                    ;
                    crate::geom::lemma_sqrt_le(n2, crate::geom::COORD_MAX as int);
                }
                // Top surface.
                let mut ps: Vec<Vec3> = Vec::new();
                ps.push(place(Vec3 { x: sx, y: 0, z: 0 }, *dir, *pos, true_dir, true_position));
                ps.push(place(Vec3 { x: sx, y: sz, z: sy }, *dir, *pos, true_dir, true_position));
                ps.push(place(Vec3 { x: 0, y: sz, z: sy }, *dir, *pos, true_dir, true_position));
                ps.push(place(Vec3 { x: 0, y: 0, z: 0 }, *dir, *pos, true_dir, true_position));
                let mut uv_in: Vec<Vec2> = Vec::new();
                uv_in.push(Vec2 { x: sx, y: 0 });
                uv_in.push(Vec2 { x: sx, y: rd });
                uv_in.push(Vec2 { x: 0, y: rd });
                uv_in.push(Vec2 { x: 0, y: 0 });
                proof {
                    assert(forall|i: int| 0 <= i < uv_in@.len() ==> (#[trigger] uv_in@[i]).wf());
                }
                let uvs = ramp_texture.get_tex_coords(&uv_in);
                meshs.push(crate::mesh::build_mesh(ramp_texture.id.id, &ps, &uvs, crate::mesh::idx6(2, 1, 0, 3, 2, 0)));

                // Front face.
                let mut ps2: Vec<Vec3> = Vec::new();
                ps2.push(place(Vec3 { x: 0, y: sz, z: 0 }, *dir, *pos, true_dir, true_position));
                ps2.push(place(Vec3 { x: sx, y: sz, z: 0 }, *dir, *pos, true_dir, true_position));
                ps2.push(place(Vec3 { x: sx, y: sz, z: sy }, *dir, *pos, true_dir, true_position));
                ps2.push(place(Vec3 { x: 0, y: sz, z: sy }, *dir, *pos, true_dir, true_position));
                let mut uv_in2: Vec<Vec2> = Vec::new();
                uv_in2.push(Vec2 { x: 0, y: 0 });
                uv_in2.push(Vec2 { x: sx, y: 0 });
                uv_in2.push(Vec2 { x: sx, y: sy });
                uv_in2.push(Vec2 { x: 0, y: sy });
                proof {
                    assert(forall|i: int| 0 <= i < uv_in2@.len() ==> (#[trigger] uv_in2@[i]).wf());
                }
                let uvs2 = wall_texture.get_tex_coords(&uv_in2);
                meshs.push(crate::mesh::build_mesh(wall_texture.id.id, &ps2, &uvs2, crate::mesh::idx6(2, 3, 0, 1, 2, 0)));

                // The two triangular side faces.
                let mut uv_in3: Vec<Vec2> = Vec::new();
                uv_in3.push(Vec2 { x: 0, y: 0 });
                uv_in3.push(Vec2 { x: sz, y: 0 });
                uv_in3.push(Vec2 { x: sz, y: sy });
                proof {
                    assert(forall|i: int| 0 <= i < uv_in3@.len() ==> (#[trigger] uv_in3@[i]).wf());
                }
                let uvs3 = wall_texture.get_tex_coords(&uv_in3);
                let mut ps3: Vec<Vec3> = Vec::new();
                ps3.push(place(Vec3 { x: sx, y: 0, z: 0 }, *dir, *pos, true_dir, true_position));
                ps3.push(place(Vec3 { x: sx, y: sz, z: 0 }, *dir, *pos, true_dir, true_position));
                ps3.push(place(Vec3 { x: sx, y: sz, z: sy }, *dir, *pos, true_dir, true_position));
                meshs.push(crate::mesh::build_mesh(wall_texture.id.id, &ps3, &uvs3, crate::mesh::idx3(0, 2, 1)));
                let mut ps4: Vec<Vec3> = Vec::new();
                ps4.push(place(Vec3 { x: 0, y: 0, z: 0 }, *dir, *pos, true_dir, true_position));
                ps4.push(place(Vec3 { x: 0, y: sz, z: 0 }, *dir, *pos, true_dir, true_position));
                ps4.push(place(Vec3 { x: 0, y: sz, z: sy }, *dir, *pos, true_dir, true_position));
                meshs.push(crate::mesh::build_mesh(wall_texture.id.id, &ps4, &uvs3, crate::mesh::idx3(1, 2, 0)));

                // Underside.
                let mut ps5: Vec<Vec3> = Vec::new();
                ps5.push(place(Vec3 { x: 0, y: 0, z: 0 }, *dir, *pos, true_dir, true_position));
                ps5.push(place(Vec3 { x: sx, y: 0, z: 0 }, *dir, *pos, true_dir, true_position));
                ps5.push(place(Vec3 { x: sx, y: sz, z: 0 }, *dir, *pos, true_dir, true_position));
                ps5.push(place(Vec3 { x: 0, y: sz, z: 0 }, *dir, *pos, true_dir, true_position));
                let mut uv_in5: Vec<Vec2> = Vec::new();
                uv_in5.push(Vec2 { x: 0, y: 0 });
                uv_in5.push(Vec2 { x: sx, y: 0 });
                uv_in5.push(Vec2 { x: sx, y: sz });
                uv_in5.push(Vec2 { x: 0, y: sz });
                proof {
                    assert(forall|i: int| 0 <= i < uv_in5@.len() ==> (#[trigger] uv_in5@[i]).wf());
                }
                let uvs5 = bottom_texture.get_tex_coords(&uv_in5);
                meshs.push(crate::mesh::build_mesh(bottom_texture.id.id, &ps5, &uvs5, crate::mesh::idx6(2, 3, 0, 1, 2, 0)));
                proof {
                    assert(modifier_meshes_ok(
                        *self,
                        meshs@,
                        0,
                        true_position,
                        true_dir,
                        room_height,
                    ));
                }
            },
            Modifier::Cliff { walls, on_roof, height, floor_texture } => {
                let n = walls.len();
                if n < 3 {
                    return meshs;
                }
                // Footprint, already turned into the room's frame.
                let mut fp: Vec<Vec2> = Vec::new();
                let mut k: usize = 0;
                while k < n
                    invariant
                        0 <= k <= n == walls.len(),
                        fp.len() == k,
                        forall|i: int| 0 <= i < n ==> (#[trigger] walls[i]).wf(),
                        forall|i: int|
                            0 <= i < n ==> crate::geom::vec2_in(
                                (#[trigger] walls[i]).local_pos,
                                crate::geom::WORLD_MAX as int,
                            ),
                        true_dir.wf(),
                        forall|i: int|
                            0 <= i < k ==> (#[trigger] fp@[i]).wf() && crate::geom::vec2_in(
                                fp@[i],
                                2 * crate::geom::WORLD_MAX as int,
                            ),
                        forall|i: int|
                            0 <= i < k ==> #[trigger] fp@[i] == (Vec2 {
                                x: crate::geom::rot_x(walls[i].local_pos, true_dir) as i64,
                                y: crate::geom::rot_y(walls[i].local_pos, true_dir) as i64,
                            }) && -2 * crate::geom::WORLD_MAX <= crate::geom::rot_x(
                                walls[i].local_pos,
                                true_dir,
                            ) <= 2 * crate::geom::WORLD_MAX && -2 * crate::geom::WORLD_MAX
                                <= crate::geom::rot_y(walls[i].local_pos, true_dir) <= 2
                                * crate::geom::WORLD_MAX,
                    decreases n - k,
                {
                    proof {
                        assert(walls@[k as int].wf());
                        assert(crate::geom::vec2_in(
                            walls@[k as int].local_pos,
                            crate::geom::WORLD_MAX as int,
                        ));
                    }
                    let p = crate::geom::rotate(walls[k].local_pos, true_dir);
                    fp.push(p);
                    k = k + 1;
                }
                proof {
                    assert(forall|i: int| 0 <= i < fp@.len() ==> (#[trigger] fp@[i]).wf());
                }
                let tris = crate::tri::triangulate(&fp);
                let a2 = crate::ring::signed_area2(&fp);
                let rev: bool = (a2 > 0) != *on_roof;
                let fidx = crate::tri::flat_indices(&tris, n, rev);
                let base_y: i64 = if *on_roof {
                    room_height - *height
                } else {
                    *height
                };
                let mut ps: Vec<Vec3> = Vec::new();
                let mut k2: usize = 0;
                while k2 < n
                    invariant
                        0 <= k2 <= n,
                        n == walls.len(),
                        fp.len() == n,
                        ps.len() == k2,
                        true_dir.wf(),
                        forall|i: int|
                            0 <= i < n ==> crate::geom::vec2_in(
                                #[trigger] fp@[i],
                                2 * crate::geom::WORLD_MAX as int,
                            ),
                        forall|i: int|
                            0 <= i < n ==> #[trigger] fp@[i] == (Vec2 {
                                x: crate::geom::rot_x(walls[i].local_pos, true_dir) as i64,
                                y: crate::geom::rot_y(walls[i].local_pos, true_dir) as i64,
                            }) && -2 * crate::geom::WORLD_MAX <= crate::geom::rot_x(
                                walls[i].local_pos,
                                true_dir,
                            ) <= 2 * crate::geom::WORLD_MAX && -2 * crate::geom::WORLD_MAX
                                <= crate::geom::rot_y(walls[i].local_pos, true_dir) <= 2
                                * crate::geom::WORLD_MAX,
                        crate::geom::vec3_in(true_position, crate::geom::WORLD_MAX as int),
                        -2 * crate::geom::WORLD_MAX <= base_y <= 2 * crate::geom::WORLD_MAX,
                        forall|i: int|
                            0 <= i < k2 ==> #[trigger] ps@[i] == cliff_cap_point(
                                walls@,
                                i,
                                base_y as int,
                                true_dir,
                                true_position,
                            ),
                    decreases n - k2,
                {
                    proof {
                        assert(crate::geom::vec2_in(fp@[k2 as int], 2 * crate::geom::WORLD_MAX as int));
                    }
                    let p = fp[k2];
                    ps.push(
                        Vec3 {
                            x: p.x + true_position.x,
                            y: base_y + true_position.y,
                            z: p.y + true_position.z,
                        },
                    );
                    k2 = k2 + 1;
                }
                let uvs = floor_texture.get_tex_coords(&fp);
                meshs.push(crate::mesh::build_mesh(floor_texture.id.id, &ps, &uvs, fidx));
                // One quad wall per footprint edge.
                let wall_base: i64 = if *on_roof {
                    room_height - *height
                } else {
                    0
                };
                let mut e: usize = 0;
                while e < n
                    invariant
                        0 <= e <= n == walls.len(),
                        3 <= n,
                        meshs.len() == 1 + e,
                        forall|i: int| 0 <= i < meshs.len() ==> (#[trigger] meshs@[i]).wf(),
                        meshs@[0].texture == floor_texture.id.id,
                        meshs@[0].vertices.len() == n,
                        meshs@[0].indices.len() == 3 * (n - 2),
                        forall|i: int|
                            0 <= i < n ==> (#[trigger] meshs@[0].vertices[i]).position
                                == cliff_cap_point(walls@, i, base_y as int, true_dir, true_position),
                        base_y as int == if *on_roof {
                            room_height - *height
                        } else {
                            *height as int
                        },
                        wall_base as int == if *on_roof {
                            room_height - *height
                        } else {
                            0int
                        },
                        forall|ee: int|
                            0 <= ee < e ==> (#[trigger] meshs@[1 + ee]).texture
                                == walls[ee].wall_texture.id.id && meshs@[1 + ee].vertices.len()
                                == 4 && meshs@[1 + ee].indices@ == seq![0usize, 3, 2, 0, 2, 1] && (
                            forall|cc: int|
                                0 <= cc < 4 ==> (#[trigger] meshs@[1 + ee].vertices[cc]).position
                                    == cliff_wall_corner(
                                    walls@,
                                    ee,
                                    cc,
                                    *height as int,
                                    wall_base as int,
                                    true_dir,
                                    true_position,
                                )),
                        forall|i: int| 0 <= i < n ==> (#[trigger] walls[i]).wf(),
                        forall|i: int|
                            0 <= i < n ==> crate::geom::vec2_in(
                                (#[trigger] walls[i]).local_pos,
                                crate::geom::WORLD_MAX as int,
                            ),
                        true_dir.wf(),
                        crate::geom::vec3_in(true_position, crate::geom::WORLD_MAX as int),
                        0 <= *height <= crate::geom::WORLD_MAX,
                        -2 * crate::geom::WORLD_MAX <= wall_base <= 2 * crate::geom::WORLD_MAX,
                        (*floor_texture).wf(),
                    decreases n - e,
                {
                    proof {
                        assert(walls@[e as int].wf());
                        assert(walls@[if e + 1 == n { 0int } else { e as int + 1 }].wf());
                        assert(crate::geom::vec2_in(
                            walls@[e as int].local_pos,
                            crate::geom::WORLD_MAX as int,
                        ));
                        assert(crate::geom::vec2_in(
                            walls@[if e + 1 == n { 0int } else { e as int + 1 }].local_pos,
                            crate::geom::WORLD_MAX as int,
                        ));
                    }
                    let w1 = walls[e];
                    let w2 = walls[if e + 1 == n {
                        0
                    } else {
                        e + 1
                    }];
                    let seg_l = crate::geom::dist(w1.local_pos, w2.local_pos);
                    proof {
                        let dx = w1.local_pos.x - w2.local_pos.x;
                        let dy = w1.local_pos.y - w2.local_pos.y;
                        assert(0 <= dx * dx + dy * dy <= (crate::geom::COORD_MAX as int) * (
                        crate::geom::COORD_MAX as int)) by (nonlinear_arith)
                            requires
                                -2 * crate::geom::WORLD_MAX <= dx <= 2 * crate::geom::WORLD_MAX,
                                -2 * crate::geom::WORLD_MAX <= dy <= 2 * crate::geom::WORLD_MAX,
                                crate::geom::WORLD_MAX == 0x100_0000,
                                crate::geom::COORD_MAX == 0x4000_0000,
                        ;
                        crate::geom::lemma_sqrt_le(
                            dx * dx + dy * dy,
                            crate::geom::COORD_MAX as int,
                        );
                    }
                    let d2 = crate::geom::unit_of(
                        Vec2 { x: w2.local_pos.x - w1.local_pos.x, y: w2.local_pos.y - w1.local_pos.y },
                    );
                    let mut ps2: Vec<Vec3> = Vec::new();
                    let mut uv_in: Vec<Vec2> = Vec::new();
                    uv_in.push(Vec2 { x: 0, y: 0 });
                    uv_in.push(Vec2 { x: seg_l, y: 0 });
                    uv_in.push(Vec2 { x: seg_l, y: *height });
                    uv_in.push(Vec2 { x: 0, y: *height });
                    proof {
                        assert(forall|i: int|
                            0 <= i < uv_in@.len() ==> (#[trigger] uv_in@[i]).wf());
                        assert(uv_in@ =~= seq![
                            Vec2 { x: 0, y: 0 },
                            Vec2 { x: seg_l, y: 0 },
                            Vec2 { x: seg_l, y: *height },
                            Vec2 { x: 0, y: *height },
                        ]);
                    }
                    let mut c: usize = 0;
                    while c < 4
                        invariant
                            0 <= c <= 4,
                            ps2.len() == c,
                            uv_in.len() == 4,
                            n == walls.len(),
                            e < n,
                            3 <= n,
                            forall|i: int| 0 <= i < 4 ==> (#[trigger] uv_in@[i]).wf(),
                            uv_in@ == seq![
                                Vec2 { x: 0, y: 0 },
                                Vec2 { x: seg_l, y: 0 },
                                Vec2 { x: seg_l, y: *height },
                                Vec2 { x: 0, y: *height },
                            ],
                            w1 == walls[e as int],
                            w2 == walls[if e + 1 == n {
                                0int
                            } else {
                                e as int + 1
                            }],
                            seg_l == crate::geom::dist_spec(w1.local_pos, w2.local_pos),
                            d2 == crate::geom::unit_spec(
                                Vec2 {
                                    x: (w2.local_pos.x - w1.local_pos.x) as i64,
                                    y: (w2.local_pos.y - w1.local_pos.y) as i64,
                                },
                            ),
                            d2.wf(),
                            w1.wf(),
                            crate::geom::vec2_in(w1.local_pos, crate::geom::WORLD_MAX as int),
                            true_dir.wf(),
                            crate::geom::vec3_in(true_position, crate::geom::WORLD_MAX as int),
                            -2 * crate::geom::WORLD_MAX <= wall_base <= 2 * crate::geom::WORLD_MAX,
                            0 <= seg_l <= crate::geom::COORD_MAX,
                            0 <= *height <= crate::geom::WORLD_MAX,
                            forall|i: int|
                                0 <= i < c ==> #[trigger] ps2@[i] == cliff_wall_corner(
                                    walls@,
                                    e as int,
                                    i,
                                    *height as int,
                                    wall_base as int,
                                    true_dir,
                                    true_position,
                                ),
                        decreases 4 - c,
                    {
                        let pt = uv_in[c];
                        let lx = crate::geom::mul_fx_unit(pt.x, d2.c) + w1.local_pos.x;
                        let ly = crate::geom::mul_fx_unit(pt.x, d2.s) + w1.local_pos.y;
                        let rot = crate::geom::rotate(Vec2 { x: lx, y: ly }, true_dir);
                        ps2.push(
                            Vec3 {
                                x: rot.x + true_position.x,
                                y: pt.y + wall_base + true_position.y,
                                z: rot.y + true_position.z,
                            },
                        );
                        c = c + 1;
                    }
                    let uvs2 = w1.wall_texture.get_tex_coords(&uv_in);
                    meshs.push(
                        crate::mesh::build_mesh(w1.wall_texture.id.id, &ps2, &uvs2, crate::mesh::idx6(0, 3, 2, 0, 2, 1)),
                    );
                    e = e + 1;
                }
                proof {
                    assert(modifier_meshes_ok(
                        *self,
                        meshs@,
                        0,
                        true_position,
                        true_dir,
                        room_height,
                    ));
                }
            },
            Modifier::Disc { pos, size, sides, dir, top_tex, bottom_tex } => {
                let n = sides.len();
                if n < 3 {
                    return meshs;
                }
                let sy2 = crate::geom::idiv(size.y, 2);
                proof {
                    crate::geom::lemma_divt_scale(
                        size.y as int,
                        2,
                        crate::geom::WORLD_MAX as int,
                    );
                }
                let mut fp: Vec<Vec2> = Vec::new();
                let mut k: usize = 0;
                while k < n
                    invariant
                        0 <= k <= n == sides.len(),
                        3 <= n <= 4096,
                        fp.len() == k,
                        dir.wf(),
                        0 <= size.x <= crate::geom::WORLD_MAX,
                        0 <= size.z <= crate::geom::WORLD_MAX,
                        forall|i: int|
                            0 <= i < k ==> (#[trigger] fp@[i]).wf() && crate::geom::vec2_in(
                                fp@[i],
                                2 * crate::geom::WORLD_MAX as int,
                            ),
                        forall|i: int|
                            0 <= i < k ==> #[trigger] fp@[i] == disc_fp(i, n as int, *size, *dir),
                    decreases n - k,
                {
                    let cp = circle_point(k, n);
                    let bx = crate::geom::mul_fx_unit(size.x, cp.c);
                    let bz = crate::geom::mul_fx_unit(size.z, cp.s);
                    let p = crate::geom::rotate(Vec2 { x: bx, y: bz }, *dir);
                    fp.push(p);
                    k = k + 1;
                }
                proof {
                    assert(forall|i: int| 0 <= i < fp@.len() ==> (#[trigger] fp@[i]).wf());
                }
                let tris = crate::tri::triangulate(&fp);
                let bottom_idx = crate::tri::flat_indices(&tris, n, false);
                let top_idx = crate::tri::flat_indices(&tris, n, true);
                let top_uv = top_tex.get_tex_coords(&fp);
                let bottom_uv = bottom_tex.get_tex_coords(&fp);
                let mut bottom_ps: Vec<Vec3> = Vec::new();
                let mut top_ps: Vec<Vec3> = Vec::new();
                let ident = Rot2::identity();
                let mut k2: usize = 0;
                while k2 < n
                    invariant
                        0 <= k2 <= n,
                        n == sides.len(),
                        fp.len() == n,
                        bottom_ps.len() == k2,
                        top_ps.len() == k2,
                        ident == (Rot2 { c: crate::geom::FP_ONE, s: 0 }),
                        true_dir.wf(),
                        crate::geom::vec3_in(true_position, crate::geom::WORLD_MAX as int),
                        crate::geom::vec3_in(*pos, crate::geom::WORLD_MAX as int),
                        0 <= sy2 <= crate::geom::WORLD_MAX,
                        sy2 as int == crate::geom::divt(size.y as int, 2),
                        forall|i: int|
                            0 <= i < n ==> crate::geom::vec2_in(
                                #[trigger] fp@[i],
                                2 * crate::geom::WORLD_MAX as int,
                            ),
                        forall|i: int|
                            0 <= i < n ==> #[trigger] fp@[i] == disc_fp(i, n as int, *size, *dir),
                        forall|i: int|
                            0 <= i < k2 ==> #[trigger] bottom_ps@[i] == disc_cap_point(
                                i,
                                n as int,
                                *size,
                                *dir,
                                *pos,
                                false,
                                true_dir,
                                true_position,
                            ) && top_ps@[i] == disc_cap_point(
                                i,
                                n as int,
                                *size,
                                *dir,
                                *pos,
                                true,
                                true_dir,
                                true_position,
                            ),
                    decreases n - k2,
                {
                    proof {
                        assert(crate::geom::vec2_in(
                            fp@[k2 as int],
                            2 * crate::geom::WORLD_MAX as int,
                        ));
                    }
                    let p = fp[k2];
                    bottom_ps.push(
                        place(
                            Vec3 { x: p.x, y: p.y, z: -sy2 },
                            ident,
                            *pos,
                            true_dir,
                            true_position,
                        ),
                    );
                    top_ps.push(
                        place(Vec3 { x: p.x, y: p.y, z: sy2 }, ident, *pos, true_dir, true_position),
                    );
                    k2 = k2 + 1;
                }
                meshs.push(crate::mesh::build_mesh(top_tex.id.id, &top_ps, &top_uv, top_idx));
                meshs.push(crate::mesh::build_mesh(bottom_tex.id.id, &bottom_ps, &bottom_uv, bottom_idx));
                proof {
                    assert(meshs@[0].indices@ == meshs@[1].indices@.reverse());
                    assert forall|i: int| 0 <= i < n implies (#[trigger] meshs@[0].vertices[i]).position
                        == disc_cap_point(
                        i,
                        n as int,
                        *size,
                        *dir,
                        *pos,
                        true,
                        true_dir,
                        true_position,
                    ) && meshs@[1].vertices[i].position == disc_cap_point(
                        i,
                        n as int,
                        *size,
                        *dir,
                        *pos,
                        false,
                        true_dir,
                        true_position,
                    ) by {
                        assert(meshs@[0].vertices[i].position == top_ps@[i]);
                        assert(meshs@[1].vertices[i].position == bottom_ps@[i]);
                    }
                }
                // One quad per side, textured by running distance.
                let mut e: usize = 0;
                while e < n
                    invariant
                        0 <= e <= n == sides.len(),
                        3 <= n,
                        fp.len() == n,
                        meshs.len() == 2 + e,
                        forall|i: int| 0 <= i < meshs.len() ==> (#[trigger] meshs@[i]).wf(),
                        forall|i: int| 0 <= i < n ==> (#[trigger] sides[i]).wf(),
                        meshs@[0].texture == top_tex.id.id,
                        meshs@[0].vertices.len() == n,
                        meshs@[0].indices.len() == 3 * (n - 2),
                        meshs@[1].texture == bottom_tex.id.id,
                        meshs@[1].vertices.len() == n,
                        meshs@[1].indices.len() == 3 * (n - 2),
                        meshs@[0].indices@ == meshs@[1].indices@.reverse(),
                        forall|i: int|
                            0 <= i < n ==> (#[trigger] meshs@[0].vertices[i]).position
                                == disc_cap_point(
                                i,
                                n as int,
                                *size,
                                *dir,
                                *pos,
                                true,
                                true_dir,
                                true_position,
                            ) && meshs@[1].vertices[i].position == disc_cap_point(
                                i,
                                n as int,
                                *size,
                                *dir,
                                *pos,
                                false,
                                true_dir,
                                true_position,
                            ),
                        forall|ee: int|
                            0 <= ee < e ==> (#[trigger] meshs@[2 + ee]).texture
                                == sides[ee].id.id && meshs@[2 + ee].vertices.len() == 4 && meshs@[2
                                + ee].indices@ == seq![2usize, 1, 0, 3, 2, 0] && (forall|c: int|
                                0 <= c < 4 ==> (#[trigger] meshs@[2 + ee].vertices[c]).tex_coords
                                    == sides[ee].uv_list(
                                    disc_side_frame(ee, n as int, *size, *dir, *pos),
                                )[c]) && meshs@[2
                                + ee].vertices[0].position == disc_cap_point(
                                ee,
                                n as int,
                                *size,
                                *dir,
                                *pos,
                                false,
                                true_dir,
                                true_position,
                            ) && meshs@[2 + ee].vertices[1].position == disc_cap_point(
                                if ee + 1 == n {
                                    0int
                                } else {
                                    ee + 1
                                },
                                n as int,
                                *size,
                                *dir,
                                *pos,
                                false,
                                true_dir,
                                true_position,
                            ) && meshs@[2 + ee].vertices[2].position == disc_cap_point(
                                if ee + 1 == n {
                                    0int
                                } else {
                                    ee + 1
                                },
                                n as int,
                                *size,
                                *dir,
                                *pos,
                                true,
                                true_dir,
                                true_position,
                            ) && meshs@[2 + ee].vertices[3].position == disc_cap_point(
                                ee,
                                n as int,
                                *size,
                                *dir,
                                *pos,
                                true,
                                true_dir,
                                true_position,
                            ),
                        ident == (Rot2 { c: crate::geom::FP_ONE, s: 0 }),
                        true_dir.wf(),
                        crate::geom::vec3_in(true_position, crate::geom::WORLD_MAX as int),
                        crate::geom::vec3_in(*pos, crate::geom::WORLD_MAX as int),
                        0 <= sy2 <= crate::geom::WORLD_MAX,
                        sy2 as int == crate::geom::divt(size.y as int, 2),
                        forall|i: int|
                            0 <= i < n ==> (#[trigger] fp@[i]).wf() && crate::geom::vec2_in(
                                fp@[i],
                                2 * crate::geom::WORLD_MAX as int,
                            ),
                        forall|i: int|
                            0 <= i < n ==> #[trigger] fp@[i] == disc_fp(i, n as int, *size, *dir),
                    decreases n - e,
                {
                    proof {
                        assert(fp@[e as int].wf());
                        assert(fp@[if e + 1 == n { 0int } else { e as int + 1 }].wf());
                        assert(sides@[e as int].wf());
                    }
                    let p1 = fp[e];
                    let p2 = fp[if e + 1 == n {
                        0
                    } else {
                        e + 1
                    }];
                    let sd = crate::geom::dist(p1, p2);
                    proof {
                        let dx = p1.x - p2.x;
                        let dy = p1.y - p2.y;
                        assert(0 <= dx * dx + dy * dy <= (crate::geom::COORD_MAX as int) * (
                        crate::geom::COORD_MAX as int)) by (nonlinear_arith)
                            requires
                                -4 * crate::geom::WORLD_MAX <= dx <= 4 * crate::geom::WORLD_MAX,
                                -4 * crate::geom::WORLD_MAX <= dy <= 4 * crate::geom::WORLD_MAX,
                                crate::geom::WORLD_MAX == 0x100_0000,
                                crate::geom::COORD_MAX == 0x4000_0000,
                        ;
                        crate::geom::lemma_sqrt_le(
                            dx * dx + dy * dy,
                            crate::geom::COORD_MAX as int,
                        );
                    }
                    let mut uv_in: Vec<Vec2> = Vec::new();
                    uv_in.push(Vec2 { x: 0, y: pos.y - sy2 });
                    uv_in.push(Vec2 { x: sd, y: pos.y - sy2 });
                    uv_in.push(Vec2 { x: sd, y: pos.y + sy2 });
                    uv_in.push(Vec2 { x: 0, y: pos.y + sy2 });
                    proof {
                        assert(forall|i: int|
                            0 <= i < uv_in@.len() ==> (#[trigger] uv_in@[i]).wf());
                        assert(uv_in@ =~= disc_side_frame(e as int, n as int, *size, *dir, *pos));
                    }
                    let uvs = sides[e].get_tex_coords(&uv_in);
                    let mut ps2: Vec<Vec3> = Vec::new();
                    ps2.push(
                        place(
                            Vec3 { x: p1.x, y: p1.y, z: -sy2 },
                            ident,
                            *pos,
                            true_dir,
                            true_position,
                        ),
                    );
                    ps2.push(
                        place(
                            Vec3 { x: p2.x, y: p2.y, z: -sy2 },
                            ident,
                            *pos,
                            true_dir,
                            true_position,
                        ),
                    );
                    ps2.push(
                        place(
                            Vec3 { x: p2.x, y: p2.y, z: sy2 },
                            ident,
                            *pos,
                            true_dir,
                            true_position,
                        ),
                    );
                    ps2.push(
                        place(
                            Vec3 { x: p1.x, y: p1.y, z: sy2 },
                            ident,
                            *pos,
                            true_dir,
                            true_position,
                        ),
                    );
                    meshs.push(crate::mesh::build_mesh(sides[e].id.id, &ps2, &uvs, crate::mesh::idx6(2, 1, 0, 3, 2, 0)));
                    e = e + 1;
                }
                proof {
                    assert(modifier_meshes_ok(
                        *self,
                        meshs@,
                        0,
                        true_position,
                        true_dir,
                        room_height,
                    ));
                }
            },
        }
        meshs
    }
}



/// A modifier's mesh block keeps its facts wherever its meshes reappear:
/// if `r2` holds the same block starting at `off2` that `r` holds at
/// `off`, every fact moves over.
#[verifier::rlimit(100)]
#[verifier::spinoff_prover]
pub proof fn lemma_modifier_ok_translate(
    m: Modifier,
    r: Seq<crate::mesh::Mesh>,
    r2: Seq<crate::mesh::Mesh>,
    off: int,
    off2: int,
    tp: Vec3,
    td: Rot2,
    rh: i64,
)
    requires
        modifier_meshes_ok(m, r, off, tp, td, rh),
        0 <= off,
        off + m.mesh_count() <= r.len(),
        0 <= off2,
        off2 + m.mesh_count() <= r2.len(),
        forall|i: int| 0 <= i < m.mesh_count() ==> #[trigger] r2[off2 + i] == r[off + i],
    ensures
        modifier_meshes_ok(m, r2, off2, tp, td, rh),
{
    match m {
        Modifier::Ramp { .. } => {
            assert(r2[off2 + 0] == r[off + 0] && r2[off2 + 1] == r[off + 1] && r2[off2 + 2] == r[off
                + 2] && r2[off2 + 3] == r[off + 3] && r2[off2 + 4] == r[off + 4]);
            assert(r2[off2] == r[off]);
        },
        Modifier::Cliff { walls, on_roof, height, floor_texture } => {
            if walls.len() >= 3 {
                let n = walls.len() as int;
                let wb: int = if on_roof {
                    rh - height
                } else {
                    0
                };
                assert(r2[off2 + 0] == r[off + 0]);
                assert(r2[off2] == r[off]);
                assert forall|e: int| 0 <= e < n implies #[trigger] r2[off2 + 1 + e] == r[off + 1
                    + e] by {
                    let i = 1 + e;
                    assert(r2[off2 + i] == r[off + i]);
                }
                assert forall|e: int, c: int| 0 <= e < n && 0 <= c < 4 implies (#[trigger] r2[off2
                    + 1 + e].vertices[c]).position == cliff_wall_corner(
                    walls@,
                    e,
                    c,
                    height as int,
                    wb,
                    td,
                    tp,
                ) by {
                    assert(r[off + 1 + e].vertices[c].position == cliff_wall_corner(
                        walls@,
                        e,
                        c,
                        height as int,
                        wb,
                        td,
                        tp,
                    ));
                    assert(r2[off2 + 1 + e] == r[off + 1 + e]);
                }
            }
        },
        Modifier::Disc { pos, size, sides, dir, top_tex, bottom_tex } => {
            if sides.len() >= 3 {
                let n = sides.len() as int;
                assert(r2[off2 + 0] == r[off + 0] && r2[off2 + 1] == r[off + 1]);
                assert(r2[off2] == r[off]);
                assert forall|e: int| 0 <= e < n implies #[trigger] r2[off2 + 2 + e] == r[off + 2
                    + e] by {
                    let i = 2 + e;
                    assert(r2[off2 + i] == r[off + i]);
                }
                assert forall|k: int| 0 <= k < n implies (#[trigger] r2[off2].vertices[k]).position
                    == disc_cap_point(k, n, size, dir, pos, true, td, tp)
                    && r2[off2 + 1].vertices[k].position == disc_cap_point(
                    k,
                    n,
                    size,
                    dir,
                    pos,
                    false,
                    td,
                    tp,
                ) by {
                    assert(r[off].vertices[k].position == disc_cap_point(
                        k,
                        n,
                        size,
                        dir,
                        pos,
                        true,
                        td,
                        tp,
                    ));
                    assert(r[off + 1].vertices[k].position == disc_cap_point(
                        k,
                        n,
                        size,
                        dir,
                        pos,
                        false,
                        td,
                        tp,
                    ));
                }
                assert forall|e: int| 0 <= e < n implies (#[trigger] r2[off2 + 2 + e]).texture
                    == sides[e].id.id && r2[off2 + 2 + e].vertices.len() == 4 && r2[off2 + 2
                    + e].indices@ == seq![2usize, 1, 0, 3, 2, 0] && r2[off2 + 2
                    + e].vertices[0].position == disc_cap_point(e, n, size, dir, pos, false, td, tp)
                    && r2[off2 + 2 + e].vertices[1].position == disc_cap_point(
                    if e + 1 == n {
                        0int
                    } else {
                        e + 1
                    },
                    n,
                    size,
                    dir,
                    pos,
                    false,
                    td,
                    tp,
                ) && r2[off2 + 2 + e].vertices[2].position == disc_cap_point(
                    if e + 1 == n {
                        0int
                    } else {
                        e + 1
                    },
                    n,
                    size,
                    dir,
                    pos,
                    true,
                    td,
                    tp,
                ) && r2[off2 + 2 + e].vertices[3].position == disc_cap_point(
                    e,
                    n,
                    size,
                    dir,
                    pos,
                    true,
                    td,
                    tp,
                ) by {
                    assert(r[off + 2 + e].texture == sides[e].id.id);
                    assert(r2[off2 + 2 + e] == r[off + 2 + e]);
                }
                assert forall|e: int, c: int| 0 <= e < n && 0 <= c < 4 implies (#[trigger] r2[off2
                    + 2 + e].vertices[c]).tex_coords == sides[e].uv_list(
                    disc_side_frame(e, n, size, dir, pos),
                )[c] by {
                    assert(r[off + 2 + e].texture == sides[e].id.id);
                    assert(r[off + 2 + e].vertices[c].tex_coords == sides[e].uv_list(
                        disc_side_frame(e, n, size, dir, pos),
                    )[c]);
                    assert(r2[off2 + 2 + e] == r[off + 2 + e]);
                }
            }
        },
    }
}

/// Shifting a modifier's mesh block to the end of a prefix keeps the
/// block's facts, at the prefix's length as the new offset.
pub proof fn lemma_modifier_ok_shift(
    m: Modifier,
    ms: Seq<crate::mesh::Mesh>,
    pre: Seq<crate::mesh::Mesh>,
    tp: Vec3,
    td: Rot2,
    rh: i64,
)
    requires
        modifier_meshes_ok(m, ms, 0, tp, td, rh),
        ms.len() == m.mesh_count(),
    ensures
        modifier_meshes_ok(m, pre + ms, pre.len() as int, tp, td, rh),
{
    let off2 = pre.len() as int;
    let r2 = pre + ms;
    assert forall|i: int| 0 <= i < m.mesh_count() implies #[trigger] r2[off2 + i] == ms[0
        + i] by {
        assert(r2[off2 + i] == ms[i]);
        assert(ms[0 + i] == ms[i]);
    }
    lemma_modifier_ok_translate(m, ms, r2, 0, off2, tp, td, rh);
}

/// A modifier's mesh block keeps its facts when the list grows beyond it.
pub proof fn lemma_modifier_ok_prefix(
    m: Modifier,
    r: Seq<crate::mesh::Mesh>,
    r2: Seq<crate::mesh::Mesh>,
    off: int,
    tp: Vec3,
    td: Rot2,
    rh: i64,
)
    requires
        modifier_meshes_ok(m, r, off, tp, td, rh),
        0 <= off,
        off + m.mesh_count() <= r.len(),
        r.len() <= r2.len(),
        forall|i: int| 0 <= i < r.len() ==> r2[i] == #[trigger] r[i],
    ensures
        modifier_meshes_ok(m, r2, off, tp, td, rh),
{
    assert forall|i: int| 0 <= i < m.mesh_count() implies #[trigger] r2[off + i] == r[off + i] by {
        assert(r2[off + i] == r[off + i]);
    }
    lemma_modifier_ok_translate(m, r, r2, off, off, tp, td, rh);
}

/// Total meshes a list of modifiers generates.
pub open spec fn mods_mesh_count(s: Seq<Modifier>) -> int
    decreases s.len(),
{
    if s.len() == 0 {
        0
    } else {
        mods_mesh_count(s.drop_last()) + s.last().mesh_count()
    }
}

/// Prefix sums of modifier mesh counts never shrink.
pub proof fn lemma_mods_count_mono(s: Seq<Modifier>, a: int, b: int)
    requires
        0 <= a <= b <= s.len(),
    ensures
        mods_mesh_count(s.subrange(0, a)) <= mods_mesh_count(s.subrange(0, b)),
    decreases b - a,
{
    if a < b {
        lemma_mods_count_mono(s, a, b - 1);
        assert(s.subrange(0, b).drop_last() =~= s.subrange(0, b - 1));
        assert(s.subrange(0, b).last() == s[b - 1]);
        assert(s[b - 1].mesh_count() >= 0);
    }
}

/// A modifier list never generates negatively many meshes.
pub proof fn lemma_mods_mesh_count_nonneg(s: Seq<Modifier>)
    ensures
        mods_mesh_count(s) >= 0,
    decreases s.len(),
{
    if s.len() > 0 {
        lemma_mods_mesh_count_nonneg(s.drop_last());
    }
}

} // verus!
