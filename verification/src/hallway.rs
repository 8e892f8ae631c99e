//! Hallways: ruled tubes between oriented control rectangles, re-anchored to
//! doors of rooms while both references stay alive.

use vstd::prelude::*;

use crate::geom::{Rot2, Vec2, Vec3};
use crate::room::{DoorId, Room, RoomId};
use crate::texture::MeshTex;

verus! {

/// An oriented rectangle anchoring a hallway cross-section.
#[derive(Clone, Copy, PartialEq, Eq, Structural, Debug)]
pub struct ControlRect {
    pub position: Vec3,
    pub rotation: Rot2,
    pub size: Vec2,
}

impl ControlRect {
    pub open spec fn wf(self) -> bool {
        &&& self.position.wf()
        &&& crate::geom::vec3_in(self.position, 7 * crate::geom::WORLD_MAX as int)
        &&& self.rotation.wf()
        &&& self.size.wf()
        &&& 0 <= self.size.x <= crate::geom::WORLD_MAX
        &&& 0 <= self.size.y <= crate::geom::WORLD_MAX
    }

    pub fn new(position: Vec3, rotation: Rot2, size: Vec2) -> (r: ControlRect)
        ensures
            r.position == position,
            r.rotation == rotation,
            r.size == size,
    {
        ControlRect { position, rotation, size }
    }
}

/// The four textures of one hallway span.
#[derive(Clone, Copy, PartialEq, Eq, Structural, Debug)]
pub struct HallWayTexData {
    pub top: MeshTex,
    pub bottom: MeshTex,
    pub left: MeshTex,
    pub right: MeshTex,
}

impl HallWayTexData {
    pub open spec fn wf(self) -> bool {
        self.top.wf() && self.bottom.wf() && self.left.wf() && self.right.wf()
    }

    /// The same texture on all four sides.
    pub fn all(mesh_tex: MeshTex) -> (r: HallWayTexData)
        ensures
            r.top == mesh_tex,
            r.bottom == mesh_tex,
            r.left == mesh_tex,
            r.right == mesh_tex,
    {
        HallWayTexData { top: mesh_tex, bottom: mesh_tex, left: mesh_tex, right: mesh_tex }
    }
}

/// An optional binding of a hallway end to a room's door.
#[derive(Clone, Copy, PartialEq, Eq, Structural, Debug)]
pub struct DoorLocation {
    pub room_index: Option<RoomId>,
    pub door_id: Option<DoorId>,
    pub enabled: bool,
}


/// The first room stored under `id`, if any.
pub open spec fn find_room(rooms: Seq<(RoomId, Room)>, id: RoomId) -> Option<Room>
    decreases rooms.len(),
{
    if rooms.len() == 0 {
        None
    } else if rooms[0].0 == id {
        Some(rooms[0].1)
    } else {
        find_room(rooms.drop_first(), id)
    }
}

/// Finds the room stored under `id`.
pub fn lookup_room(rooms: &Vec<(RoomId, Room)>, id: RoomId) -> (r: Option<&Room>)
    ensures
        match r {
            Some(room) => find_room(rooms@, id) == Some(*room),
            None => find_room(rooms@, id) is None,
        },
{
    let n = rooms.len();
    let mut k: usize = 0;
    proof {
        assert(rooms@.subrange(0, n as int) =~= rooms@);
    }
    while k < n
        invariant
            0 <= k <= n == rooms.len(),
            find_room(rooms@, id) == find_room(rooms@.subrange(k as int, n as int), id),
        decreases n - k,
    {
        proof {
            let suf = rooms@.subrange(k as int, n as int);
            assert(suf[0] == rooms@[k as int]);
            assert(suf.drop_first() =~= rooms@.subrange(k as int + 1, n as int));
        }
        if rooms[k].0.0 == id.0 {
            proof {
                assert(rooms@[k as int].0 == id);
            }
            return Some(&rooms[k].1);
        }
        k = k + 1;
    }
    proof {
        assert(rooms@.subrange(n as int, n as int).len() == 0);
    }
    None
}

/// A hallway: a start and end control rectangle, optional middle waypoints
/// each with the textures of the span they begin, and two optional live
/// bindings to doors.
#[derive(Clone, Debug)]
pub struct HallWay {
    pub start: ControlRect,
    pub start_texture: HallWayTexData,
    pub middle: Vec<(ControlRect, HallWayTexData)>,
    pub end: ControlRect,
    pub start_location: DoorLocation,
    pub end_location: DoorLocation,
}

/// What one end's control rectangle becomes on an update: when the binding
/// is enabled and both its room and its door still exist, the rectangle that
/// door defines now; otherwise the rectangle it had.
pub open spec fn updated_rect(
    loc: DoorLocation,
    cur: ControlRect,
    rooms: Seq<(RoomId, Room)>,
    away: bool,
) -> ControlRect {
    if loc.enabled {
        match loc.room_index {
            Some(rid) => match loc.door_id {
                Some(did) => match find_room(rooms, rid) {
                    Some(room) => match crate::room::find_door(room.doors@, did) {
                        Some(d) => crate::room::spec_control_rect(room, d, away),
                        None => cur,
                    },
                    None => cur,
                },
                None => cur,
            },
            None => cur,
        }
    } else {
        cur
    }
}

pub open spec fn rooms_wf(rooms: Seq<(RoomId, Room)>) -> bool {
    forall|i: int| 0 <= i < rooms.len() ==> (#[trigger] rooms[i]).1.wf()
}

impl HallWay {
    pub open spec fn wf(self) -> bool {
        &&& self.start.wf()
        &&& self.end.wf()
        &&& self.start_texture.wf()
        &&& self.middle.len() <= 4096
        &&& forall|i: int|
            0 <= i < self.middle.len() ==> (#[trigger] self.middle[i]).0.wf()
                && self.middle[i].1.wf()
    }

    /// A hallway between two rectangles with one texture set and no live
    /// door bindings.
    pub fn new(start: ControlRect, end: ControlRect, texture: HallWayTexData) -> (r: HallWay)
        ensures
            r.start == start,
            r.end == end,
            r.start_texture == texture,
            r.middle@.len() == 0,
            r.start_location == (DoorLocation { room_index: None, door_id: None, enabled: false }),
            r.end_location == (DoorLocation { room_index: None, door_id: None, enabled: false }),
    {
        HallWay {
            start,
            start_texture: texture,
            middle: Vec::new(),
            end,
            start_location: DoorLocation { room_index: None, door_id: None, enabled: false },
            end_location: DoorLocation { room_index: None, door_id: None, enabled: false },
        }
    }

    /// Re-derives the end rectangles from their bound doors.  An end whose
    /// binding is enabled and resolves to a live room and door takes that
    /// door's control rectangle, the start facing away from its room and the
    /// end facing into its room, matching how the hallway was first strung
    /// between the two doors; a disabled or stale binding leaves the end
    /// untouched.
    pub fn update_door_location(&mut self, rooms: &Vec<(RoomId, Room)>)
        requires
            old(self).wf(),
            rooms_wf(rooms@),
        ensures
            final(self).wf(),
            final(self).start == updated_rect(
                old(self).start_location,
                old(self).start,
                rooms@,
                true,
            ),
            final(self).end == updated_rect(old(self).end_location, old(self).end, rooms@, false),
            final(self).start_texture == old(self).start_texture,
            final(self).middle == old(self).middle,
            final(self).start_location == old(self).start_location,
            final(self).end_location == old(self).end_location,
    {
        if self.start_location.enabled {
            if let Some(room_index) = self.start_location.room_index {
                if let Some(door_id) = self.start_location.door_id {
                    if let Some(room) = lookup_room(rooms, room_index) {
                        proof {
                            let fr = find_room(rooms@, room_index);
                            assert(fr == Some(*room));
                            assert(room.wf()) by {
                                lemma_find_room_wf(rooms@, room_index);
                            }
                        }
                        if let Some(c_rect) = room.get_control_rect(&door_id, true) {
                            self.start = c_rect;
                        }
                    }
                }
            }
        }
        if self.end_location.enabled {
            if let Some(room_index) = self.end_location.room_index {
                if let Some(door_id) = self.end_location.door_id {
                    if let Some(room) = lookup_room(rooms, room_index) {
                        proof {
                            assert(room.wf()) by {
                                lemma_find_room_wf(rooms@, room_index);
                            }
                        }
                        if let Some(c_rect) = room.get_control_rect(&door_id, false) {
                            self.end = c_rect;
                        }
                    }
                }
            }
        }
    }
}

/// A room that `find_room` returns out of a well-formed table is well
/// formed.
proof fn lemma_find_room_wf(rooms: Seq<(RoomId, Room)>, id: RoomId)
    requires
        rooms_wf(rooms),
        find_room(rooms, id) is Some,
    ensures
        find_room(rooms, id).unwrap().wf(),
    decreases rooms.len(),
{
    if rooms.len() > 0 {
        if rooms[0].0 == id {
        } else {
            assert forall|i: int| 0 <= i < rooms.drop_first().len() implies (#[trigger] rooms.drop_first()[i]).1.wf() by {
                assert(rooms.drop_first()[i] == rooms[i + 1]);
            }
            lemma_find_room_wf(rooms.drop_first(), id);
        }
    }
}


/// One corner of a control rectangle's cross-section edge: half the width
/// out along the rectangle's facing (mirrored at the start of a span), at
/// the bottom or the top of the rectangle.
pub open spec fn edge_point(c: ControlRect, plus: bool, top: bool, as_start: bool) -> Vec3 {
    let dc: int = if as_start {
        -(c.rotation.c as int)
    } else {
        c.rotation.c as int
    };
    let ds: int = if as_start {
        c.rotation.s as int
    } else {
        -(c.rotation.s as int)
    };
    let half = crate::geom::divt(c.size.x as int, 2);
    let ox = crate::geom::mul_fx_spec(half, dc);
    let oz = crate::geom::mul_fx_spec(half, ds);
    Vec3 {
        x: (c.position.x + if plus {
            ox
        } else {
            -ox
        }) as i64,
        y: (c.position.y + if top {
            c.size.y as int
        } else {
            0int
        }) as i64,
        z: (c.position.z + if plus {
            oz
        } else {
            -oz
        }) as i64,
    }
}

/// The ground-plane points of a span's four floor (or roof) corners.
pub open spec fn span_plane_frame(a: ControlRect, b: ControlRect, top: bool) -> Seq<Vec2> {
    seq![
        Vec2 { x: edge_point(a, true, top, true).x, y: edge_point(a, true, top, true).z },
        Vec2 { x: edge_point(a, false, top, true).x, y: edge_point(a, false, top, true).z },
        Vec2 { x: edge_point(b, true, top, false).x, y: edge_point(b, true, top, false).z },
        Vec2 { x: edge_point(b, false, top, false).x, y: edge_point(b, false, top, false).z },
    ]
}

/// The running length of a span's left wall: the ground distance between
/// its two bottom edge corners.
pub open spec fn span_left_len(a: ControlRect, b: ControlRect) -> int {
    crate::geom::dist_spec(
        Vec2 { x: edge_point(a, false, false, true).x, y: edge_point(a, false, false, true).z },
        Vec2 { x: edge_point(b, true, false, false).x, y: edge_point(b, true, false, false).z },
    )
}

/// The running length of a span's right wall.
pub open spec fn span_right_len(a: ControlRect, b: ControlRect) -> int {
    crate::geom::dist_spec(
        Vec2 { x: edge_point(a, true, false, true).x, y: edge_point(a, true, false, true).z },
        Vec2 { x: edge_point(b, false, false, false).x, y: edge_point(b, false, false, false).z },
    )
}

/// The synthetic running-distance-by-height frame a side wall projects its
/// texture from: one axis the distance along the span, the other the local
/// height, so side tiling runs continuously along the hallway.
pub open spec fn span_side_frame(a: ControlRect, b: ControlRect, len: int) -> Seq<Vec2> {
    seq![
        Vec2 { x: 0, y: a.position.y },
        Vec2 { x: 0, y: (a.position.y + a.size.y) as i64 },
        Vec2 { x: len as i64, y: (b.position.y + b.size.y) as i64 },
        Vec2 { x: len as i64, y: b.position.y },
    ]
}

/// Computes `edge_point` exactly; the result is a well-formed coordinate.
fn corner(c: &ControlRect, plus: bool, top: bool, as_start: bool) -> (p: Vec3)
    requires
        c.wf(),
    ensures
        p == edge_point(*c, plus, top, as_start),
        p.wf(),
        crate::geom::vec3_in(p, 8 * crate::geom::WORLD_MAX as int),
{
    let dc: i64 = if as_start {
        -c.rotation.c
    } else {
        c.rotation.c
    };
    let ds: i64 = if as_start {
        c.rotation.s
    } else {
        -c.rotation.s
    };
    let half = crate::geom::idiv(c.size.x, 2);
    proof {
        crate::geom::lemma_divt_scale(c.size.x as int, 2, crate::geom::WORLD_MAX as int);
    }
    let ox = crate::geom::mul_fx_unit(half, dc);
    let oz = crate::geom::mul_fx_unit(half, ds);
    let x = c.position.x + if plus {
        ox
    } else {
        -ox
    };
    let y = c.position.y + if top {
        c.size.y
    } else {
        0
    };
    let z = c.position.z + if plus {
        oz
    } else {
        -oz
    };
    Vec3 { x, y, z }
}

/// The horizontal plane point of a space point.
fn xz_of(p: Vec3) -> (r: Vec2)
    ensures
        r.x == p.x,
        r.y == p.z,
{
    Vec2 { x: p.x, y: p.z }
}

impl ControlRect {
    /// The four meshes of the span from this rectangle to `other`: floor,
    /// roof, left wall and right wall, each one quad of two triangles.  The
    /// vertex positions are exactly the spans' edge points; floor and roof
    /// project UVs from the ground plane, the side walls from a frame of
    /// running distance and height.
    pub fn gen_mesh(&self, other: &ControlRect, tex: &HallWayTexData) -> (r: Vec<
        crate::mesh::Mesh,
    >)
        requires
            self.wf(),
            other.wf(),
            tex.wf(),
        ensures
            r.len() == 4,
            forall|i: int|
                0 <= i < 4 ==> (#[trigger] r@[i]).vertices.len() == 4 && r@[i].indices.len() == 6
                    && r@[i].wf(),
            r@[0].texture == tex.bottom.id.id,
            r@[1].texture == tex.top.id.id,
            r@[2].texture == tex.left.id.id,
            r@[3].texture == tex.right.id.id,
            r@[0].vertices[0].position == edge_point(*self, true, false, true),
            r@[0].vertices[1].position == edge_point(*self, false, false, true),
            r@[0].vertices[2].position == edge_point(*other, true, false, false),
            r@[0].vertices[3].position == edge_point(*other, false, false, false),
            r@[1].vertices[0].position == edge_point(*self, true, true, true),
            r@[1].vertices[1].position == edge_point(*self, false, true, true),
            r@[1].vertices[2].position == edge_point(*other, true, true, false),
            r@[1].vertices[3].position == edge_point(*other, false, true, false),
            r@[2].vertices[0].position == edge_point(*self, false, false, true),
            r@[2].vertices[1].position == edge_point(*self, false, true, true),
            r@[2].vertices[2].position == edge_point(*other, true, true, false),
            r@[2].vertices[3].position == edge_point(*other, true, false, false),
            r@[3].vertices[0].position == edge_point(*self, true, false, true),
            r@[3].vertices[1].position == edge_point(*self, true, true, true),
            r@[3].vertices[2].position == edge_point(*other, false, true, false),
            r@[3].vertices[3].position == edge_point(*other, false, false, false),
            forall|c: int|
                0 <= c < 4 ==> (#[trigger] r@[0].vertices[c]).tex_coords == tex.bottom.uv_list(
                    span_plane_frame(*self, *other, false),
                )[c] && r@[1].vertices[c].tex_coords == tex.top.uv_list(
                    span_plane_frame(*self, *other, true),
                )[c] && r@[2].vertices[c].tex_coords == tex.left.uv_list(
                    span_side_frame(*self, *other, span_left_len(*self, *other)),
                )[c] && r@[3].vertices[c].tex_coords == tex.right.uv_list(
                    span_side_frame(*self, *other, span_right_len(*self, *other)),
                )[c],
    {
        let sp0 = corner(self, true, false, true);
        let sm0 = corner(self, false, false, true);
        let sp1 = corner(self, true, true, true);
        let sm1 = corner(self, false, true, true);
        let op0 = corner(other, true, false, false);
        let om0 = corner(other, false, false, false);
        let op1 = corner(other, true, true, false);
        let om1 = corner(other, false, true, false);

        let mut meshs: Vec<crate::mesh::Mesh> = Vec::new();

        // Floor and roof: UVs from the ground plane.
        let mut floor_plane: Vec<Vec2> = Vec::new();
        floor_plane.push(xz_of(sp0));
        floor_plane.push(xz_of(sm0));
        floor_plane.push(xz_of(op0));
        floor_plane.push(xz_of(om0));
        proof {
            assert(forall|i: int|
                0 <= i < floor_plane@.len() ==> (#[trigger] floor_plane@[i]).wf());
            assert(floor_plane@ =~= span_plane_frame(*self, *other, false));
        }
        let floor_uv = tex.bottom.get_tex_coords(&floor_plane);
        let floor = quad_mesh(
            tex.bottom.id.id,
            sp0,
            sm0,
            op0,
            om0,
            &floor_uv,
            2,
            1,
            0,
            2,
            0,
            3,
        );
        meshs.push(floor);

        let mut roof_plane: Vec<Vec2> = Vec::new();
        roof_plane.push(xz_of(sp1));
        roof_plane.push(xz_of(sm1));
        roof_plane.push(xz_of(op1));
        roof_plane.push(xz_of(om1));
        proof {
            assert(forall|i: int| 0 <= i < roof_plane@.len() ==> (#[trigger] roof_plane@[i]).wf());
            assert(roof_plane@ =~= span_plane_frame(*self, *other, true));
        }
        let roof_uv = tex.top.get_tex_coords(&roof_plane);
        let roof = quad_mesh(tex.top.id.id, sp1, sm1, op1, om1, &roof_uv, 0, 1, 2, 3, 0, 2);
        meshs.push(roof);

        // Side walls: UVs from running distance and height.
        let dl = span_dist(sm0, op0);
        let mut left_frame: Vec<Vec2> = Vec::new();
        left_frame.push(Vec2 { x: 0, y: self.position.y });
        left_frame.push(Vec2 { x: 0, y: self.position.y + self.size.y });
        left_frame.push(Vec2 { x: dl, y: other.position.y + other.size.y });
        left_frame.push(Vec2 { x: dl, y: other.position.y });
        proof {
            assert(forall|i: int| 0 <= i < left_frame@.len() ==> (#[trigger] left_frame@[i]).wf());
            assert(left_frame@ =~= span_side_frame(*self, *other, span_left_len(*self, *other)));
        }
        let left_uv = tex.left.get_tex_coords(&left_frame);
        let left = quad_mesh(tex.left.id.id, sm0, sm1, op1, op0, &left_uv, 0, 2, 1, 0, 3, 2);
        meshs.push(left);

        let dr = span_dist(sp0, om0);
        let mut right_frame: Vec<Vec2> = Vec::new();
        right_frame.push(Vec2 { x: 0, y: self.position.y });
        right_frame.push(Vec2 { x: 0, y: self.position.y + self.size.y });
        right_frame.push(Vec2 { x: dr, y: other.position.y + other.size.y });
        right_frame.push(Vec2 { x: dr, y: other.position.y });
        proof {
            assert(forall|i: int|
                0 <= i < right_frame@.len() ==> (#[trigger] right_frame@[i]).wf());
            assert(right_frame@ =~= span_side_frame(*self, *other, span_right_len(*self, *other)));
        }
        let right_uv = tex.right.get_tex_coords(&right_frame);
        let right = quad_mesh(tex.right.id.id, sp0, sp1, om1, om0, &right_uv, 2, 3, 0, 2, 0, 1);
        meshs.push(right);

        meshs
    }
}

/// The planar distance between two corners, which stays a well-formed
/// coordinate.
fn span_dist(a: Vec3, b: Vec3) -> (d: i64)
    requires
        a.wf(),
        b.wf(),
        crate::geom::vec3_in(a, 8 * crate::geom::WORLD_MAX as int),
        crate::geom::vec3_in(b, 8 * crate::geom::WORLD_MAX as int),
    ensures
        d == crate::geom::dist_spec(Vec2 { x: a.x, y: a.z }, Vec2 { x: b.x, y: b.z }),
        0 <= d <= crate::geom::COORD_MAX,
{
    let pa = Vec2 { x: a.x, y: a.z };
    let pb = Vec2 { x: b.x, y: b.z };
    let d = crate::geom::dist(pa, pb);
    proof {
        let dx = pa.x - pb.x;
        let dy = pa.y - pb.y;
        assert(0 <= dx * dx <= 0x1000_0000 * 0x1000_0000) by (nonlinear_arith)
            requires
                -0x1000_0000 <= dx <= 0x1000_0000,
        ;
        assert(0 <= dy * dy <= 0x1000_0000 * 0x1000_0000) by (nonlinear_arith)
            requires
                -0x1000_0000 <= dy <= 0x1000_0000,
        ;
        assert(dx * dx + dy * dy <= (crate::geom::COORD_MAX as int) * (
        crate::geom::COORD_MAX as int)) by (nonlinear_arith)
            requires
                dx * dx <= 0x1000_0000 * 0x1000_0000,
                dy * dy <= 0x1000_0000 * 0x1000_0000,
                crate::geom::COORD_MAX == 0x4000_0000,
        ;
        crate::geom::lemma_sqrt_le(dx * dx + dy * dy, crate::geom::COORD_MAX as int);
    }
    d
}

/// Builds one quad mesh from four corners, their UVs, and six indices.
fn quad_mesh(
    texture: u32,
    p0: Vec3,
    p1: Vec3,
    p2: Vec3,
    p3: Vec3,
    uv: &Vec<Vec2>,
    i0: usize,
    i1: usize,
    i2: usize,
    i3: usize,
    i4: usize,
    i5: usize,
) -> (m: crate::mesh::Mesh)
    requires
        uv.len() == 4,
        i0 < 4,
        i1 < 4,
        i2 < 4,
        i3 < 4,
        i4 < 4,
        i5 < 4,
    ensures
        m.texture == texture,
        m.vertices.len() == 4,
        m.indices.len() == 6,
        m.wf(),
        m.vertices[0].position == p0,
        m.vertices[1].position == p1,
        m.vertices[2].position == p2,
        m.vertices[3].position == p3,
        m.vertices[0].tex_coords == uv[0],
        m.vertices[1].tex_coords == uv[1],
        m.vertices[2].tex_coords == uv[2],
        m.vertices[3].tex_coords == uv[3],
        m.indices@ == seq![i0, i1, i2, i3, i4, i5],
{
    let mut vs: Vec<crate::mesh::MeshVertex> = Vec::new();
    vs.push(crate::mesh::MeshVertex { position: p0, tex_coords: uv[0] });
    vs.push(crate::mesh::MeshVertex { position: p1, tex_coords: uv[1] });
    vs.push(crate::mesh::MeshVertex { position: p2, tex_coords: uv[2] });
    vs.push(crate::mesh::MeshVertex { position: p3, tex_coords: uv[3] });
    let mut idx: Vec<usize> = Vec::new();
    idx.push(i0);
    idx.push(i1);
    idx.push(i2);
    idx.push(i3);
    idx.push(i4);
    idx.push(i5);
    proof {
        assert(idx@ =~= seq![i0, i1, i2, i3, i4, i5]);
    }
    crate::mesh::Mesh { texture, vertices: vs, indices: idx }
}

/// The rectangle a span starts from: the hallway's own start, or the
/// waypoint before the span.
pub open spec fn span_start(h: HallWay, i: int) -> ControlRect {
    if i == 0 {
        h.start
    } else {
        h.middle[i - 1].0
    }
}

/// The rectangle a span runs to: the next waypoint, or the hallway's end.
pub open spec fn span_end(h: HallWay, i: int) -> ControlRect {
    if i < h.middle.len() {
        h.middle[i].0
    } else {
        h.end
    }
}

/// The texture set of a span: the hallway's own for the first, then the
/// set of the waypoint the span starts from.
pub open spec fn span_tex(h: HallWay, i: int) -> HallWayTexData {
    if i == 0 {
        h.start_texture
    } else {
        h.middle[i - 1].1
    }
}

/// The four meshes of span `i` sit at `r[base + 4i ..]` and carry the
/// span's textures, with the floor and roof quads' corners exactly at the
/// two rectangles' edge points.
pub open spec fn span_meshes_ok(h: HallWay, r: Seq<crate::mesh::Mesh>, base: int, i: int) -> bool {
    let a = span_start(h, i);
    let b = span_end(h, i);
    let t = span_tex(h, i);
    &&& r[base + 4 * i].texture == t.bottom.id.id
    &&& r[base + 4 * i + 1].texture == t.top.id.id
    &&& r[base + 4 * i + 2].texture == t.left.id.id
    &&& r[base + 4 * i + 3].texture == t.right.id.id
    &&& r[base + 4 * i].vertices[0].position == edge_point(a, true, false, true)
    &&& r[base + 4 * i].vertices[1].position == edge_point(a, false, false, true)
    &&& r[base + 4 * i].vertices[2].position == edge_point(b, true, false, false)
    &&& r[base + 4 * i].vertices[3].position == edge_point(b, false, false, false)
    &&& r[base + 4 * i + 1].vertices[0].position == edge_point(a, true, true, true)
    &&& r[base + 4 * i + 1].vertices[1].position == edge_point(a, false, true, true)
    &&& r[base + 4 * i + 1].vertices[2].position == edge_point(b, true, true, false)
    &&& r[base + 4 * i + 1].vertices[3].position == edge_point(b, false, true, false)
    &&& forall|c: int|
        0 <= c < 4 ==> (#[trigger] r[base + 4 * i].vertices[c]).tex_coords == t.bottom.uv_list(
            span_plane_frame(a, b, false),
        )[c] && r[base + 4 * i + 1].vertices[c].tex_coords == t.top.uv_list(
            span_plane_frame(a, b, true),
        )[c] && r[base + 4 * i + 2].vertices[c].tex_coords == t.left.uv_list(
            span_side_frame(a, b, span_left_len(a, b)),
        )[c] && r[base + 4 * i + 3].vertices[c].tex_coords == t.right.uv_list(
            span_side_frame(a, b, span_right_len(a, b)),
        )[c]
}

/// A hallway span's meshes keep their facts wherever the block reappears.
pub proof fn lemma_span_ok_translate(
    h: HallWay,
    r: Seq<crate::mesh::Mesh>,
    r2: Seq<crate::mesh::Mesh>,
    base: int,
    base2: int,
    i: int,
)
    requires
        span_meshes_ok(h, r, base, i),
        0 <= i,
        0 <= base,
        0 <= base2,
        base + 4 * i + 4 <= r.len(),
        base2 + 4 * i + 4 <= r2.len(),
        forall|k: int| 0 <= k < 4 ==> #[trigger] r2[base2 + 4 * i + k] == r[base + 4 * i + k],
    ensures
        span_meshes_ok(h, r2, base2, i),
{
    assert(r2[base2 + 4 * i + 0] == r[base + 4 * i + 0]);
    assert(r2[base2 + 4 * i] == r[base + 4 * i]);
    assert(r2[base2 + 4 * i + 1] == r[base + 4 * i + 1]);
    assert(r2[base2 + 4 * i + 2] == r[base + 4 * i + 2]);
    assert(r2[base2 + 4 * i + 3] == r[base + 4 * i + 3]);
    let a = span_start(h, i);
    let b = span_end(h, i);
    let t = span_tex(h, i);
    assert forall|c: int| 0 <= c < 4 implies (#[trigger] r2[base2 + 4 * i].vertices[c]).tex_coords
        == t.bottom.uv_list(span_plane_frame(a, b, false))[c] && r2[base2 + 4 * i
        + 1].vertices[c].tex_coords == t.top.uv_list(span_plane_frame(a, b, true))[c] && r2[base2
        + 4 * i + 2].vertices[c].tex_coords == t.left.uv_list(
        span_side_frame(a, b, span_left_len(a, b)),
    )[c] && r2[base2 + 4 * i + 3].vertices[c].tex_coords == t.right.uv_list(
        span_side_frame(a, b, span_right_len(a, b)),
    )[c] by {
        assert(r[base + 4 * i].vertices[c].tex_coords == t.bottom.uv_list(
            span_plane_frame(a, b, false),
        )[c]);
        assert(r[base + 4 * i + 1].vertices[c].tex_coords == t.top.uv_list(
            span_plane_frame(a, b, true),
        )[c]);
        assert(r[base + 4 * i + 2].vertices[c].tex_coords == t.left.uv_list(
            span_side_frame(a, b, span_left_len(a, b)),
        )[c]);
        assert(r[base + 4 * i + 3].vertices[c].tex_coords == t.right.uv_list(
            span_side_frame(a, b, span_right_len(a, b)),
        )[c]);
    }
}

impl HallWay {
    /// Meshes the hallway: four quads for every span between consecutive
    /// control rectangles, each span textured by the set of the waypoint it
    /// starts from (the first span by the hallway's own set), with the
    /// quads' corners at the rectangles' edge points.
    pub fn mesh(&self) -> (r: Vec<crate::mesh::Mesh>)
        requires
            self.wf(),
        ensures
            r.len() == 4 * (self.middle.len() + 1),
            forall|i: int|
                0 <= i < r.len() ==> (#[trigger] r@[i]).vertices.len() == 4 && r@[i].indices.len()
                    == 6 && r@[i].wf(),
            forall|i: int|
                0 <= i <= self.middle.len() ==> #[trigger] span_meshes_ok(*self, r@, 0, i),
    {
        let mut meshs: Vec<crate::mesh::Mesh> = Vec::new();
        let nm = self.middle.len();
        let mut i: usize = 0;
        while i <= nm
            invariant
                0 <= i <= nm + 1,
                nm == self.middle.len(),
                self.wf(),
                meshs.len() == 4 * i,
                forall|j: int|
                    0 <= j < meshs.len() ==> (#[trigger] meshs@[j]).vertices.len() == 4
                        && meshs@[j].indices.len() == 6 && meshs@[j].wf(),
                forall|j: int| 0 <= j < i ==> #[trigger] span_meshes_ok(*self, meshs@, 0, j),
            decreases nm + 1 - i,
        {
            let start_rect: &ControlRect = if i == 0 {
                &self.start
            } else {
                proof {
                    assert(self.middle@[i - 1].0.wf() && self.middle@[i - 1].1.wf());
                }
                &self.middle[i - 1].0
            };
            let end_rect: &ControlRect = if i < nm {
                proof {
                    assert(self.middle@[i as int].0.wf());
                }
                &self.middle[i].0
            } else {
                &self.end
            };
            let texture: &HallWayTexData = if i == 0 {
                &self.start_texture
            } else {
                &self.middle[i - 1].1
            };
            let mut span = start_rect.gen_mesh(end_rect, texture);
            let ghost pre = meshs@;
            let ghost sv = span@;
            meshs.append(&mut span);
            proof {
                assert(meshs@ == pre + sv);
                assert(meshs@.len() == pre.len() + 4);
                assert(forall|j: int| 0 <= j < pre.len() ==> #[trigger] meshs@[j] == pre[j]);
                assert(*start_rect == span_start(*self, i as int));
                assert(*end_rect == span_end(*self, i as int));
                assert(*texture == span_tex(*self, i as int));
                assert(meshs@[4 * i] == sv[0] && meshs@[4 * i + 1] == sv[1] && meshs@[4 * i + 2]
                    == sv[2] && meshs@[4 * i + 3] == sv[3]);
                assert(span_meshes_ok(*self, meshs@, 0, i as int));
                assert forall|j: int| 0 <= j < i + 1 implies #[trigger] span_meshes_ok(
                    *self,
                    meshs@,
                    0,
                    j,
                ) by {
                    if j < i {
                        assert(span_meshes_ok(*self, pre, 0, j));
                        assert(meshs@[4 * j] == pre[4 * j] && meshs@[4 * j + 1] == pre[4 * j + 1]
                            && meshs@[4 * j + 2] == pre[4 * j + 2] && meshs@[4 * j + 3] == pre[4 * j
                            + 3]);
                    }
                }
            }
            i = i + 1;
        }
        meshs
    }
}

} // verus!
