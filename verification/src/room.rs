//! Rooms: a closed ring of walls with a height, doors cut out of wall
//! segments, and attached modifiers; plus the door cut-out arithmetic and
//! the control-rectangle derivation that hallways bind to.

use vstd::prelude::*;

use crate::geom::{divt, Rot2, Vec2, Vec3, COORD_MAX};
use crate::texture::MeshTex;

verus! {

/// A door's identity inside its room.  Ids are allocated per room (each
/// room carries its own counter), and every reference to a door travels as
/// a room-and-door pair, so room-scoped uniqueness is all resolution needs.
#[derive(Clone, Copy, PartialEq, Eq, Structural, Hash, Debug)]
pub struct DoorId(pub u32);

/// A room's identity inside the level.
#[derive(Clone, Copy, PartialEq, Eq, Structural, Hash, Debug)]
pub struct RoomId(pub u32);

#[derive(Clone, Copy, PartialEq, Eq, Structural, Debug)]
pub enum VerticalAlign {
    Top,
    Center,
    Bottom,
}

#[derive(Clone, Copy, PartialEq, Eq, Structural, Debug)]
pub enum HorizontalAlign {
    Left,
    Center,
    Right,
}

/// A door on a wall segment: which segment (any integer, wrapped), a local
/// offset, a width-by-height size, and the alignment of its anchor.
#[derive(Clone, Copy, PartialEq, Eq, Structural, Debug)]
pub struct Door {
    pub wall: i64,
    pub offset: Vec2,
    pub size: Vec2,
    pub valign: VerticalAlign,
    pub halign: HorizontalAlign,
}

/// One wall anchor point with the texture of the segment it starts.
#[derive(Clone, Copy, PartialEq, Eq, Structural, Debug)]
pub struct Wall {
    pub local_pos: Vec2,
    pub wall_texture: MeshTex,
}

impl Wall {
    pub open spec fn wf(self) -> bool {
        self.local_pos.wf() && self.wall_texture.wf()
    }

    pub fn new(pos: Vec2, wall_texture: MeshTex) -> (r: Wall)
        ensures
            r.local_pos == pos,
            r.wall_texture == wall_texture,
    {
        Wall { local_pos: pos, wall_texture }
    }
}

impl Door {
    pub open spec fn wf(self) -> bool {
        &&& self.offset.wf()
        &&& self.size.wf()
        &&& 0 <= self.size.x <= crate::geom::WORLD_MAX
        &&& 0 <= self.size.y <= crate::geom::WORLD_MAX
        &&& -0x4000_0000_0000_0000 <= self.wall <= 0x4000_0000_0000_0000
    }
}

/// `v` forced into `[lo, hi]`.
pub open spec fn clampi(v: int, lo: int, hi: int) -> int {
    if v < lo {
        lo
    } else if v > hi {
        hi
    } else {
        v
    }
}

/// The raw horizontal extent of the door on a segment of width `w`, before
/// clamping: anchored left, centered, or anchored right.
pub open spec fn door_raw_lr(d: Door, w: int) -> (int, int) {
    match d.halign {
        HorizontalAlign::Left => (d.offset.x as int, d.offset.x + d.size.x),
        HorizontalAlign::Center => (
            divt(w, 2) + d.offset.x - divt(d.size.x as int, 2),
            divt(w, 2) + d.offset.x + divt(d.size.x as int, 2),
        ),
        HorizontalAlign::Right => (w + d.offset.x - d.size.x, w + d.offset.x),
    }
}

/// The raw vertical extent of the door on a segment of height `h`.
pub open spec fn door_raw_bt(d: Door, h: int) -> (int, int) {
    match d.valign {
        VerticalAlign::Top => (h + d.offset.y - d.size.y, h + d.offset.y),
        VerticalAlign::Center => (
            divt(h, 2) + d.offset.y - divt(d.size.y as int, 2),
            divt(h, 2) + d.offset.y + divt(d.size.y as int, 2),
        ),
        VerticalAlign::Bottom => (d.offset.y as int, d.offset.y + d.size.y),
    }
}

impl Door {
    /// The door's cut-out rectangle on a `w` by `h` wall segment, clamped
    /// into the segment: it always lies inside `[0, w] x [0, h]`, and an
    /// offset that pushes the door fully off the wall leaves a degenerate
    /// (zero-area) rectangle rather than negative coordinates.
    pub fn to_rect(&self, w: i64, h: i64) -> (r: crate::holes::Rect2)
        requires
            self.wf(),
            0 <= w <= COORD_MAX,
            0 <= h <= COORD_MAX,
        ensures
            r.x0 == clampi(door_raw_lr(*self, w as int).0, 0, w as int),
            r.x1 == clampi(door_raw_lr(*self, w as int).1, 0, w as int),
            r.y0 == clampi(door_raw_bt(*self, h as int).0, 0, h as int),
            r.y1 == clampi(door_raw_bt(*self, h as int).1, 0, h as int),
            0 <= r.x0 <= r.x1 <= w,
            0 <= r.y0 <= r.y1 <= h,
            r.wf(),
    {
        let w2 = crate::geom::idiv(w, 2);
        let h2 = crate::geom::idiv(h, 2);
        let sx2 = crate::geom::idiv(self.size.x, 2);
        let sy2 = crate::geom::idiv(self.size.y, 2);
        let (rl, rr): (i64, i64) = match self.halign {
            HorizontalAlign::Left => (self.offset.x, self.offset.x + self.size.x),
            HorizontalAlign::Center => (w2 + self.offset.x - sx2, w2 + self.offset.x + sx2),
            HorizontalAlign::Right => (w + self.offset.x - self.size.x, w + self.offset.x),
        };
        let (rb, rt): (i64, i64) = match self.valign {
            VerticalAlign::Top => (h + self.offset.y - self.size.y, h + self.offset.y),
            VerticalAlign::Center => (h2 + self.offset.y - sy2, h2 + self.offset.y + sy2),
            VerticalAlign::Bottom => (self.offset.y, self.offset.y + self.size.y),
        };
        proof {
            crate::geom::lemma_divt_bound(self.size.x as int, 2, COORD_MAX as int);
            crate::geom::lemma_divt_bound(self.size.y as int, 2, COORD_MAX as int);
            crate::geom::lemma_divt_bound(w as int, 2, COORD_MAX as int);
            crate::geom::lemma_divt_bound(h as int, 2, COORD_MAX as int);
        }
        let x0 = if rl < 0 {
            0
        } else if rl > w {
            w
        } else {
            rl
        };
        let x1 = if rr < 0 {
            0
        } else if rr > w {
            w
        } else {
            rr
        };
        let y0 = if rb < 0 {
            0
        } else if rb > h {
            h
        } else {
            rb
        };
        let y1 = if rt < 0 {
            0
        } else if rt > h {
            h
        } else {
            rt
        };
        proof {
            assert(divt(self.size.x as int, 2) >= 0);
            assert(divt(self.size.y as int, 2) >= 0);
        }
        crate::holes::Rect2 { x0, y0, x1, y1 }
    }
}

/// The wall segment a stored signed index selects, with Euclidean wrapping:
/// a negative index still lands on a valid segment.
pub fn wall_index(wall: i64, n: usize) -> (r: usize)
    requires
        1 <= n,
        -0x4000_0000_0000_0000 <= wall <= 0x4000_0000_0000_0000,
        n <= 0x4000_0000_0000_0000,
    ensures
        r < n,
        r as int == wall as int % n as int,
{
    if wall >= 0 {
        let m: u64 = (wall as u64) % (n as u64);
        m as usize
    } else {
        let neg: i64 = -wall;
        let m: u64 = (neg as u64) % (n as u64);
        proof {
            vstd::arithmetic::div_mod::lemma_fundamental_div_mod(neg as int, n as int);
            let q = neg as int / n as int;
            if m == 0 {
                assert(wall as int == (-q) * n as int + 0) by (nonlinear_arith)
                    requires
                        neg as int == n as int * q + 0,
                        wall as int == -(neg as int),
                ;
                vstd::arithmetic::div_mod::lemma_fundamental_div_mod_converse_mod(
                    wall as int,
                    n as int,
                    -q,
                    0,
                );
            } else {
                assert(wall as int == (-q - 1) * n as int + (n as int - m as int))
                    by (nonlinear_arith)
                    requires
                        neg as int == n as int * q + m as int,
                        wall as int == -(neg as int),
                ;
                vstd::arithmetic::div_mod::lemma_fundamental_div_mod_converse_mod(
                    wall as int,
                    n as int,
                    -q - 1,
                    n as int - m as int,
                );
            }
        }
        if m == 0 {
            0
        } else {
            n - (m as usize)
        }
    }
}


/// A room: a closed ring of at least three walls, a height, doors keyed by
/// room-local ids, and attached modifiers.
#[derive(Clone, Debug)]
pub struct Room {
    pub name: String,
    pub position: Vec3,
    pub rotation: Rot2,
    pub height: i64,
    pub walls: Vec<Wall>,
    pub doors: Vec<(DoorId, Door)>,
    pub modifiers: Vec<crate::modifier::Modifier>,
    pub floor_texture: MeshTex,
    pub roof_texture: MeshTex,
    pub next_door: u32,
}

/// The first door stored under `id`, if any.
pub open spec fn find_door(doors: Seq<(DoorId, Door)>, id: DoorId) -> Option<Door>
    decreases doors.len(),
{
    if doors.len() == 0 {
        None
    } else if doors[0].0 == id {
        Some(doors[0].1)
    } else {
        find_door(doors.drop_first(), id)
    }
}

/// The anchor point of the wall segment a door sits on.
pub open spec fn seg_start(room: Room, d: Door) -> Vec2 {
    room.walls[d.wall as int % room.walls.len() as int].local_pos
}

/// The anchor point of the following wall, closing the ring at the end.
pub open spec fn seg_end(room: Room, d: Door) -> Vec2 {
    let n = room.walls.len() as int;
    let m = d.wall as int % n;
    room.walls[if m + 1 == n {
        0int
    } else {
        m + 1
    }].local_pos
}

/// The midpoint of a wall segment (components rounded toward zero).
pub open spec fn mid_of(s: Vec2, e: Vec2) -> Vec2 {
    Vec2 { x: divt(s.x + e.x, 2) as i64, y: divt(s.y + e.y, 2) as i64 }
}

/// An interpolation parameter forced into the unit range.
pub open spec fn clamp01(t: int) -> int {
    if t < 0 {
        0
    } else if t > crate::geom::FP_ONE as int {
        crate::geom::FP_ONE as int
    } else {
        t
    }
}

/// The parameter placing a door's centre half a door-width along the
/// segment; a degenerate (zero-length) segment anchors at the start.
pub open spec fn lerp_t(d: Door, s: Vec2, e: Vec2) -> int {
    let l = crate::geom::dist_spec(s, e);
    if l == 0 {
        0
    } else {
        clamp01(divt(d.size.x * crate::geom::FP_ONE, 2 * l))
    }
}

/// The point `t` of the way from `s` to `e`, per component.
pub open spec fn lerp_of(s: Vec2, e: Vec2, t: int) -> Vec2 {
    Vec2 {
        x: (s.x + crate::geom::mul_fx_spec(e.x as int - s.x, t)) as i64,
        y: (s.y + crate::geom::mul_fx_spec(e.y as int - s.y, t)) as i64,
    }
}

/// Where on its segment the door anchors horizontally.
pub open spec fn ctrl_anchor(d: Door, s: Vec2, e: Vec2) -> Vec2 {
    match d.halign {
        HorizontalAlign::Center => mid_of(s, e),
        HorizontalAlign::Left => lerp_of(s, e, lerp_t(d, s, e)),
        HorizontalAlign::Right => lerp_of(s, e, crate::geom::FP_ONE as int - lerp_t(d, s, e)),
    }
}

/// The door's base height on the wall.
pub open spec fn ctrl_y(d: Door, h: int) -> int {
    match d.valign {
        VerticalAlign::Top => h - d.size.y,
        VerticalAlign::Center => divt(h - d.size.y, 2),
        VerticalAlign::Bottom => 0,
    }
}

/// The control rectangle's facing: the segment midpoint's direction turned a
/// quarter further, turned half around unless facing away, less the room's
/// own rotation.
pub open spec fn ctrl_rot(room_rot: Rot2, midv: Vec2, away: bool) -> Rot2 {
    let u = crate::geom::unit_spec(midv);
    let q = crate::geom::rot_quarter(u);
    let q2 = if !away {
        crate::geom::rot_half(q)
    } else {
        q
    };
    crate::geom::rot_comp(q2, crate::geom::rot_inv(room_rot))
}

/// The control rectangle a door defines: the anchor point rotated into the
/// room's frame and moved to the room, at the door's base height, facing
/// along or against the wall normal, with the door's size.
pub open spec fn spec_control_rect(room: Room, d: Door, away: bool) -> crate::hallway::ControlRect {
    let s = seg_start(room, d);
    let e = seg_end(room, d);
    let a = ctrl_anchor(d, s, e);
    crate::hallway::ControlRect {
        position: Vec3 {
            x: (crate::geom::rot_x(a, room.rotation) + room.position.x) as i64,
            y: (ctrl_y(d, room.height as int) + room.position.y) as i64,
            z: (crate::geom::rot_y(a, room.rotation) + room.position.z) as i64,
        },
        rotation: ctrl_rot(room.rotation, mid_of(s, e), away),
        size: d.size,
    }
}

impl Room {
    /// Everything `wf` asks except a closed ring: the wall list may be
    /// mid-edit and hold fewer than three points.
    pub open spec fn wf_but_ring(self) -> bool {
        &&& self.position.wf()
        &&& crate::geom::vec3_in(self.position, crate::geom::WORLD_MAX as int)
        &&& self.rotation.wf()
        &&& 0 <= self.height <= crate::geom::WORLD_MAX
        &&& self.walls.len() <= 65536
        &&& forall|i: int| 0 <= i < self.walls.len() ==> (#[trigger] self.walls[i]).wf()
        &&& forall|i: int|
            0 <= i < self.walls.len() ==> crate::geom::vec2_in(
                (#[trigger] self.walls[i]).local_pos,
                crate::geom::WORLD_MAX as int,
            )
        &&& self.doors.len() <= 4096
        &&& forall|i: int| 0 <= i < self.doors.len() ==> (#[trigger] self.doors[i]).1.wf()
        &&& forall|i: int, j: int|
            0 <= i < j < self.doors.len() ==> (#[trigger] self.doors[i]).0
                != (#[trigger] self.doors[j]).0
        &&& forall|i: int|
            0 <= i < self.doors.len() ==> ((#[trigger] self.doors[i]).0.0 as int)
                < self.next_door as int
        &&& self.modifiers.len() <= 4096
        &&& forall|i: int| 0 <= i < self.modifiers.len() ==> (#[trigger] self.modifiers[i]).wf()
        &&& self.floor_texture.wf()
        &&& self.roof_texture.wf()
    }

    pub open spec fn wf(self) -> bool {
        self.wf_but_ring() && self.walls.len() >= 3
    }

    /// A new room with the default square wall ring, one unit out from the
    /// centre on each side, and no doors or modifiers.
    pub fn new(
        name: String,
        position: Vec3,
        rotation: Rot2,
        height: i64,
        floor_texture: MeshTex,
        roof_texture: MeshTex,
        wall_texture: MeshTex,
    ) -> (r: Room)
        requires
            position.wf(),
            crate::geom::vec3_in(position, crate::geom::WORLD_MAX as int),
            rotation.wf(),
            0 <= height <= crate::geom::WORLD_MAX,
            floor_texture.wf(),
            roof_texture.wf(),
            wall_texture.wf(),
        ensures
            r.wf(),
            r.name == name,
            r.position == position,
            r.rotation == rotation,
            r.height == height,
            r.walls.len() == 4,
            r.doors.len() == 0,
            r.next_door == 0,
            r.modifiers.len() == 0,
            r.floor_texture == floor_texture,
            r.roof_texture == roof_texture,
            r.walls[0].local_pos == (Vec2 { x: (-crate::geom::FP_ONE) as i64, y: (-crate::geom::FP_ONE) as i64 }),
            r.walls[1].local_pos == (Vec2 { x: crate::geom::FP_ONE, y: (-crate::geom::FP_ONE) as i64 }),
            r.walls[2].local_pos == (Vec2 { x: crate::geom::FP_ONE, y: crate::geom::FP_ONE }),
            r.walls[3].local_pos == (Vec2 { x: (-crate::geom::FP_ONE) as i64, y: crate::geom::FP_ONE }),
            forall|i: int| 0 <= i < 4 ==> (#[trigger] r.walls[i]).wall_texture == wall_texture,
    {
        let mut walls: Vec<Wall> = Vec::new();
        walls.push(Wall { local_pos: Vec2 { x: (-crate::geom::FP_ONE) as i64, y: (-crate::geom::FP_ONE) as i64 }, wall_texture });
        walls.push(Wall { local_pos: Vec2 { x: crate::geom::FP_ONE, y: (-crate::geom::FP_ONE) as i64 }, wall_texture });
        walls.push(Wall { local_pos: Vec2 { x: crate::geom::FP_ONE, y: crate::geom::FP_ONE }, wall_texture });
        walls.push(Wall { local_pos: Vec2 { x: (-crate::geom::FP_ONE) as i64, y: crate::geom::FP_ONE }, wall_texture });
        Room {
            name,
            position,
            rotation,
            height,
            walls,
            doors: Vec::new(),
            modifiers: Vec::new(),
            floor_texture,
            roof_texture,
            next_door: 0,
        }
    }

    /// Stores a door under the next free id and hands the id back.
    pub fn new_door(&mut self, door: Door) -> (id: DoorId)
        requires
            old(self).wf(),
            door.wf(),
            old(self).doors.len() < 4096,
            old(self).next_door < u32::MAX,
        ensures
            final(self).wf(),
            id == DoorId(old(self).next_door),
            final(self).doors@ == old(self).doors@.push((id, door)),
            final(self).next_door == old(self).next_door + 1,
            final(self).walls == old(self).walls,
            final(self).position == old(self).position,
            final(self).rotation == old(self).rotation,
            final(self).height == old(self).height,
            final(self).modifiers == old(self).modifiers,
            final(self).floor_texture == old(self).floor_texture,
            final(self).roof_texture == old(self).roof_texture,
            final(self).name == old(self).name,
            find_door(final(self).doors@, id) == Some(door),
    {
        let id = DoorId(self.next_door);
        self.doors.push((id, door));
        self.next_door = self.next_door + 1;
        proof {
            assert forall|i: int, j: int|
                0 <= i < j < self.doors.len() implies (#[trigger] self.doors[i]).0
                != (#[trigger] self.doors[j]).0 by {
                if j == self.doors.len() - 1 {
                    assert(self.doors[i] == old(self).doors[i]);
                    assert((old(self).doors[i].0.0 as int) < old(self).next_door as int);
                }
            }
            lemma_find_door_push(old(self).doors@, id, door, old(self).next_door);
        }
        id
    }

    /// The control rectangle derived from the door stored under `id`, or
    /// nothing when no such door exists (a stale id never errors).
    #[verifier::rlimit(100)]
    #[verifier::spinoff_prover]
    pub fn get_control_rect(&self, id: &DoorId, away_from: bool) -> (r: Option<
        crate::hallway::ControlRect,
    >)
        requires
            self.wf(),
        ensures
            r == match find_door(self.doors@, *id) {
                Some(d) => Some(spec_control_rect(*self, d, away_from)),
                None => None::<crate::hallway::ControlRect>,
            },
            r is Some ==> r.unwrap().wf(),
    {
        let door_opt = lookup_door(&self.doors, *id);
        let d = match door_opt {
            Some(d) => d,
            None => {
                return None;
            },
        };
        proof {
            assert(find_door(self.doors@, *id) == Some(d));
            lemma_find_door_wf(self.doors@, *id);
        }
        let n = self.walls.len();
        let m = wall_index(d.wall, n);
        let m2 = if m + 1 == n {
            0
        } else {
            m + 1
        };
        let s = self.walls[m].local_pos;
        let e = self.walls[m2].local_pos;
        proof {
            assert(self.walls@[m as int].wf());
            assert(self.walls@[m2 as int].wf());
            assert(s == seg_start(*self, d));
            assert(e == seg_end(*self, d));
        }
        let l = crate::geom::dist(s, e);
        let t: i64 = if l == 0 {
            0
        } else {
            let num = crate::geom::mul_wide(d.size.x, crate::geom::FP_ONE);
            let t0 = crate::geom::idiv(num, 2 * l);
            if t0 < 0 {
                0
            } else if t0 > crate::geom::FP_ONE {
                crate::geom::FP_ONE
            } else {
                t0
            }
        };
        proof {
            assert(t as int == lerp_t(d, s, e));
        }
        let a: Vec2 = match d.halign {
            HorizontalAlign::Center => Vec2 {
                x: crate::geom::idiv(s.x + e.x, 2),
                y: crate::geom::idiv(s.y + e.y, 2),
            },
            HorizontalAlign::Left => Vec2 {
                x: s.x + crate::geom::mul_fx_unit(e.x - s.x, t),
                y: s.y + crate::geom::mul_fx_unit(e.y - s.y, t),
            },
            HorizontalAlign::Right => Vec2 {
                x: s.x + crate::geom::mul_fx_unit(e.x - s.x, crate::geom::FP_ONE - t),
                y: s.y + crate::geom::mul_fx_unit(e.y - s.y, crate::geom::FP_ONE - t),
            },
        };
        proof {
            crate::geom::lemma_divt_bound((s.x + e.x) as int, 2, 2 * COORD_MAX as int);
            crate::geom::lemma_divt_bound((s.y + e.y) as int, 2, 2 * COORD_MAX as int);
            assert(a == ctrl_anchor(d, s, e));
            assert(-3 * crate::geom::WORLD_MAX <= a.x <= 3 * crate::geom::WORLD_MAX && -3
                * crate::geom::WORLD_MAX <= a.y <= 3 * crate::geom::WORLD_MAX);
        }
        let rotated = crate::geom::rotate(a, self.rotation);
        let px = rotated.x + self.position.x;
        let pz = rotated.y + self.position.z;
        let py: i64 = (match d.valign {
            VerticalAlign::Top => self.height - d.size.y,
            VerticalAlign::Center => crate::geom::idiv(self.height - d.size.y, 2),
            VerticalAlign::Bottom => 0,
        }) + self.position.y;
        let midv = Vec2 { x: crate::geom::idiv(s.x + e.x, 2), y: crate::geom::idiv(s.y + e.y, 2) };
        proof {
            crate::geom::lemma_divt_scale((s.x + e.x) as int, 2, COORD_MAX as int);
            crate::geom::lemma_divt_scale((s.y + e.y) as int, 2, COORD_MAX as int);
            assert(midv == mid_of(s, e));
            assert(midv.wf());
        }
        let u = crate::geom::unit_of(midv);
        proof {
            assert(u == crate::geom::unit_spec(midv));
        }
        let q = u.quarter_turn_from();
        let q2 = if !away_from {
            q.half_turn_from()
        } else {
            q
        };
        let rinv = self.rotation.inverse();
        let rot = q2.compose(rinv);
        proof {
            assert(q == crate::geom::rot_quarter(u));
            assert(q2 == (if !away_from {
                crate::geom::rot_half(q)
            } else {
                q
            }));
            assert(rinv == crate::geom::rot_inv(self.rotation));
            assert(rot == crate::geom::rot_comp(q2, crate::geom::rot_inv(self.rotation)));
            assert(rot == ctrl_rot(self.rotation, midv, away_from));
        }
        let c = crate::hallway::ControlRect {
            position: Vec3 { x: px, y: py, z: pz },
            rotation: rot,
            size: d.size,
        };
        proof {
            assert(c == spec_control_rect(*self, d, away_from));
            assert(c.wf());
        }
        Some(c)
    }
}

/// Finds the door stored under `id`.
fn lookup_door(doors: &Vec<(DoorId, Door)>, id: DoorId) -> (r: Option<Door>)
    ensures
        r == find_door(doors@, id),
{
    let nd = doors.len();
    let mut k: usize = 0;
    proof {
        assert(doors@.subrange(0, nd as int) =~= doors@);
    }
    while k < nd
        invariant
            0 <= k <= nd == doors.len(),
            find_door(doors@, id) == find_door(doors@.subrange(k as int, nd as int), id),
        decreases nd - k,
    {
        proof {
            let suf = doors@.subrange(k as int, nd as int);
            assert(suf[0] == doors@[k as int]);
            assert(suf.drop_first() =~= doors@.subrange(k as int + 1, nd as int));
        }
        let (did, d) = doors[k];
        if did.0 == id.0 {
            proof {
                assert(did == id);
            }
            return Some(d);
        }
        k = k + 1;
    }
    proof {
        assert(doors@.subrange(nd as int, nd as int).len() == 0);
    }
    None
}

/// A door that `find_door` returns out of a well-formed list is well formed.
proof fn lemma_find_door_wf(doors: Seq<(DoorId, Door)>, id: DoorId)
    requires
        forall|i: int| 0 <= i < doors.len() ==> (#[trigger] doors[i]).1.wf(),
        find_door(doors, id) is Some,
    ensures
        find_door(doors, id).unwrap().wf(),
    decreases doors.len(),
{
    if doors.len() > 0 {
        if doors[0].0 == id {
        } else {
            assert forall|i: int| 0 <= i < doors.drop_first().len() implies (#[trigger] doors.drop_first()[i]).1.wf() by {
                assert(doors.drop_first()[i] == doors[i + 1]);
            }
            lemma_find_door_wf(doors.drop_first(), id);
        }
    }
}


/// What `Room::mesh` leaves at `r[off..]`: the roof, the floor (its index
/// list the roof's reversed), one mesh per wall segment, and every
/// modifier's block in list order, with the same facts `Room::mesh` states.
pub open spec fn room_meshes_ok(room: Room, r: Seq<crate::mesh::Mesh>, off: int) -> bool {
    let n = room.walls.len() as int;
    &&& r[off].texture == room.roof_texture.id.id
    &&& r[off + 1].texture == room.floor_texture.id.id
    &&& r[off].vertices.len() == n
    &&& r[off + 1].vertices.len() == n
    &&& r[off].indices.len() == 3 * (n - 2)
    &&& r[off + 1].indices.len() == 3 * (n - 2)
    &&& r[off + 1].indices@ == r[off].indices@.reverse()
    &&& forall|i: int|
        0 <= i < n ==> (#[trigger] r[off + 1].vertices[i]).position == floor_point(room, i) && r[off].vertices[i].position
            == roof_point(room, i)
    &&& forall|i: int|
        0 <= i < n ==> (#[trigger] r[off + 2 + i]).texture == room.walls[i].wall_texture.id.id
            && r[off + 2 + i].vertices.len() >= 4 && r[off + 2 + i].indices.len() == 3 * (r[off + 2
            + i].vertices.len() - 2) && (doors_on(room.doors@, i, n) == 0 ==> r[off + 2
            + i].vertices.len() == 4 && (forall|c: int|
            0 <= c < 4 ==> (#[trigger] r[off + 2 + i].vertices[c]).position == wall_segment_corner(
                room,
                i,
                c,
            )))
    &&& forall|j: int|
        0 <= j < room.modifiers.len() ==> #[trigger] crate::modifier::modifier_meshes_ok(
            room.modifiers[j],
            r,
            off + 2 + n + crate::modifier::mods_mesh_count(room.modifiers@.subrange(0, j)),
            room.position,
            room.rotation,
            room.height,
        )
}

/// A room's mesh block keeps its facts when the list grows beyond it.
pub proof fn lemma_room_ok_prefix(
    room: Room,
    r: Seq<crate::mesh::Mesh>,
    r2: Seq<crate::mesh::Mesh>,
    off: int,
)
    requires
        room_meshes_ok(room, r, off),
        0 <= off,
        off + 2 + room.walls.len() + crate::modifier::mods_mesh_count(room.modifiers@) <= r.len(),
        r.len() <= r2.len(),
        forall|i: int| 0 <= i < r.len() ==> r2[i] == #[trigger] r[i],
    ensures
        room_meshes_ok(room, r2, off),
{
    let n = room.walls.len() as int;
    crate::modifier::lemma_mods_mesh_count_nonneg(room.modifiers@);
    assert(r2[off] == r[off] && r2[off + 1] == r[off + 1]);
    assert forall|i: int| 0 <= i < n implies #[trigger] r2[off + 2 + i] == r[off + 2 + i] by {
        crate::modifier::lemma_mods_mesh_count_nonneg(room.modifiers@);
        assert(r2[off + 2 + i] == r[off + 2 + i]);
    }
    assert forall|i: int, c: int|
        0 <= i < n && 0 <= c < 4 && doors_on(room.doors@, i, n) == 0 implies (#[trigger] r2[off + 2
        + i].vertices[c]).position == wall_segment_corner(room, i, c) by {
        assert(r[off + 2 + i].vertices[c].position == wall_segment_corner(room, i, c));
        assert(r2[off + 2 + i] == r[off + 2 + i]);
    }
    assert forall|j: int| 0 <= j < room.modifiers.len() implies
        #[trigger] crate::modifier::modifier_meshes_ok(
        room.modifiers[j],
        r2,
        off + 2 + n + crate::modifier::mods_mesh_count(room.modifiers@.subrange(0, j)),
        room.position,
        room.rotation,
        room.height,
    ) by {
        let off_j = off + 2 + n + crate::modifier::mods_mesh_count(
            room.modifiers@.subrange(0, j),
        );
        assert(crate::modifier::modifier_meshes_ok(
            room.modifiers[j],
            r,
            off + 2 + n + crate::modifier::mods_mesh_count(room.modifiers@.subrange(0, j)),
            room.position,
            room.rotation,
            room.height,
        ));
        let nxt_j = room.modifiers@.subrange(0, j + 1);
        assert(nxt_j.drop_last() =~= room.modifiers@.subrange(0, j));
        assert(nxt_j.last() == room.modifiers@[j]);
        assert(crate::modifier::mods_mesh_count(nxt_j) == crate::modifier::mods_mesh_count(
            room.modifiers@.subrange(0, j),
        ) + room.modifiers@[j].mesh_count());
        crate::modifier::lemma_mods_count_mono(
            room.modifiers@,
            j + 1,
            room.modifiers@.len() as int,
        );
        assert(room.modifiers@.subrange(0, room.modifiers@.len() as int) =~= room.modifiers@);
        crate::modifier::lemma_mods_mesh_count_nonneg(room.modifiers@.subrange(0, j));
        crate::modifier::lemma_modifier_ok_prefix(
            room.modifiers@[j],
            r,
            r2,
            off_j,
            room.position,
            room.rotation,
            room.height,
        );
    }
}

/// Moving a room's mesh block to the end of a prefix keeps its facts, at
/// the prefix's length as the new offset.
pub proof fn lemma_room_ok_shift(room: Room, ms: Seq<crate::mesh::Mesh>, pre: Seq<crate::mesh::Mesh>)
    requires
        room_meshes_ok(room, ms, 0),
        ms.len() == 2 + room.walls.len() + crate::modifier::mods_mesh_count(room.modifiers@),
    ensures
        room_meshes_ok(room, pre + ms, pre.len() as int),
{
    let n = room.walls.len() as int;
    crate::modifier::lemma_mods_mesh_count_nonneg(room.modifiers@);
    let off = pre.len() as int;
    let r2 = pre + ms;
    assert(forall|i: int| 0 <= i < ms.len() ==> r2[off + i] == #[trigger] ms[i]);
    assert(ms[0int + 0] == ms[0]);
    assert(r2[off] == ms[0] && r2[off + 1] == ms[0int + 1]);
    assert forall|i: int| 0 <= i < n implies #[trigger] r2[off + 2 + i] == ms[0 + 2 + i] by {
        crate::modifier::lemma_mods_mesh_count_nonneg(room.modifiers@);
        assert(r2[off + 2 + i] == ms[2 + i]);
        assert(ms[0 + 2 + i] == ms[2 + i]);
    }
    assert forall|i: int, c: int|
        0 <= i < n && 0 <= c < 4 && doors_on(room.doors@, i, n) == 0 implies (#[trigger] r2[off + 2
        + i].vertices[c]).position == wall_segment_corner(room, i, c) by {
        assert(ms[0 + 2 + i].vertices[c].position == wall_segment_corner(room, i, c));
        assert(r2[off + 2 + i] == ms[0 + 2 + i]);
    }
    assert forall|j: int| 0 <= j < room.modifiers.len() implies
        #[trigger] crate::modifier::modifier_meshes_ok(
        room.modifiers[j],
        r2,
        off + 2 + n + crate::modifier::mods_mesh_count(room.modifiers@.subrange(0, j)),
        room.position,
        room.rotation,
        room.height,
    ) by {
        let cnt_j = crate::modifier::mods_mesh_count(room.modifiers@.subrange(0, j));
        assert(crate::modifier::modifier_meshes_ok(
            room.modifiers[j],
            ms,
            0 + 2 + n + cnt_j,
            room.position,
            room.rotation,
            room.height,
        ));
        let nxt_j = room.modifiers@.subrange(0, j + 1);
        assert(nxt_j.drop_last() =~= room.modifiers@.subrange(0, j));
        assert(nxt_j.last() == room.modifiers@[j]);
        assert(crate::modifier::mods_mesh_count(nxt_j) == cnt_j + room.modifiers@[
            j
        ].mesh_count());
        crate::modifier::lemma_mods_count_mono(
            room.modifiers@,
            j + 1,
            room.modifiers@.len() as int,
        );
        assert(room.modifiers@.subrange(0, room.modifiers@.len() as int) =~= room.modifiers@);
        crate::modifier::lemma_mods_mesh_count_nonneg(room.modifiers@.subrange(0, j));
        assert(2 + n + cnt_j + room.modifiers@[j].mesh_count() <= ms.len());
        assert forall|i: int| 0 <= i < room.modifiers@[j].mesh_count() implies #[trigger] r2[(off
            + 2 + n + cnt_j) + i] == ms[(2 + n + cnt_j) + i] by {
            let bi = 2 + n + cnt_j + i;
            assert(r2[off + bi] == ms[bi]);
        }
        crate::modifier::lemma_modifier_ok_translate(
            room.modifiers@[j],
            ms,
            r2,
            2 + n + cnt_j,
            off + 2 + n + cnt_j,
            room.position,
            room.rotation,
            room.height,
        );
    }
}

proof fn lemma_find_door_push(doors: Seq<(DoorId, Door)>, id: DoorId, door: Door, bound: u32)
    requires
        forall|i: int| 0 <= i < doors.len() ==> ((#[trigger] doors[i]).0.0 as int) < bound as int,
        id.0 == bound,
    ensures
        find_door(doors.push((id, door)), id) == Some(door),
    decreases doors.len(),
{
    if doors.len() == 0 {
        assert(doors.push((id, door))[0] == (id, door));
    } else {
        assert(doors.push((id, door))[0] == doors[0]);
        assert(doors[0].0 != id);
        assert(doors.push((id, door)).drop_first() =~= doors.drop_first().push((id, door)));
        assert forall|i: int| 0 <= i < doors.drop_first().len() implies ((#[trigger] doors.drop_first(
        )[i]).0.0 as int) < bound as int by {
            assert(doors.drop_first()[i] == doors[i + 1]);
        }
        lemma_find_door_push(doors.drop_first(), id, door, bound);
    }
}


/// How many doors sit on wall segment `idx` of an `n`-wall ring.
pub open spec fn doors_on(doors: Seq<(DoorId, Door)>, idx: int, n: int) -> int
    recommends
        n >= 1,
    decreases doors.len(),
{
    if doors.len() == 0 {
        0
    } else {
        doors_on(doors.drop_last(), idx, n) + if doors.last().1.wall as int % n == idx {
            1int
        } else {
            0int
        }
    }
}

/// Corner `c` of wall segment `index`'s quad, for a segment without doors:
/// the segment spans its length along the edge's unit direction, from the
/// floor to the room height, rotated into the room's frame and moved to the
/// room.
pub open spec fn wall_segment_corner(room: Room, index: int, c: int) -> Vec3 {
    let n = room.walls.len() as int;
    let w1 = room.walls[index].local_pos;
    let w2 = room.walls[if index + 1 == n {
        0int
    } else {
        index + 1
    }].local_pos;
    let l = crate::geom::dist_spec(w1, w2);
    let d2 = crate::geom::unit_spec(Vec2 { x: (w2.x - w1.x) as i64, y: (w2.y - w1.y) as i64 });
    let px: int = if c == 1 || c == 2 {
        l
    } else {
        0
    };
    let py: int = if c == 2 || c == 3 {
        room.height as int
    } else {
        0
    };
    let lx = (crate::geom::mul_fx_spec(px, d2.c as int) + w1.x) as i64;
    let ly = (crate::geom::mul_fx_spec(px, d2.s as int) + w1.y) as i64;
    Vec3 {
        x: (crate::geom::rot_x(Vec2 { x: lx, y: ly }, room.rotation) + room.position.x) as i64,
        y: (py + room.position.y) as i64,
        z: (crate::geom::rot_y(Vec2 { x: lx, y: ly }, room.rotation) + room.position.z) as i64,
    }
}

/// The room's floor ring: each wall's anchor point in order.
pub open spec fn walls_ring(walls: Seq<Wall>) -> Seq<Vec2> {
    walls.map_values(|w: Wall| w.local_pos)
}

/// Where floor vertex `i` lands: the winding-normalized ring point, rotated
/// into the room's frame and moved to the room, on the floor plane.
pub open spec fn floor_point(room: Room, i: int) -> Vec3 {
    let p = crate::ring::normalize_spec(walls_ring(room.walls@))[i];
    Vec3 {
        x: (crate::geom::rot_x(p, room.rotation) + room.position.x) as i64,
        y: room.position.y,
        z: (crate::geom::rot_y(p, room.rotation) + room.position.z) as i64,
    }
}

/// Where roof vertex `i` lands: the floor point raised by the room height.
pub open spec fn roof_point(room: Room, i: int) -> Vec3 {
    let p = floor_point(room, i);
    Vec3 { x: p.x, y: (p.y + room.height) as i64, z: p.z }
}

impl Room {
    /// The mesh of one wall segment: its rectangle with the unioned door
    /// cut-outs of this segment as holes, placed into the world.  Exactly
    /// two triangles per vertex beyond the first two; a segment without
    /// doors is a plain quad.
    #[verifier::rlimit(80)]
    fn wall_segment_mesh(&self, index: usize) -> (m: crate::mesh::Mesh)
        requires
            self.wf(),
            index < self.walls.len(),
        ensures
            m.wf(),
            m.texture == self.walls[index as int].wall_texture.id.id,
            m.vertices.len() >= 4,
            m.indices.len() == 3 * (m.vertices.len() - 2),
            doors_on(self.doors@, index as int, self.walls.len() as int) == 0 ==> m.vertices.len()
                == 4 && (forall|c: int|
                0 <= c < 4 ==> (#[trigger] m.vertices[c]).position == wall_segment_corner(
                    *self,
                    index as int,
                    c,
                )),
    {
        let n = self.walls.len();
        proof {
            assert(self.walls@[index as int].wf());
            assert(self.walls@[if index + 1 == n { 0int } else { index as int + 1 }].wf());
            assert(crate::geom::vec2_in(
                self.walls@[index as int].local_pos,
                crate::geom::WORLD_MAX as int,
            ));
            assert(crate::geom::vec2_in(
                self.walls@[if index + 1 == n { 0int } else { index as int + 1 }].local_pos,
                crate::geom::WORLD_MAX as int,
            ));
        }
        let w1 = self.walls[index];
        let w2 = self.walls[if index + 1 == n {
            0
        } else {
            index + 1
        }];
        let seg_l = crate::geom::dist(w1.local_pos, w2.local_pos);
        proof {
            let dx = w1.local_pos.x - w2.local_pos.x;
            let dy = w1.local_pos.y - w2.local_pos.y;
            assert(0 <= dx * dx + dy * dy <= (crate::geom::COORD_MAX as int) * (
            crate::geom::COORD_MAX as int)) by (nonlinear_arith)
                requires
                    -2 * crate::geom::WORLD_MAX <= dx <= 2 * crate::geom::WORLD_MAX,
                    -2 * crate::geom::WORLD_MAX <= dy <= 2 * crate::geom::WORLD_MAX,
                    crate::geom::WORLD_MAX == 0x100_0000,
                    crate::geom::COORD_MAX == 0x4000_0000,
            ;
            crate::geom::lemma_sqrt_le(dx * dx + dy * dy, crate::geom::COORD_MAX as int);
        }
        let d2 = crate::geom::unit_of(
            Vec2 { x: w2.local_pos.x - w1.local_pos.x, y: w2.local_pos.y - w1.local_pos.y },
        );
        // Collect this segment's door cut-outs, dropping degenerate ones.
        let nd = self.doors.len();
        let mut rects: Vec<crate::holes::Rect2> = Vec::new();
        let mut k: usize = 0;
        proof {
            assert(self.doors@.subrange(0, 0).len() == 0);
        }
        while k < nd
            invariant
                0 <= k <= nd == self.doors.len(),
                self.wf(),
                n == self.walls.len(),
                index < n,
                0 <= seg_l <= crate::geom::COORD_MAX,
                forall|i: int| 0 <= i < rects.len() ==> (#[trigger] rects[i]).wf(),
                doors_on(self.doors@.subrange(0, k as int), index as int, n as int) >= 0,
                doors_on(self.doors@.subrange(0, k as int), index as int, n as int) == 0
                    ==> rects.len() == 0,
            decreases nd - k,
        {
            proof {
                assert(self.doors@[k as int].1.wf());
                let pre = self.doors@.subrange(0, k as int);
                let nxt = self.doors@.subrange(0, k as int + 1);
                assert(nxt.drop_last() =~= pre);
                assert(nxt.last() == self.doors@[k as int]);
            }
            let (_, d) = self.doors[k];
            let m = wall_index(d.wall, n);
            if m == index {
                let rect = d.to_rect(seg_l, self.height);
                if rect.x0 < rect.x1 && rect.y0 < rect.y1 {
                    rects.push(rect);
                }
            }
            k = k + 1;
        }
        proof {
            assert(self.doors@.subrange(0, nd as int) =~= self.doors@);
        }
        let (rings, groups) = crate::holes::hole_rings(&rects);
        proof {
            if rects.len() == 0 {
                if crate::holes::views(groups@).len() > 0 {
                    assert(crate::holes::views(groups@)[0].len() >= 1) by {
                        assert(crate::holes::closed_ok(crate::holes::views(groups@), rects@));
                    }
                    assert(crate::holes::chain_ok(crate::holes::views(groups@)[0], rects@)) by {
                        assert(crate::holes::closed_ok(crate::holes::views(groups@), rects@));
                    }
                    assert((crate::holes::views(groups@)[0][0] as int) < 0);
                    assert(false);
                }
                assert(rings.len() == 0);
            }
        }
        let mut outer: Vec<Vec2> = Vec::new();
        outer.push(Vec2 { x: 0, y: 0 });
        outer.push(Vec2 { x: seg_l, y: 0 });
        outer.push(Vec2 { x: seg_l, y: self.height });
        outer.push(Vec2 { x: 0, y: self.height });
        proof {
            assert(forall|i: int| 0 <= i < outer@.len() ==> (#[trigger] outer@[i]).wf());
            assert(forall|i: int|
                0 <= i < rings.len() ==> (#[trigger] rings@[i])@.len() >= 3
                    && crate::ring::ring_wf(rings@[i]@));
        }
        let (combined, tris) = crate::holes::triangulate_with_holes(&outer, &rings);
        proof {
            if rings.len() == 0 {
                assert(crate::holes::ring_views(rings@).len() == 0);
                assert(crate::holes::holes_len_total(crate::holes::ring_views(rings@)) == 0);
            }
        }
        // Map the plane points into the world along the segment.
        proof {
            if rings.len() == 0 {
                assert(combined@ == outer@);
                assert(outer@ =~= seq![
                    Vec2 { x: 0, y: 0 },
                    Vec2 { x: seg_l, y: 0 },
                    Vec2 { x: seg_l, y: self.height },
                    Vec2 { x: 0, y: self.height },
                ]);
            }
        }
        let nc = combined.len();
        let mut ps: Vec<Vec3> = Vec::new();
        let mut k2: usize = 0;
        while k2 < nc
            invariant
                0 <= k2 <= nc == combined.len(),
                ps.len() == k2,
                crate::ring::ring_wf(combined@),
                d2.wf(),
                self.wf(),
                n == self.walls.len(),
                index < n,
                w1 == self.walls[index as int],
                w2 == self.walls[if index + 1 == n {
                    0int
                } else {
                    index as int + 1
                }],
                seg_l == crate::geom::dist_spec(w1.local_pos, w2.local_pos),
                0 <= seg_l <= crate::geom::COORD_MAX,
                d2 == crate::geom::unit_spec(
                    Vec2 {
                        x: (w2.local_pos.x - w1.local_pos.x) as i64,
                        y: (w2.local_pos.y - w1.local_pos.y) as i64,
                    },
                ),
                combined@ == seq![
                    Vec2 { x: 0, y: 0 },
                    Vec2 { x: seg_l, y: 0 },
                    Vec2 { x: seg_l, y: self.height },
                    Vec2 { x: 0, y: self.height },
                ] ==> forall|i: int|
                    0 <= i < k2 ==> #[trigger] ps@[i] == wall_segment_corner(
                        *self,
                        index as int,
                        i,
                    ),
            decreases nc - k2,
        {
            proof {
                assert(combined@[k2 as int].wf());
                assert(crate::geom::vec2_in(
                    self.walls@[index as int].local_pos,
                    crate::geom::WORLD_MAX as int,
                ));
            }
            let p = combined[k2];
            let lx = crate::geom::mul_fx_unit(p.x, d2.c) + w1.local_pos.x;
            let ly = crate::geom::mul_fx_unit(p.x, d2.s) + w1.local_pos.y;
            let rot = crate::geom::rotate(Vec2 { x: lx, y: ly }, self.rotation);
            ps.push(
                Vec3 {
                    x: rot.x + self.position.x,
                    y: p.y + self.position.y,
                    z: rot.y + self.position.z,
                },
            );
            k2 = k2 + 1;
        }
        let uvs = w1.wall_texture.get_tex_coords(&combined);
        proof {
            assert(self.walls@[index as int].wall_texture.wf());
            crate::holes::lemma_holes_len_total_nonneg(crate::holes::ring_views(rings@));
        }
        let fidx = crate::tri::flat_indices(&tris, nc, false);
        let m = crate::mesh::build_mesh(w1.wall_texture.id.id, &ps, &uvs, fidx);
        proof {
            if doors_on(self.doors@, index as int, n as int) == 0 {
                assert(rects.len() == 0);
                assert(rings.len() == 0);
                assert(combined@ == seq![
                    Vec2 { x: 0, y: 0 },
                    Vec2 { x: seg_l, y: 0 },
                    Vec2 { x: seg_l, y: self.height },
                    Vec2 { x: 0, y: self.height },
                ]);
                assert(forall|c: int|
                    0 <= c < 4 ==> (#[trigger] m.vertices[c]).position == ps@[c]);
            }
        }
        m
    }

    /// Meshes the room: the roof, the floor, one mesh per wall segment, and
    /// every modifier's meshes, in that order.  A wall ring reduced below
    /// three points mid-edit meshes to nothing rather than failing.
    pub fn mesh(&self) -> (r: Vec<crate::mesh::Mesh>)
        requires
            self.wf_but_ring(),
        ensures
            self.walls.len() < 3 ==> r.len() == 0,
            self.walls.len() >= 3 ==> r.len() == 2 + self.walls.len()
                + crate::modifier::mods_mesh_count(self.modifiers@),
            forall|i: int| 0 <= i < r.len() ==> (#[trigger] r@[i]).wf(),
            self.walls.len() >= 3 ==> r@[0].texture == self.roof_texture.id.id,
            self.walls.len() >= 3 ==> r@[1].texture == self.floor_texture.id.id,
            self.walls.len() >= 3 ==> r@[0].vertices.len() == self.walls.len(),
            self.walls.len() >= 3 ==> r@[1].vertices.len() == self.walls.len(),
            self.walls.len() >= 3 ==> r@[0].indices.len() == 3 * (self.walls.len() - 2),
            self.walls.len() >= 3 ==> r@[1].indices.len() == 3 * (self.walls.len() - 2),
            self.walls.len() >= 3 ==> r@[1].indices@ == r@[0].indices@.reverse(),
            self.walls.len() >= 3 ==> forall|i: int|
                0 <= i < self.walls.len() ==> (#[trigger] r@[1].vertices[i]).position
                    == floor_point(*self, i) && r@[0].vertices[i].position == roof_point(*self, i),
            self.walls.len() >= 3 ==> forall|i: int|
                2 <= i < 2 + self.walls.len() ==> (#[trigger] r@[i]).texture == self.walls[i
                    - 2].wall_texture.id.id && r@[i].vertices.len() >= 4 && r@[i].indices.len() == 3
                    * (r@[i].vertices.len() - 2) && (doors_on(
                    self.doors@,
                    i - 2,
                    self.walls.len() as int,
                ) == 0 ==> r@[i].vertices.len() == 4 && (forall|c: int|
                    0 <= c < 4 ==> (#[trigger] r@[i].vertices[c]).position == wall_segment_corner(
                        *self,
                        i - 2,
                        c,
                    ))),
            self.walls.len() >= 3 ==> forall|j: int|
                0 <= j < self.modifiers.len() ==> #[trigger] crate::modifier::modifier_meshes_ok(
                    self.modifiers[j],
                    r@,
                    2 + self.walls.len() + crate::modifier::mods_mesh_count(
                        self.modifiers@.subrange(0, j),
                    ),
                    self.position,
                    self.rotation,
                    self.height,
                ),
            self.walls.len() >= 3 ==> room_meshes_ok(*self, r@, 0),
    {
        let n = self.walls.len();
        if n < 3 {
            let empty: Vec<crate::mesh::Mesh> = Vec::new();
            return empty;
        }
        // Floor ring, winding normalized.
        let mut floor_ring: Vec<Vec2> = Vec::new();
        let mut k: usize = 0;
        while k < n
            invariant
                0 <= k <= n == self.walls.len(),
                self.wf(),
                floor_ring.len() == k,
                forall|i: int|
                    0 <= i < k ==> #[trigger] floor_ring@[i] == self.walls[i].local_pos,
                forall|i: int|
                    0 <= i < k ==> (#[trigger] floor_ring@[i]).wf() && crate::geom::vec2_in(
                        floor_ring@[i],
                        crate::geom::WORLD_MAX as int,
                    ),
            decreases n - k,
        {
            proof {
                assert(self.walls@[k as int].wf());
                assert(crate::geom::vec2_in(
                    self.walls@[k as int].local_pos,
                    crate::geom::WORLD_MAX as int,
                ));
            }
            floor_ring.push(self.walls[k].local_pos);
            k = k + 1;
        }
        proof {
            assert(forall|i: int|
                0 <= i < floor_ring@.len() ==> (#[trigger] floor_ring@[i]).wf());
        }
        let norm = crate::ring::normalize_winding(&floor_ring);
        proof {
            assert(floor_ring@ =~= walls_ring(self.walls@));
            assert(norm@ == crate::ring::normalize_spec(walls_ring(self.walls@)));
            assert(norm@.len() == n) by {
                assert(floor_ring@.reverse().len() == floor_ring@.len());
            }
            assert forall|i: int| 0 <= i < norm@.len() implies crate::geom::vec2_in(
                #[trigger] norm@[i],
                crate::geom::WORLD_MAX as int,
            ) by {
                if crate::ring::area2(floor_ring@) > 0 {
                    assert(norm@[i] == floor_ring@[floor_ring@.len() - 1 - i]);
                } else {
                    assert(norm@[i] == floor_ring@[i]);
                }
            }
        }
        let tris = crate::tri::triangulate(&norm);
        let roof_idx = crate::tri::flat_indices(&tris, n, false);
        let floor_idx = crate::tri::flat_indices(&tris, n, true);
        let mut floor_ps: Vec<Vec3> = Vec::new();
        let mut roof_ps: Vec<Vec3> = Vec::new();
        let mut plane: Vec<Vec2> = Vec::new();
        let mut k2: usize = 0;
        while k2 < n
            invariant
                0 <= k2 <= n,
                norm.len() == n,
                self.wf(),
                norm@ == crate::ring::normalize_spec(walls_ring(self.walls@)),
                floor_ps.len() == k2,
                roof_ps.len() == k2,
                plane.len() == k2,
                forall|i: int|
                    0 <= i < k2 ==> (#[trigger] plane@[i]).wf(),
                forall|i: int|
                    0 <= i < k2 ==> #[trigger] floor_ps@[i] == floor_point(*self, i)
                        && roof_ps@[i] == roof_point(*self, i),
                forall|i: int|
                    0 <= i < norm@.len() ==> crate::geom::vec2_in(
                        #[trigger] norm@[i],
                        crate::geom::WORLD_MAX as int,
                    ),
            decreases n - k2,
        {
            proof {
                assert(crate::geom::vec2_in(norm@[k2 as int], crate::geom::WORLD_MAX as int));
            }
            let p = norm[k2];
            let rot = crate::geom::rotate(p, self.rotation);
            let wx = rot.x + self.position.x;
            let wz = rot.y + self.position.z;
            floor_ps.push(Vec3 { x: wx, y: self.position.y, z: wz });
            roof_ps.push(Vec3 { x: wx, y: self.position.y + self.height, z: wz });
            plane.push(Vec2 { x: wx, y: wz });
            k2 = k2 + 1;
        }
        proof {
            assert(forall|i: int| 0 <= i < plane@.len() ==> (#[trigger] plane@[i]).wf());
        }
        let roof_uv = self.roof_texture.get_tex_coords(&plane);
        let floor_uv = self.floor_texture.get_tex_coords(&plane);
        let mut meshs: Vec<crate::mesh::Mesh> = Vec::new();
        meshs.push(crate::mesh::build_mesh(self.roof_texture.id.id, &roof_ps, &roof_uv, roof_idx));
        meshs.push(
            crate::mesh::build_mesh(self.floor_texture.id.id, &floor_ps, &floor_uv, floor_idx),
        );
        // Walls.
        let mut w: usize = 0;
        while w < n
            invariant
                0 <= w <= n == self.walls.len(),
                self.wf(),
                meshs.len() == 2 + w,
                forall|i: int| 0 <= i < meshs.len() ==> (#[trigger] meshs@[i]).wf(),
                meshs@[0].texture == self.roof_texture.id.id,
                meshs@[1].texture == self.floor_texture.id.id,
                meshs@[0].vertices.len() == n,
                meshs@[1].vertices.len() == n,
                meshs@[0].indices.len() == 3 * (n - 2),
                meshs@[1].indices.len() == 3 * (n - 2),
                meshs@[1].indices@ == meshs@[0].indices@.reverse(),
                forall|i: int|
                    0 <= i < n ==> (#[trigger] meshs@[1].vertices[i]).position == floor_point(
                        *self,
                        i,
                    ) && meshs@[0].vertices[i].position == roof_point(*self, i),
                forall|i: int|
                    2 <= i < 2 + w ==> (#[trigger] meshs@[i]).texture == self.walls[i
                        - 2].wall_texture.id.id && meshs@[i].vertices.len() >= 4
                        && meshs@[i].indices.len() == 3 * (meshs@[i].vertices.len() - 2) && (
                    doors_on(self.doors@, i - 2, n as int) == 0 ==> meshs@[i].vertices.len() == 4
                        && (forall|c: int|
                        0 <= c < 4 ==> (#[trigger] meshs@[i].vertices[c]).position
                            == wall_segment_corner(*self, i - 2, c))),
            decreases n - w,
        {
            let wm = self.wall_segment_mesh(w);
            meshs.push(wm);
            w = w + 1;
        }
        // Modifiers.
        let nm = self.modifiers.len();
        let mut mi: usize = 0;
        proof {
            assert(crate::modifier::mods_mesh_count(self.modifiers@.subrange(0, 0)) == 0);
        }
        while mi < nm
            invariant
                0 <= mi <= nm == self.modifiers.len(),
                self.wf(),
                n == self.walls.len(),
                meshs.len() == 2 + n + crate::modifier::mods_mesh_count(
                    self.modifiers@.subrange(0, mi as int),
                ),
                crate::modifier::mods_mesh_count(self.modifiers@.subrange(0, mi as int)) >= 0,
                forall|i: int| 0 <= i < meshs.len() ==> (#[trigger] meshs@[i]).wf(),
                meshs@[0].texture == self.roof_texture.id.id,
                meshs@[1].texture == self.floor_texture.id.id,
                meshs@[0].vertices.len() == n,
                meshs@[1].vertices.len() == n,
                meshs@[0].indices.len() == 3 * (n - 2),
                meshs@[1].indices.len() == 3 * (n - 2),
                meshs@[1].indices@ == meshs@[0].indices@.reverse(),
                forall|i: int|
                    0 <= i < n ==> (#[trigger] meshs@[1].vertices[i]).position == floor_point(
                        *self,
                        i,
                    ) && meshs@[0].vertices[i].position == roof_point(*self, i),
                forall|i: int|
                    2 <= i < 2 + n ==> (#[trigger] meshs@[i]).texture == self.walls[i
                        - 2].wall_texture.id.id && meshs@[i].vertices.len() >= 4
                        && meshs@[i].indices.len() == 3 * (meshs@[i].vertices.len() - 2) && (
                    doors_on(self.doors@, i - 2, n as int) == 0 ==> meshs@[i].vertices.len() == 4
                        && (forall|c: int|
                        0 <= c < 4 ==> (#[trigger] meshs@[i].vertices[c]).position
                            == wall_segment_corner(*self, i - 2, c))),
                forall|j: int|
                    0 <= j < mi ==> #[trigger] crate::modifier::modifier_meshes_ok(
                        self.modifiers[j],
                        meshs@,
                        2 + n + crate::modifier::mods_mesh_count(self.modifiers@.subrange(0, j)),
                        self.position,
                        self.rotation,
                        self.height,
                    ),
            decreases nm - mi,
        {
            proof {
                assert(self.modifiers@[mi as int].wf());
            }
            let mut ms = self.modifiers[mi].gen_mesh(self.position, self.rotation, self.height);
            let ghost pre = meshs@;
            let ghost msv = ms@;
            meshs.append(&mut ms);
            proof {
                let prefix = self.modifiers@.subrange(0, mi as int);
                let nxt = self.modifiers@.subrange(0, mi as int + 1);
                crate::modifier::lemma_mods_mesh_count_nonneg(nxt);
                assert(nxt.drop_last() =~= prefix);
                assert(nxt.last() == self.modifiers@[mi as int]);
                assert(meshs@ == pre + msv);
                assert(forall|i: int| 0 <= i < pre.len() ==> #[trigger] meshs@[i] == pre[i]);
                assert(meshs@[0] == pre[0]);
                assert(meshs@[1] == pre[1]);
                crate::modifier::lemma_modifier_ok_shift(
                    self.modifiers@[mi as int],
                    msv,
                    pre,
                    self.position,
                    self.rotation,
                    self.height,
                );
                assert forall|j: int| 0 <= j < mi + 1 implies
                    #[trigger] crate::modifier::modifier_meshes_ok(
                    self.modifiers[j],
                    meshs@,
                    2 + n + crate::modifier::mods_mesh_count(self.modifiers@.subrange(0, j)),
                    self.position,
                    self.rotation,
                    self.height,
                ) by {
                    let off_j = 2 + n + crate::modifier::mods_mesh_count(
                        self.modifiers@.subrange(0, j),
                    );
                    if j < mi {
                        let nxt_j = self.modifiers@.subrange(0, j + 1);
                        assert(nxt_j.drop_last() =~= self.modifiers@.subrange(0, j));
                        assert(nxt_j.last() == self.modifiers@[j]);
                        crate::modifier::lemma_mods_count_mono(self.modifiers@, j + 1, mi as int);
                        crate::modifier::lemma_mods_mesh_count_nonneg(
                            self.modifiers@.subrange(0, j),
                        );
                        crate::modifier::lemma_modifier_ok_prefix(
                            self.modifiers@[j],
                            pre,
                            meshs@,
                            off_j,
                            self.position,
                            self.rotation,
                            self.height,
                        );
                    } else {
                        assert(off_j == pre.len());
                    }
                }
            }
            mi = mi + 1;
        }
        proof {
            assert(self.modifiers@.subrange(0, nm as int) =~= self.modifiers@);
            assert(room_meshes_ok(*self, meshs@, 0)) by {
                assert forall|j: int| 0 <= j < self.modifiers.len() implies
                    #[trigger] crate::modifier::modifier_meshes_ok(
                    self.modifiers[j],
                    meshs@,
                    0 + 2 + self.walls.len() as int + crate::modifier::mods_mesh_count(
                        self.modifiers@.subrange(0, j),
                    ),
                    self.position,
                    self.rotation,
                    self.height,
                ) by {
                    assert(crate::modifier::modifier_meshes_ok(
                        self.modifiers[j],
                        meshs@,
                        2 + n + crate::modifier::mods_mesh_count(
                            self.modifiers@.subrange(0, j),
                        ),
                        self.position,
                        self.rotation,
                        self.height,
                    ));
                }
            }
        }
        meshs
    }
}

} // verus!
