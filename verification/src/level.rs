//! The level: every room keyed by its id, every hallway, and the per-frame
//! pass that re-anchors hallways and regenerates all meshes.

use vstd::prelude::*;

use crate::geom::{Vec2, Vec3};
use crate::hallway::{updated_rect, HallWay};
use crate::mesh::Mesh;
use crate::room::{Room, RoomId};

verus! {

/// The game folder's configuration: the order its levels load in.
#[derive(Clone, Debug)]
pub struct GameConfigFile {
    pub level_order: Vec<String>,
}

impl GameConfigFile {
    /// An empty configuration.
    pub fn new() -> (r: GameConfigFile)
        ensures
            r.level_order@.len() == 0,
    {
        GameConfigFile { level_order: Vec::new() }
    }
}

/// The whole level: rooms in an insertion-stable table keyed by id, and the
/// hallways connecting them.
#[derive(Clone, Debug)]
pub struct LevelState {
    pub hallways: Vec<HallWay>,
    pub rooms: Vec<(RoomId, Room)>,
    pub next_room: u32,
}

/// Total meshes the rooms generate.
pub open spec fn rooms_mesh_total(rooms: Seq<(RoomId, Room)>) -> int
    decreases rooms.len(),
{
    if rooms.len() == 0 {
        0
    } else {
        rooms_mesh_total(rooms.drop_last()) + 2 + rooms.last().1.walls.len()
            + crate::modifier::mods_mesh_count(rooms.last().1.modifiers@)
    }
}

/// Total meshes the hallways generate.
pub open spec fn hallways_mesh_total(hs: Seq<HallWay>) -> int
    decreases hs.len(),
{
    if hs.len() == 0 {
        0
    } else {
        hallways_mesh_total(hs.drop_last()) + 4 * (hs.last().middle.len() + 1)
    }
}

proof fn lemma_rooms_total_mono(s: Seq<(RoomId, Room)>, a: int, b: int)
    requires
        0 <= a <= b <= s.len(),
    ensures
        rooms_mesh_total(s.subrange(0, a)) <= rooms_mesh_total(s.subrange(0, b)),
    decreases b - a,
{
    if a < b {
        lemma_rooms_total_mono(s, a, b - 1);
        assert(s.subrange(0, b).drop_last() =~= s.subrange(0, b - 1));
        assert(s.subrange(0, b).last() == s[b - 1]);
        crate::modifier::lemma_mods_mesh_count_nonneg(s[b - 1].1.modifiers@);
    }
}

proof fn lemma_hallways_total_mono(s: Seq<HallWay>, a: int, b: int)
    requires
        0 <= a <= b <= s.len(),
    ensures
        hallways_mesh_total(s.subrange(0, a)) <= hallways_mesh_total(s.subrange(0, b)),
    decreases b - a,
{
    if a < b {
        lemma_hallways_total_mono(s, a, b - 1);
        assert(s.subrange(0, b).drop_last() =~= s.subrange(0, b - 1));
        assert(s.subrange(0, b).last() == s[b - 1]);
    }
}

proof fn lemma_totals_nonneg(rooms: Seq<(RoomId, Room)>, hs: Seq<HallWay>)
    ensures
        rooms_mesh_total(rooms) >= 0,
        hallways_mesh_total(hs) >= 0,
    decreases rooms.len() + hs.len(),
{
    if rooms.len() > 0 {
        lemma_totals_nonneg(rooms.drop_last(), hs);
        crate::modifier::lemma_mods_mesh_count_nonneg(rooms.last().1.modifiers@);
    } else if hs.len() > 0 {
        lemma_totals_nonneg(rooms, hs.drop_last());
    }
}

impl LevelState {
    pub open spec fn wf(self) -> bool {
        &&& self.rooms.len() <= 4096
        &&& forall|i: int| 0 <= i < self.rooms.len() ==> (#[trigger] self.rooms[i]).1.wf()
        &&& forall|i: int, j: int|
            0 <= i < j < self.rooms.len() ==> (#[trigger] self.rooms[i]).0
                != (#[trigger] self.rooms[j]).0
        &&& forall|i: int|
            0 <= i < self.rooms.len() ==> ((#[trigger] self.rooms[i]).0.0 as int)
                < self.next_room as int
        &&& self.hallways.len() <= 4096
        &&& forall|i: int| 0 <= i < self.hallways.len() ==> (#[trigger] self.hallways[i]).wf()
    }

    /// A level with nothing in it.
    pub fn none() -> (r: LevelState)
        ensures
            r.wf(),
            r.rooms@.len() == 0,
            r.hallways@.len() == 0,
            r.next_room == 0,
    {
        LevelState { hallways: Vec::new(), rooms: Vec::new(), next_room: 0 }
    }

    /// Stores a room under the next free id and hands the id back.
    pub fn new_room(&mut self, room: Room) -> (id: RoomId)
        requires
            old(self).wf(),
            room.wf(),
            old(self).rooms.len() < 4096,
            old(self).next_room < u32::MAX,
        ensures
            final(self).wf(),
            id == RoomId(old(self).next_room),
            final(self).rooms@ == old(self).rooms@.push((id, room)),
            final(self).hallways == old(self).hallways,
            final(self).next_room == old(self).next_room + 1,
            crate::hallway::find_room(final(self).rooms@, id) == Some(room),
    {
        let id = RoomId(self.next_room);
        self.rooms.push((id, room));
        self.next_room = self.next_room + 1;
        proof {
            assert forall|i: int, j: int|
                0 <= i < j < self.rooms.len() implies (#[trigger] self.rooms[i]).0
                != (#[trigger] self.rooms[j]).0 by {
                if j == self.rooms.len() - 1 {
                    assert(self.rooms[i] == old(self).rooms[i]);
                    assert((old(self).rooms[i].0.0 as int) < old(self).next_room as int);
                }
            }
            lemma_find_room_push(old(self).rooms@, id, room, old(self).next_room);
        }
        id
    }

    /// Re-anchors every hallway to its bound doors: each end takes its
    /// door's current control rectangle when the binding is live, and stays
    /// as it was when the binding is disabled or stale.
    pub fn update(&mut self)
        requires
            old(self).wf(),
        ensures
            final(self).wf(),
            final(self).rooms == old(self).rooms,
            final(self).next_room == old(self).next_room,
            final(self).hallways.len() == old(self).hallways.len(),
            forall|i: int|
                0 <= i < old(self).hallways.len() ==> {
                    let h0 = #[trigger] old(self).hallways@[i];
                    let h1 = final(self).hallways@[i];
                    &&& h1.start == updated_rect(h0.start_location, h0.start, old(self).rooms@, true)
                    &&& h1.end == updated_rect(h0.end_location, h0.end, old(self).rooms@, false)
                    &&& h1.start_texture == h0.start_texture
                    &&& h1.middle == h0.middle
                    &&& h1.start_location == h0.start_location
                    &&& h1.end_location == h0.end_location
                },
    {
        let n = self.hallways.len();
        let mut out: Vec<HallWay> = Vec::new();
        let mut i: usize = 0;
        while i < n
            invariant
                0 <= i <= n == old(self).hallways.len(),
                old(self).wf(),
                self.rooms == old(self).rooms,
                self.next_room == old(self).next_room,
                self.hallways@ == old(self).hallways@.subrange(i as int, n as int),
                out.len() == i,
                forall|j: int|
                    0 <= j < i ==> {
                        let h0 = #[trigger] old(self).hallways@[j];
                        let h1 = out@[j];
                        &&& h1.start == updated_rect(
                            h0.start_location,
                            h0.start,
                            old(self).rooms@,
                            true,
                        )
                        &&& h1.end == updated_rect(h0.end_location, h0.end, old(self).rooms@, false)
                        &&& h1.start_texture == h0.start_texture
                        &&& h1.middle == h0.middle
                        &&& h1.start_location == h0.start_location
                        &&& h1.end_location == h0.end_location
                        &&& h1.wf()
                    },
            decreases n - i,
        {
            proof {
                assert(old(self).hallways@[i as int].wf());
                assert(self.hallways@[0] == old(self).hallways@[i as int]);
                assert(crate::hallway::rooms_wf(self.rooms@));
            }
            let mut h = self.hallways.remove(0);
            proof {
                assert(self.hallways@ =~= old(self).hallways@.subrange(i as int + 1, n as int));
                assert(h == old(self).hallways@[i as int]);
            }
            h.update_door_location(&self.rooms);
            out.push(h);
            i = i + 1;
        }
        self.hallways = out;
        proof {
            assert forall|i: int|
                0 <= i < self.hallways.len() implies (#[trigger] self.hallways[i]).wf() by {
                let h0 = old(self).hallways@[i];
                assert(self.hallways@[i].wf());
            }
        }
    }

    /// Meshes the whole level: every room's meshes in table order, then
    /// every hallway's.
    pub fn mesh(&self) -> (r: Vec<Mesh>)
        requires
            self.wf(),
        ensures
            r.len() == rooms_mesh_total(self.rooms@) + hallways_mesh_total(self.hallways@),
            forall|i: int| 0 <= i < r.len() ==> (#[trigger] r@[i]).wf(),
            forall|i: int|
                0 <= i < self.rooms.len() ==> #[trigger] crate::room::room_meshes_ok(
                    self.rooms[i].1,
                    r@,
                    rooms_mesh_total(self.rooms@.subrange(0, i)),
                ),
            forall|i: int, sp: int|
                0 <= i < self.hallways.len() && 0 <= sp <= self.hallways[i].middle.len()
                    ==> #[trigger] crate::hallway::span_meshes_ok(
                    self.hallways[i],
                    r@,
                    rooms_mesh_total(self.rooms@) + hallways_mesh_total(
                        self.hallways@.subrange(0, i),
                    ),
                    sp,
                ),
    {
        let mut meshes: Vec<Mesh> = Vec::new();
        let nr = self.rooms.len();
        let mut i: usize = 0;
        proof {
            assert(rooms_mesh_total(self.rooms@.subrange(0, 0)) == 0);
        }
        while i < nr
            invariant
                0 <= i <= nr == self.rooms.len(),
                self.wf(),
                meshes.len() == rooms_mesh_total(self.rooms@.subrange(0, i as int)),
                meshes.len() >= 0,
                forall|j: int| 0 <= j < meshes.len() ==> (#[trigger] meshes@[j]).wf(),
                forall|j: int|
                    0 <= j < i ==> #[trigger] crate::room::room_meshes_ok(
                        self.rooms[j].1,
                        meshes@,
                        rooms_mesh_total(self.rooms@.subrange(0, j)),
                    ),
            decreases nr - i,
        {
            proof {
                assert(self.rooms@[i as int].1.wf());
            }
            let mut ms = self.rooms[i].1.mesh();
            let ghost pre = meshes@;
            let ghost msv = ms@;
            meshes.append(&mut ms);
            proof {
                let prefix = self.rooms@.subrange(0, i as int);
                let nxt = self.rooms@.subrange(0, i as int + 1);
                assert(nxt.drop_last() =~= prefix);
                assert(nxt.last() == self.rooms@[i as int]);
                assert(forall|j: int| 0 <= j < pre.len() ==> #[trigger] meshes@[j] == pre[j]);
                lemma_totals_nonneg(nxt, Seq::<HallWay>::empty());
                crate::room::lemma_room_ok_shift(self.rooms@[i as int].1, msv, pre);
                assert forall|j: int| 0 <= j < i + 1 implies
                    #[trigger] crate::room::room_meshes_ok(
                    self.rooms[j].1,
                    meshes@,
                    rooms_mesh_total(self.rooms@.subrange(0, j)),
                ) by {
                    let off_j = rooms_mesh_total(self.rooms@.subrange(0, j));
                    if j < i {
                        assert(crate::room::room_meshes_ok(self.rooms[j].1, pre, off_j));
                        let nxt_j = self.rooms@.subrange(0, j + 1);
                        assert(nxt_j.drop_last() =~= self.rooms@.subrange(0, j));
                        assert(nxt_j.last() == self.rooms@[j]);
                        lemma_rooms_total_mono(self.rooms@, j + 1, i as int);
                        lemma_totals_nonneg(
                            self.rooms@.subrange(0, j),
                            Seq::<HallWay>::empty(),
                        );
                        crate::room::lemma_room_ok_prefix(
                            self.rooms@[j].1,
                            pre,
                            meshes@,
                            off_j,
                        );
                    } else {
                        assert(off_j == pre.len());
                    }
                }
            }
            i = i + 1;
        }
        proof {
            assert(self.rooms@.subrange(0, nr as int) =~= self.rooms@);
        }
        let nh = self.hallways.len();
        let mut k: usize = 0;
        proof {
            assert(hallways_mesh_total(self.hallways@.subrange(0, 0)) == 0);
        }
        while k < nh
            invariant
                0 <= k <= nh == self.hallways.len(),
                self.wf(),
                nr == self.rooms.len(),
                meshes.len() == rooms_mesh_total(self.rooms@) + hallways_mesh_total(
                    self.hallways@.subrange(0, k as int),
                ),
                forall|j: int| 0 <= j < meshes.len() ==> (#[trigger] meshes@[j]).wf(),
                forall|j: int|
                    0 <= j < nr ==> #[trigger] crate::room::room_meshes_ok(
                        self.rooms[j].1,
                        meshes@,
                        rooms_mesh_total(self.rooms@.subrange(0, j)),
                    ),
                forall|j: int, sp: int|
                    0 <= j < k && 0 <= sp <= self.hallways[j].middle.len()
                        ==> #[trigger] crate::hallway::span_meshes_ok(
                        self.hallways[j],
                        meshes@,
                        rooms_mesh_total(self.rooms@) + hallways_mesh_total(
                            self.hallways@.subrange(0, j),
                        ),
                        sp,
                    ),
            decreases nh - k,
        {
            proof {
                assert(self.hallways@[k as int].wf());
            }
            let mut ms = self.hallways[k].mesh();
            let ghost pre = meshes@;
            let ghost msv = ms@;
            meshes.append(&mut ms);
            proof {
                let prefix = self.hallways@.subrange(0, k as int);
                let nxt = self.hallways@.subrange(0, k as int + 1);
                assert(nxt.drop_last() =~= prefix);
                assert(nxt.last() == self.hallways@[k as int]);
                assert(forall|j: int| 0 <= j < pre.len() ==> #[trigger] meshes@[j] == pre[j]);
                lemma_totals_nonneg(self.rooms@, prefix);
                // rooms' blocks are untouched by the append
                assert forall|j: int| 0 <= j < nr implies #[trigger] crate::room::room_meshes_ok(
                    self.rooms[j].1,
                    meshes@,
                    rooms_mesh_total(self.rooms@.subrange(0, j)),
                ) by {
                    let off_j = rooms_mesh_total(self.rooms@.subrange(0, j));
                    assert(crate::room::room_meshes_ok(self.rooms[j].1, pre, off_j));
                    let nxt_j = self.rooms@.subrange(0, j + 1);
                    assert(nxt_j.drop_last() =~= self.rooms@.subrange(0, j));
                    assert(nxt_j.last() == self.rooms@[j]);
                    lemma_rooms_total_mono(self.rooms@, j + 1, nr as int);
                    assert(self.rooms@.subrange(0, nr as int) =~= self.rooms@);
                    lemma_totals_nonneg(self.rooms@.subrange(0, j), Seq::<HallWay>::empty());
                    crate::room::lemma_room_ok_prefix(self.rooms@[j].1, pre, meshes@, off_j);
                }
                // earlier hallways' spans are untouched; the new hallway's
                // spans land at the end of the prefix
                assert forall|j: int, sp: int|
                    0 <= j < k + 1 && 0 <= sp <= self.hallways[j].middle.len() implies
                    #[trigger] crate::hallway::span_meshes_ok(
                    self.hallways[j],
                    meshes@,
                    rooms_mesh_total(self.rooms@) + hallways_mesh_total(
                        self.hallways@.subrange(0, j),
                    ),
                    sp,
                ) by {
                    let base_j = rooms_mesh_total(self.rooms@) + hallways_mesh_total(
                        self.hallways@.subrange(0, j),
                    );
                    let nxt_j = self.hallways@.subrange(0, j + 1);
                    assert(nxt_j.drop_last() =~= self.hallways@.subrange(0, j));
                    assert(nxt_j.last() == self.hallways@[j]);
                    lemma_totals_nonneg(self.rooms@, self.hallways@.subrange(0, j));
                    if j < k {
                        assert(crate::hallway::span_meshes_ok(
                            self.hallways[j],
                            pre,
                            base_j,
                            sp,
                        ));
                        lemma_hallways_total_mono(self.hallways@, j + 1, k as int);
                        assert forall|q: int| 0 <= q < 4 implies #[trigger] meshes@[base_j + 4 * sp
                            + q] == pre[base_j + 4 * sp + q] by {
                            assert(meshes@[base_j + 4 * sp + q] == pre[base_j + 4 * sp + q]);
                        }
                        crate::hallway::lemma_span_ok_translate(
                            self.hallways@[j],
                            pre,
                            meshes@,
                            base_j,
                            base_j,
                            sp,
                        );
                    } else {
                        assert(base_j == pre.len());
                        assert(crate::hallway::span_meshes_ok(
                            self.hallways@[k as int],
                            msv,
                            0,
                            sp,
                        ));
                        assert forall|q: int| 0 <= q < 4 implies #[trigger] meshes@[base_j + 4 * sp
                            + q] == msv[0 + 4 * sp + q] by {
                            assert(meshes@[pre.len() + (4 * sp + q)] == msv[4 * sp + q]);
                            assert(msv[0 + 4 * sp + q] == msv[4 * sp + q]);
                        }
                        crate::hallway::lemma_span_ok_translate(
                            self.hallways@[k as int],
                            msv,
                            meshes@,
                            0,
                            base_j,
                            sp,
                        );
                    }
                }
            }
            k = k + 1;
        }
        proof {
            assert(self.hallways@.subrange(0, nh as int) =~= self.hallways@);
        }
        meshes
    }
}


impl LevelState {
    /// The default level: two rooms joined by a hallway bound to a door of
    /// each (so the first update re-anchors both ends), with a ramp, a
    /// floor cliff, a roof cliff and a four-sided disc in the first room.
    /// Every surface carries the given texture.
    #[verifier::rlimit(100)]
    #[verifier::spinoff_prover]
    pub fn new(default_tex: crate::texture::TexInfo) -> (r: LevelState)
        requires
            default_tex.wf(),
        ensures
            r.wf(),
            r.rooms@.len() == 2,
            r.hallways@.len() == 1,
            r.rooms@[0].1.doors@.len() == 1,
            r.rooms@[1].1.doors@.len() == 1,
            r.rooms@[0].1.walls@.len() == 8,
            r.rooms@[0].1.modifiers@.len() == 4,
            r.rooms@[0].1.modifiers@[0] is Ramp,
            r.rooms@[0].1.modifiers@[1] is Cliff,
            r.rooms@[0].1.modifiers@[2] is Cliff,
            r.rooms@[0].1.modifiers@[3] is Disc,
            r.rooms@[1].1.walls@.len() == 4,
            r.hallways@[0].start_location.enabled,
            r.hallways@[0].end_location.enabled,
            r.hallways@[0].start_location.room_index == Some(r.rooms@[0].0),
            r.hallways@[0].end_location.room_index == Some(r.rooms@[1].0),
    {
        let f: i64 = crate::geom::FP_ONE;
        let deftex = crate::texture::MeshTex::new(
            default_tex,
            crate::texture::TileStyle::tile_scale(f, true),
        );
        let mut level = LevelState::none();

        let mut room1 = Room::new(
            String::new(),
            Vec3 { x: 0, y: 0, z: 0 },
            crate::geom::Rot2::identity(),
            5 * f,
            deftex,
            deftex,
            deftex,
        );
        let mut walls: Vec<crate::room::Wall> = Vec::new();
        walls.push(crate::room::Wall::new(Vec2 { x: -5 * f, y: 5 * f }, deftex));
        walls.push(crate::room::Wall::new(Vec2 { x: -5 * f, y: -5 * f }, deftex));
        walls.push(crate::room::Wall::new(Vec2 { x: -4 * f, y: -6 * f }, deftex));
        walls.push(crate::room::Wall::new(Vec2 { x: 4 * f, y: -6 * f }, deftex));
        walls.push(crate::room::Wall::new(Vec2 { x: 5 * f, y: -5 * f }, deftex));
        walls.push(crate::room::Wall::new(Vec2 { x: 5 * f, y: 5 * f }, deftex));
        walls.push(crate::room::Wall::new(Vec2 { x: 4 * f, y: 6 * f }, deftex));
        walls.push(crate::room::Wall::new(Vec2 { x: -4 * f, y: 6 * f }, deftex));
        room1.walls = walls;
        proof {
            assert(forall|i: int| 0 <= i < room1.walls.len() ==> (#[trigger] room1.walls[i]).wf());
            assert(forall|i: int|
                0 <= i < room1.walls.len() ==> crate::geom::vec2_in(
                    (#[trigger] room1.walls[i]).local_pos,
                    crate::geom::WORLD_MAX as int,
                ));
        }
        let door1 = room1.new_door(
            crate::room::Door {
                wall: 6,
                offset: Vec2 { x: 0, y: 0 },
                size: Vec2 { x: f, y: 4 * f },
                valign: crate::room::VerticalAlign::Bottom,
                halign: crate::room::HorizontalAlign::Center,
            },
        );
        let mut mods: Vec<crate::modifier::Modifier> = Vec::new();
        mods.push(
            crate::modifier::Modifier::Ramp {
                pos: Vec3 { x: 0, y: 2 * f, z: 0 },
                dir: crate::geom::Rot2::identity(),
                size: Vec3 { x: f, y: 2 * f, z: 3 * f },
                ramp_texture: deftex,
                wall_texture: deftex,
                bottom_texture: deftex,
            },
        );
        let mut cliff1: Vec<crate::room::Wall> = Vec::new();
        cliff1.push(crate::room::Wall::new(Vec2 { x: -f, y: -f }, deftex));
        cliff1.push(crate::room::Wall::new(Vec2 { x: f, y: -f }, deftex));
        cliff1.push(crate::room::Wall::new(Vec2 { x: f, y: f }, deftex));
        cliff1.push(crate::room::Wall::new(Vec2 { x: -f, y: f }, deftex));
        mods.push(
            crate::modifier::Modifier::Cliff {
                walls: cliff1,
                on_roof: false,
                height: f,
                floor_texture: deftex,
            },
        );
        let mut cliff2: Vec<crate::room::Wall> = Vec::new();
        cliff2.push(crate::room::Wall::new(Vec2 { x: -3 * f, y: -3 * f }, deftex));
        cliff2.push(crate::room::Wall::new(Vec2 { x: -f, y: -3 * f }, deftex));
        cliff2.push(crate::room::Wall::new(Vec2 { x: -f, y: -f }, deftex));
        cliff2.push(crate::room::Wall::new(Vec2 { x: -3 * f, y: -f }, deftex));
        mods.push(
            crate::modifier::Modifier::Cliff {
                walls: cliff2,
                on_roof: true,
                height: f,
                floor_texture: deftex,
            },
        );
        let mut sides: Vec<crate::texture::MeshTex> = Vec::new();
        sides.push(deftex);
        sides.push(deftex);
        sides.push(deftex);
        sides.push(deftex);
        mods.push(
            crate::modifier::Modifier::Disc {
                pos: Vec3 { x: 3 * f, y: 3 * f, z: 3 * f },
                size: Vec3 { x: f, y: f / 2, z: 2 * f },
                sides,
                dir: crate::geom::Rot2::identity(),
                top_tex: deftex,
                bottom_tex: deftex,
            },
        );
        room1.modifiers = mods;
        proof {
            assert(forall|i: int|
                0 <= i < room1.modifiers.len() ==> (#[trigger] room1.modifiers[i]).wf());
        }

        let mut room2 = Room::new(
            String::new(),
            Vec3 { x: 0, y: 0, z: 20 * f },
            crate::geom::Rot2::identity(),
            3 * f,
            deftex,
            deftex,
            deftex,
        );
        let door2 = room2.new_door(
            crate::room::Door {
                wall: 0,
                offset: Vec2 { x: 0, y: 0 },
                size: Vec2 { x: f, y: 2 * f },
                valign: crate::room::VerticalAlign::Bottom,
                halign: crate::room::HorizontalAlign::Center,
            },
        );

        let start = match room1.get_control_rect(&door1, true) {
            Some(c) => c,
            None => crate::hallway::ControlRect::new(
                Vec3 { x: 0, y: 0, z: 0 },
                crate::geom::Rot2::identity(),
                Vec2 { x: 0, y: 0 },
            ),
        };
        let end = match room2.get_control_rect(&door2, false) {
            Some(c) => c,
            None => crate::hallway::ControlRect::new(
                Vec3 { x: 0, y: 0, z: 0 },
                crate::geom::Rot2::identity(),
                Vec2 { x: 0, y: 0 },
            ),
        };
        let room1_id = level.new_room(room1);
        let room2_id = level.new_room(room2);
        let mut hallway = crate::hallway::HallWay::new(
            start,
            end,
            crate::hallway::HallWayTexData::all(deftex),
        );
        hallway.start_location = crate::hallway::DoorLocation {
            room_index: Some(room1_id),
            door_id: Some(door1),
            enabled: true,
        };
        hallway.end_location = crate::hallway::DoorLocation {
            room_index: Some(room2_id),
            door_id: Some(door2),
            enabled: true,
        };
        let mut hs: Vec<crate::hallway::HallWay> = Vec::new();
        hs.push(hallway);
        level.hallways = hs;
        level
    }
}

proof fn lemma_find_room_push(rooms: Seq<(RoomId, Room)>, id: RoomId, room: Room, bound: u32)
    requires
        forall|i: int| 0 <= i < rooms.len() ==> ((#[trigger] rooms[i]).0.0 as int) < bound as int,
        id.0 == bound,
    ensures
        crate::hallway::find_room(rooms.push((id, room)), id) == Some(room),
    decreases rooms.len(),
{
    if rooms.len() == 0 {
        assert(rooms.push((id, room))[0] == (id, room));
    } else {
        assert(rooms.push((id, room))[0] == rooms[0]);
        assert(rooms[0].0 != id);
        assert(rooms.push((id, room)).drop_first() =~= rooms.drop_first().push((id, room)));
        assert forall|i: int| 0 <= i < rooms.drop_first().len() implies ((#[trigger] rooms.drop_first()[i]).0.0 as int) < bound as int by {
            assert(rooms.drop_first()[i] == rooms[i + 1]);
        }
        lemma_find_room_push(rooms.drop_first(), id, room, bound);
    }
}

} // verus!
