use levelmesh::codec::{
    encode_decode_control_rect, encode_decode_door, encode_decode_meshtex, level_from_bytes,
    level_to_bytes,
};
use levelmesh::geom::{Rot2, Vec2, Vec3, FP_ONE};
use levelmesh::hallway::{ControlRect, DoorLocation, HallWay, HallWayTexData};
use levelmesh::level::LevelState;
use levelmesh::mesh::Mesh;
use levelmesh::modifier::Modifier;
use levelmesh::room::{Door, HorizontalAlign, Room, VerticalAlign, Wall};
use levelmesh::texture::{MeshTex, TexInfo, TileStyle};

fn v2(x: i64, y: i64) -> Vec2 {
    Vec2 { x, y }
}

fn v3(x: i64, y: i64, z: i64) -> Vec3 {
    Vec3 { x, y, z }
}

fn tex(id: u32) -> MeshTex {
    MeshTex::new(TexInfo::new(id, FP_ONE), TileStyle::tile_scale(FP_ONE, true))
}

fn demo_level() -> LevelState {
    let mut level = LevelState::none();
    let mut room1 = Room::new(
        String::from("one"),
        v3(0, 0, 0),
        Rot2::identity(),
        5 * FP_ONE,
        tex(1),
        tex(2),
        tex(3),
    );
    room1.walls = vec![
        Wall::new(v2(-5 * FP_ONE, -5 * FP_ONE), tex(3)),
        Wall::new(v2(5 * FP_ONE, -5 * FP_ONE), tex(3)),
        Wall::new(v2(5 * FP_ONE, 5 * FP_ONE), tex(3)),
        Wall::new(v2(-5 * FP_ONE, 5 * FP_ONE), tex(3)),
    ];
    let d1 = room1.new_door(Door {
        wall: 2,
        offset: v2(0, 0),
        size: v2(FP_ONE, 4 * FP_ONE),
        valign: VerticalAlign::Bottom,
        halign: HorizontalAlign::Center,
    });
    room1.modifiers = vec![
        Modifier::Ramp {
            pos: v3(0, 2 * FP_ONE, 0),
            dir: Rot2::identity(),
            size: v3(FP_ONE, 2 * FP_ONE, 3 * FP_ONE),
            ramp_texture: tex(1),
            wall_texture: tex(1),
            bottom_texture: tex(1),
        },
        Modifier::Cliff {
            walls: vec![
                Wall::new(v2(-FP_ONE, -FP_ONE), tex(1)),
                Wall::new(v2(FP_ONE, -FP_ONE), tex(1)),
                Wall::new(v2(FP_ONE, FP_ONE), tex(1)),
                Wall::new(v2(-FP_ONE, FP_ONE), tex(1)),
            ],
            on_roof: true,
            height: FP_ONE,
            floor_texture: tex(1),
        },
        Modifier::Disc {
            pos: v3(3 * FP_ONE, 3 * FP_ONE, 3 * FP_ONE),
            size: v3(FP_ONE, FP_ONE / 2, 2 * FP_ONE),
            sides: vec![tex(1), tex(1), tex(1), tex(1)],
            dir: Rot2::identity(),
            top_tex: tex(1),
            bottom_tex: tex(1),
        },
    ];
    let r1 = level.new_room(room1);
    let mut room2 = Room::new(
        String::from("two"),
        v3(0, 0, 20 * FP_ONE),
        Rot2::identity(),
        3 * FP_ONE,
        tex(1),
        tex(2),
        tex(3),
    );
    let d2 = room2.new_door(Door {
        wall: 0,
        offset: v2(0, 0),
        size: v2(FP_ONE, 2 * FP_ONE),
        valign: VerticalAlign::Bottom,
        halign: HorizontalAlign::Center,
    });
    let r2 = level.new_room(room2);
    let mut h = HallWay::new(
        ControlRect::new(v3(0, 0, 5 * FP_ONE), Rot2::identity(), v2(FP_ONE, 4 * FP_ONE)),
        ControlRect::new(v3(0, 0, 15 * FP_ONE), Rot2::identity(), v2(FP_ONE, 2 * FP_ONE)),
        HallWayTexData::all(tex(4)),
    );
    h.start_location = DoorLocation { room_index: Some(r1), door_id: Some(d1), enabled: true };
    h.end_location = DoorLocation { room_index: Some(r2), door_id: Some(d2), enabled: true };
    level.hallways = vec![h];
    level.update();
    level
}

fn meshes_equal(a: &[Mesh], b: &[Mesh]) -> bool {
    if a.len() != b.len() {
        return false;
    }
    for i in 0..a.len() {
        if a[i].texture != b[i].texture
            || a[i].vertices != b[i].vertices
            || a[i].indices != b[i].indices
        {
            return false;
        }
    }
    true
}

#[test]
fn door_record_round_trips() {
    let d = Door {
        wall: -7,
        offset: v2(13, -44),
        size: v2(2 * FP_ONE, 3 * FP_ONE),
        valign: VerticalAlign::Top,
        halign: HorizontalAlign::Right,
    };
    assert_eq!(encode_decode_door(&d), Some(d));
}

#[test]
fn meshtex_record_round_trips() {
    let mut t = tex(9);
    t.offset = v2(-17, 255);
    t.fliped_x = true;
    assert_eq!(encode_decode_meshtex(&t), Some(t));
}

#[test]
fn control_rect_record_round_trips() {
    let c = ControlRect::new(
        v3(-3 * FP_ONE, FP_ONE, 9 * FP_ONE),
        Rot2 { c: 12345, s: -54321 },
        v2(FP_ONE, 2 * FP_ONE),
    );
    assert_eq!(encode_decode_control_rect(&c), Some(c));
}

#[test]
fn level_round_trip_regenerates_identical_meshes() {
    // Saving and loading the whole graph, then regenerating, gives
    // bit-identical mesh output.
    let level = demo_level();
    let before = level.mesh();
    let bytes = level_to_bytes(&level);
    let loaded = level_from_bytes(&bytes).expect("level should load back");
    let after = loaded.mesh();
    assert!(meshes_equal(&before, &after));
    assert_eq!(loaded.rooms.len(), level.rooms.len());
    assert_eq!(loaded.hallways.len(), level.hallways.len());
    assert_eq!(loaded.next_room, level.next_room);
    // The declarative fields round-trip exactly; only the display names are
    // not part of the format.
    assert_eq!(loaded.rooms[0].1.walls, level.rooms[0].1.walls);
    assert_eq!(loaded.rooms[0].1.doors, level.rooms[0].1.doors);
    assert_eq!(loaded.hallways[0].start, level.hallways[0].start);
    assert_eq!(loaded.hallways[0].end, level.hallways[0].end);
}

#[test]
fn corrupt_bytes_fail_to_load() {
    let level = demo_level();
    let mut bytes = level_to_bytes(&level);
    bytes.truncate(bytes.len() / 2);
    assert!(level_from_bytes(&bytes).is_none());
}

#[test]
fn colliding_room_ids_fail_to_load() {
    // An id at or above the allocation counter is a collision and must fail
    // the load, not pass silently.
    let mut level = demo_level();
    level.rooms[1].0 = level.rooms[0].0;
    let bytes = level_to_bytes(&level);
    assert!(level_from_bytes(&bytes).is_none());
}
