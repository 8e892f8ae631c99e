use levelmesh::blocks::{AirBlock, Blocks, FullBlock, Position};
use levelmesh::geom::{Rot2, Vec2, Vec3, FP_ONE};
use levelmesh::hallway::{ControlRect, DoorLocation, HallWay, HallWayTexData};
use levelmesh::level::{GameConfigFile, LevelState};
use levelmesh::modifier::Modifier;
use levelmesh::room::{Door, DoorId, HorizontalAlign, Room, RoomId, VerticalAlign, Wall};
use levelmesh::texture::{MeshTex, TexInfo, TileStyle};

fn v2(x: i64, y: i64) -> Vec2 {
    Vec2 { x, y }
}

fn v3(x: i64, y: i64, z: i64) -> Vec3 {
    Vec3 { x, y, z }
}

fn tex(id: u32) -> MeshTex {
    MeshTex::new(TexInfo::new(id, FP_ONE), TileStyle::tile_scale(FP_ONE, true))
}

fn rect_room() -> Room {
    // A 10 x 10 rectangular room of height 5, walls at (+-5, +-5).
    let mut room = Room::new(
        String::from("rect"),
        v3(0, 0, 0),
        Rot2::identity(),
        5 * FP_ONE,
        tex(1),
        tex(2),
        tex(3),
    );
    room.walls = vec![
        Wall::new(v2(-5 * FP_ONE, -5 * FP_ONE), tex(3)),
        Wall::new(v2(5 * FP_ONE, -5 * FP_ONE), tex(3)),
        Wall::new(v2(5 * FP_ONE, 5 * FP_ONE), tex(3)),
        Wall::new(v2(-5 * FP_ONE, 5 * FP_ONE), tex(3)),
    ];
    room
}

#[test]
fn rectangular_room_meshes_six_quads() {
    // Floor, roof and four walls, each four vertices and two triangles.
    let room = rect_room();
    let meshes = room.mesh();
    assert_eq!(meshes.len(), 6);
    for m in &meshes {
        assert_eq!(m.vertices.len(), 4);
        assert_eq!(m.indices.len(), 6);
    }
    assert_eq!(meshes[0].texture, 2);
    assert_eq!(meshes[1].texture, 1);
    for i in 2..6 {
        assert_eq!(meshes[i].texture, 3);
    }
}

#[test]
fn room_with_door_cuts_a_hole() {
    // A wall with one door gains one hole: 4 outer + 4 hole + 2 splice
    // points, and still two triangles per extra vertex.
    let mut room = rect_room();
    let id = room.new_door(Door {
        wall: 0,
        offset: v2(0, 0),
        size: v2(2 * FP_ONE, 3 * FP_ONE),
        valign: VerticalAlign::Bottom,
        halign: HorizontalAlign::Center,
    });
    assert_eq!(id, DoorId(0));
    let meshes = room.mesh();
    assert_eq!(meshes.len(), 6);
    assert_eq!(meshes[2].vertices.len(), 10);
    assert_eq!(meshes[2].indices.len(), 3 * 8);
    for i in 3..6 {
        assert_eq!(meshes[i].vertices.len(), 4);
    }
}

#[test]
fn overlapping_doors_make_one_hole() {
    // Two overlapping doors on one wall produce a single hole boundary:
    // their union outline has eight corners.
    let mut room = rect_room();
    room.new_door(Door {
        wall: 0,
        offset: v2(-FP_ONE, 0),
        size: v2(2 * FP_ONE, 3 * FP_ONE),
        valign: VerticalAlign::Bottom,
        halign: HorizontalAlign::Center,
    });
    room.new_door(Door {
        wall: 0,
        offset: v2(FP_ONE, 0),
        size: v2(2 * FP_ONE, 4 * FP_ONE),
        valign: VerticalAlign::Bottom,
        halign: HorizontalAlign::Center,
    });
    let meshes = room.mesh();
    assert_eq!(meshes.len(), 6);
    // One union outline of six corners: 4 outer + 6 + 2 splice repeats.
    assert_eq!(meshes[2].vertices.len(), 12);
    assert_eq!(meshes[2].indices.len(), 3 * 10);
}

fn plain_control_rect(x: i64, z: i64) -> ControlRect {
    ControlRect::new(v3(x, 0, z), Rot2::identity(), v2(FP_ONE, 2 * FP_ONE))
}

#[test]
fn hallway_without_waypoints_meshes_four_quads() {
    // A single span gives floor, roof, left and right, one quad each.
    let h = HallWay::new(
        plain_control_rect(0, 0),
        plain_control_rect(0, 10 * FP_ONE),
        HallWayTexData::all(tex(4)),
    );
    let meshes = h.mesh();
    assert_eq!(meshes.len(), 4);
    for m in &meshes {
        assert_eq!(m.vertices.len(), 4);
        assert_eq!(m.indices.len(), 6);
        assert_eq!(m.texture, 4);
    }
}

#[test]
fn hallway_with_waypoint_meshes_eight_quads() {
    let mut h = HallWay::new(
        plain_control_rect(0, 0),
        plain_control_rect(0, 10 * FP_ONE),
        HallWayTexData::all(tex(4)),
    );
    h.middle = vec![(plain_control_rect(FP_ONE, 5 * FP_ONE), HallWayTexData::all(tex(5)))];
    let meshes = h.mesh();
    assert_eq!(meshes.len(), 8);
}

#[test]
fn hallway_rebinds_to_live_door() {
    // With an enabled binding to a live room and door, update sets the
    // hallway start to exactly that door's control rectangle.
    let mut level = LevelState::none();
    let mut room = rect_room();
    let door_id = room.new_door(Door {
        wall: 1,
        offset: v2(0, 0),
        size: v2(FP_ONE, 4 * FP_ONE),
        valign: VerticalAlign::Bottom,
        halign: HorizontalAlign::Center,
    });
    let expected = room.get_control_rect(&door_id, true).unwrap();
    let room_id = level.new_room(room);
    let mut h = HallWay::new(
        plain_control_rect(0, 0),
        plain_control_rect(0, 10 * FP_ONE),
        HallWayTexData::all(tex(4)),
    );
    h.start_location = DoorLocation {
        room_index: Some(room_id),
        door_id: Some(door_id),
        enabled: true,
    };
    level.hallways = vec![h];
    level.update();
    assert_eq!(level.hallways[0].start, expected);
    // The unbound end keeps its explicit rectangle.
    assert_eq!(level.hallways[0].end, plain_control_rect(0, 10 * FP_ONE));
}

#[test]
fn hallway_keeps_rect_on_stale_reference() {
    // A binding to a deleted door leaves the control rectangle alone.
    let mut level = LevelState::none();
    let room = rect_room();
    let room_id = level.new_room(room);
    let before = plain_control_rect(3 * FP_ONE, 4 * FP_ONE);
    let mut h = HallWay::new(
        before,
        plain_control_rect(0, 10 * FP_ONE),
        HallWayTexData::all(tex(4)),
    );
    h.start_location = DoorLocation {
        room_index: Some(room_id),
        door_id: Some(DoorId(99)),
        enabled: true,
    };
    level.hallways = vec![h];
    level.update();
    assert_eq!(level.hallways[0].start, before);
    // A stale room reference degrades the same way.
    let mut h2 = HallWay::new(
        before,
        plain_control_rect(0, 10 * FP_ONE),
        HallWayTexData::all(tex(4)),
    );
    h2.start_location = DoorLocation {
        room_index: Some(RoomId(77)),
        door_id: Some(DoorId(0)),
        enabled: true,
    };
    level.hallways = vec![h2];
    level.update();
    assert_eq!(level.hallways[0].start, before);
}

#[test]
fn two_rooms_and_hallway_assemble() {
    // End to end: two rooms of six meshes each plus one four-quad
    // hallway.
    let mut level = LevelState::none();
    level.new_room(rect_room());
    level.new_room(rect_room());
    level.hallways = vec![HallWay::new(
        plain_control_rect(0, 0),
        plain_control_rect(0, 10 * FP_ONE),
        HallWayTexData::all(tex(4)),
    )];
    let meshes = level.mesh();
    assert_eq!(meshes.len(), 6 + 6 + 4);
}

#[test]
fn ramp_generates_five_meshes() {
    let mut room = rect_room();
    room.modifiers = vec![Modifier::Ramp {
        pos: v3(0, 2 * FP_ONE, 0),
        dir: Rot2::identity(),
        size: v3(FP_ONE, 2 * FP_ONE, 3 * FP_ONE),
        ramp_texture: tex(6),
        wall_texture: tex(7),
        bottom_texture: tex(8),
    }];
    let meshes = room.mesh();
    assert_eq!(meshes.len(), 6 + 5);
}

#[test]
fn cliff_generates_floor_and_walls() {
    let mut room = rect_room();
    room.modifiers = vec![Modifier::Cliff {
        walls: vec![
            Wall::new(v2(-FP_ONE, -FP_ONE), tex(3)),
            Wall::new(v2(FP_ONE, -FP_ONE), tex(3)),
            Wall::new(v2(FP_ONE, FP_ONE), tex(3)),
            Wall::new(v2(-FP_ONE, FP_ONE), tex(3)),
        ],
        on_roof: false,
        height: FP_ONE,
        floor_texture: tex(9),
    }];
    let meshes = room.mesh();
    assert_eq!(meshes.len(), 6 + 1 + 4);
}

#[test]
fn degenerate_cliff_is_skipped() {
    // The failure policy: a malformed modifier adds no meshes and does not
    // abort the room.
    let mut room = rect_room();
    room.modifiers = vec![Modifier::Cliff {
        walls: vec![
            Wall::new(v2(-FP_ONE, -FP_ONE), tex(3)),
            Wall::new(v2(FP_ONE, -FP_ONE), tex(3)),
        ],
        on_roof: true,
        height: FP_ONE,
        floor_texture: tex(9),
    }];
    let meshes = room.mesh();
    assert_eq!(meshes.len(), 6);
}

#[test]
fn disc_generates_caps_and_sides() {
    let mut room = rect_room();
    room.modifiers = vec![Modifier::Disc {
        pos: v3(3 * FP_ONE, 3 * FP_ONE, 3 * FP_ONE),
        size: v3(FP_ONE, FP_ONE / 2, 2 * FP_ONE),
        sides: vec![tex(1), tex(1), tex(1), tex(1)],
        dir: Rot2::identity(),
        top_tex: tex(2),
        bottom_tex: tex(2),
    }];
    let meshes = room.mesh();
    assert_eq!(meshes.len(), 6 + 2 + 4);
}

#[test]
fn degenerate_disc_is_skipped() {
    let mut room = rect_room();
    room.modifiers = vec![Modifier::Disc {
        pos: v3(0, 0, 0),
        size: v3(FP_ONE, FP_ONE, FP_ONE),
        sides: vec![tex(1), tex(1)],
        dir: Rot2::identity(),
        top_tex: tex(2),
        bottom_tex: tex(2),
    }];
    let meshes = room.mesh();
    assert_eq!(meshes.len(), 6);
}

#[test]
fn full_block_meshes_six_faces() {
    let b = FullBlock::new(11);
    let meshes = b.mesh();
    assert_eq!(meshes.len(), 6);
    for m in &meshes {
        assert_eq!(m.vertices.len(), 4);
        assert_eq!(m.indices.len(), 6);
        assert_eq!(m.texture, 11);
    }
    let air = Blocks::AirBlock(AirBlock {});
    assert_eq!(air.mesh().len(), 0);
    let full = Blocks::FullBlock(b);
    assert_eq!(full.mesh().len(), 6);
}

#[test]
fn default_level_has_expected_shape() {
    // The default level: two rooms, one hallway bound to a door of each.
    let mut level = LevelState::new(TexInfo::new(0, FP_ONE));
    assert_eq!(level.rooms.len(), 2);
    assert_eq!(level.hallways.len(), 1);
    assert!(level.hallways[0].start_location.enabled);
    level.update();
    // After the update each end holds exactly its door's control rectangle,
    // the start facing into its room and the end facing away.
    let start_door = level.hallways[0].start_location.door_id.unwrap();
    let expected_start = level.rooms[0].1.get_control_rect(&start_door, true).unwrap();
    assert_eq!(level.hallways[0].start, expected_start);
    let meshes = level.mesh();
    // Room one: floor, roof, 8 walls, ramp (5), two cliffs (5 each), disc
    // (6).  Room two: floor, roof, 4 walls.  Hallway: 4.
    assert_eq!(meshes.len(), (2 + 8 + 5 + 5 + 5 + 6) + (2 + 4) + 4);
}

#[test]
fn mid_edit_ring_meshes_to_nothing() {
    // A wall ring reduced below three points meshes to nothing instead of
    // failing the scene pass.
    let mut room = rect_room();
    room.walls.truncate(2);
    assert_eq!(room.mesh().len(), 0);
}

#[test]
fn positions_and_config() {
    let p = Position::new(1, -2, 3);
    assert_eq!((p.x, p.y, p.z), (1, -2, 3));
    let cfg = GameConfigFile::new();
    assert!(cfg.level_order.is_empty());
}

#[test]
fn mesh_combine_shifts_indices() {
    let b = FullBlock::new(11);
    let meshes = b.mesh();
    let mut first = meshes[0].clone();
    let second = meshes[0].clone();
    first.combine(second);
    assert_eq!(first.vertices.len(), 8);
    assert_eq!(first.indices.len(), 12);
    assert_eq!(&first.indices[0..6], &[1, 2, 0, 1, 3, 2]);
    assert_eq!(&first.indices[6..12], &[5, 6, 4, 5, 7, 6]);
}
