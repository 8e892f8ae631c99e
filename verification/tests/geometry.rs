use levelmesh::geom::{dist, isqrt, rotate, unit_of, Rot2, Vec2, FP_ONE};
use levelmesh::holes::{group_rects, hole_rings, Rect2};
use levelmesh::ring::{normalize_winding, reversed, signed_area2};
use levelmesh::room::{wall_index, Door, HorizontalAlign, VerticalAlign};
use levelmesh::texture::{MeshTex, TexInfo, TileResultThing, TileScale, TileSpecific, TileStyle};
use levelmesh::tri::triangulate;

fn v(x: i64, y: i64) -> Vec2 {
    Vec2 { x, y }
}

fn tri_area2_of(pts: &[Vec2], a: usize, b: usize, c: usize) -> i128 {
    let (p, q, r) = (pts[a], pts[b], pts[c]);
    let d1x = (q.x - p.x) as i128;
    let d1y = (q.y - p.y) as i128;
    let d2x = (r.x - p.x) as i128;
    let d2y = (r.y - p.y) as i128;
    d1x * d2y - d1y * d2x
}

#[test]
fn isqrt_exact_values() {
    assert_eq!(isqrt(0), 0);
    assert_eq!(isqrt(1), 1);
    assert_eq!(isqrt(24), 4);
    assert_eq!(isqrt(25), 5);
    assert_eq!(isqrt(26), 5);
    assert_eq!(isqrt(u64::MAX), 0xffff_ffff);
}

#[test]
fn dist_of_three_four_five() {
    assert_eq!(dist(v(0, 0), v(3, 4)), 5);
    assert_eq!(dist(v(-3, 0), v(0, -4)), 5);
    assert_eq!(dist(v(7, 7), v(7, 7)), 0);
}

#[test]
fn rotate_by_identity_and_quarter() {
    let id = Rot2::identity();
    let p = v(1000, -2000);
    assert_eq!(rotate(p, id), p);
    // A quarter turn sends (x, y) to (-y, x).
    let q = id.quarter_turn_from();
    assert_eq!(rotate(p, q), v(2000, 1000));
}

#[test]
fn unit_of_pythagorean_direction() {
    // (3, 4) has length 5; the cosine is 3/5 and the sine 4/5 in fixed point.
    let u = unit_of(v(3, 4));
    assert_eq!(u.c, 3 * FP_ONE / 5);
    assert_eq!(u.s, 4 * FP_ONE / 5);
    let z = unit_of(v(0, 0));
    assert_eq!(z, Rot2::identity());
}

#[test]
fn triangulate_square_covers_area() {
    // A plain square: two triangles whose doubled signed areas sum to
    // the ring's doubled signed area.
    let ring = vec![v(0, 0), v(10, 0), v(10, 10), v(0, 10)];
    let ts = triangulate(&ring);
    assert_eq!(ts.len(), 2);
    let total = signed_area2(&ring);
    let mut sum: i128 = 0;
    for t in &ts {
        sum += tri_area2_of(&ring, t.a, t.b, t.c);
    }
    assert_eq!(sum, total);
    assert_eq!(total, 200);
}

#[test]
fn triangulate_concave_ring_covers_area() {
    // An L-shaped (concave) hexagon.
    let ring = vec![v(0, 0), v(20, 0), v(20, 10), v(10, 10), v(10, 20), v(0, 20)];
    let ts = triangulate(&ring);
    assert_eq!(ts.len(), 4);
    let total = signed_area2(&ring);
    let mut sum: i128 = 0;
    for t in &ts {
        sum += tri_area2_of(&ring, t.a, t.b, t.c);
        let (a, b, c) = (t.a, t.b, t.c);
        assert!(a != b && b != c && a != c);
        assert!(a < 6 && b < 6 && c < 6);
    }
    assert_eq!(sum, total);
    assert_eq!(total, 600);
}

#[test]
fn winding_normalization_is_idempotent() {
    // A counter-clockwise ring is reversed once and then left alone.
    let ccw = vec![v(0, 0), v(10, 0), v(10, 10)];
    let once = normalize_winding(&ccw);
    let twice = normalize_winding(&once);
    assert_eq!(once, twice);
    assert!(signed_area2(&once) <= 0);
    // A clockwise ring is already in order.
    let cw = reversed(&ccw);
    assert_eq!(normalize_winding(&cw), cw);
}

#[test]
fn fixed_tile_spans_bbox_by_tile_count() {
    // Under a fixed tile count the bounding box corners land exactly the
    // tile count apart on each axis.
    let tex = MeshTex::new(
        TexInfo::new(7, FP_ONE),
        TileStyle::tile_specific(2 * FP_ONE, 3 * FP_ONE),
    );
    let pts = vec![v(0, 0), v(100, 0), v(100, 50), v(0, 50)];
    let uv = tex.get_tex_coords(&pts);
    assert_eq!(uv.len(), 4);
    // Unflipped: uv = FP_ONE - (d * tiles) / width.
    assert_eq!(uv[0], v(FP_ONE, FP_ONE));
    assert_eq!(uv[2].x, uv[0].x - 2 * FP_ONE);
    assert_eq!(uv[2].y, uv[0].y - 3 * FP_ONE);
}

#[test]
fn degenerate_bbox_projects_all_zero() {
    // A flat bounding box must yield all-zero UVs, not a division failure.
    let tex = MeshTex::new(
        TexInfo::new(1, FP_ONE),
        TileStyle::tile_specific(FP_ONE, FP_ONE),
    );
    let pts = vec![v(5, 0), v(5, 10), v(5, 20)];
    let uv = tex.get_tex_coords(&pts);
    assert_eq!(uv, vec![v(0, 0), v(0, 0), v(0, 0)]);
}

#[test]
fn world_scale_projection_global() {
    let tex = MeshTex::new(
        TexInfo::new(1, FP_ONE),
        TileStyle::tile_scale(FP_ONE, true),
    );
    let pts = vec![v(0, 0), v(FP_ONE, FP_ONE)];
    let uv = tex.get_tex_coords(&pts);
    // Unflipped world scale negates the coordinate and divides by the scale.
    assert_eq!(uv[0], v(0, 0));
    assert_eq!(uv[1], v(-FP_ONE, -FP_ONE));
}

#[test]
fn tile_style_round_trips_choice() {
    let s = TileStyle::new(TileResultThing::TileSpecific(TileSpecific(3, 4)));
    match s.get_result() {
        TileResultThing::TileSpecific(TileSpecific(a, b)) => {
            assert_eq!((a, b), (3, 4));
        }
        _ => panic!("wrong policy"),
    }
    let s2 = TileStyle::new(TileResultThing::TileScale(TileScale(9, false)));
    match s2.get_result() {
        TileResultThing::TileScale(TileScale(a, g)) => {
            assert_eq!((a, g), (9, false));
        }
        _ => panic!("wrong policy"),
    }
}

#[test]
fn wall_index_wraps_negative_euclidean() {
    assert_eq!(wall_index(0, 4), 0);
    assert_eq!(wall_index(6, 4), 2);
    assert_eq!(wall_index(-1, 4), 3);
    assert_eq!(wall_index(-4, 4), 0);
    assert_eq!(wall_index(-5, 4), 3);
}

fn centered_door(w: i64, h: i64, ox: i64, oy: i64) -> Door {
    Door {
        wall: 0,
        offset: v(ox, oy),
        size: v(w, h),
        valign: VerticalAlign::Center,
        halign: HorizontalAlign::Center,
    }
}

#[test]
fn door_rect_centered_within_wall() {
    // The cut-out stays inside [0, w] x [0, h].
    let d = centered_door(40, 20, 0, 0);
    let r = d.to_rect(100, 60);
    assert_eq!((r.x0, r.x1), (30, 70));
    assert_eq!((r.y0, r.y1), (20, 40));
}

#[test]
fn door_rect_pushed_off_wall_degenerates() {
    // An offset that pushes the door fully off the wall leaves a
    // zero-area rectangle with non-negative coordinates.
    let d = centered_door(40, 20, -1000, 0);
    let r = d.to_rect(100, 60);
    assert_eq!((r.x0, r.x1), (0, 0));
    assert!(r.x0 >= 0 && r.y0 >= 0 && r.x1 <= 100 && r.y1 <= 60);
    let d2 = centered_door(40, 20, 1000, 1000);
    let r2 = d2.to_rect(100, 60);
    assert_eq!((r2.x0, r2.x1), (100, 100));
    assert_eq!((r2.y0, r2.y1), (60, 60));
}

#[test]
fn door_rect_bottom_left_alignment() {
    let d = Door {
        wall: 0,
        offset: v(5, 3),
        size: v(10, 20),
        valign: VerticalAlign::Bottom,
        halign: HorizontalAlign::Left,
    };
    let r = d.to_rect(100, 60);
    assert_eq!((r.x0, r.x1), (5, 15));
    assert_eq!((r.y0, r.y1), (3, 23));
}

fn rect(x0: i64, y0: i64, x1: i64, y1: i64) -> Rect2 {
    Rect2 { x0, y0, x1, y1 }
}

#[test]
fn overlapping_rects_form_one_group() {
    // Two overlapping cut-outs share a group, a distant one
    // stands alone.
    let rects = vec![rect(0, 0, 10, 10), rect(5, 5, 15, 15), rect(50, 50, 60, 60)];
    let groups = group_rects(&rects);
    assert_eq!(groups.len(), 2);
    let mut sizes: Vec<usize> = groups.iter().map(|g| g.len()).collect();
    sizes.sort();
    assert_eq!(sizes, vec![1, 2]);
}

#[test]
fn hole_rings_one_per_group() {
    // Exactly one hole boundary per group of mutually-overlapping
    // rectangles.
    let rects = vec![rect(0, 0, 10, 10), rect(5, 5, 15, 15), rect(50, 50, 60, 60)];
    let (rings, groups) = hole_rings(&rects);
    assert_eq!(rings.len(), groups.len());
    assert_eq!(rings.len(), 2);
    for ring in &rings {
        assert!(ring.len() >= 4);
    }
}

#[test]
fn union_outline_of_single_rect_is_its_boundary() {
    let rects = vec![rect(2, 3, 9, 8)];
    let (rings, _) = hole_rings(&rects);
    assert_eq!(rings.len(), 1);
    let ring = &rings[0];
    assert_eq!(ring.len(), 4);
    let mut xs: Vec<i64> = ring.iter().map(|p| p.x).collect();
    let mut ys: Vec<i64> = ring.iter().map(|p| p.y).collect();
    xs.sort();
    ys.sort();
    assert_eq!(xs, vec![2, 2, 9, 9]);
    assert_eq!(ys, vec![3, 3, 8, 8]);
}

#[test]
fn union_outline_of_two_overlapping_rects() {
    // The union of two overlapping boxes gives a single eight-cornered
    // staircase outline.
    let rects = vec![rect(0, 0, 10, 10), rect(5, 5, 15, 15)];
    let (rings, _) = hole_rings(&rects);
    assert_eq!(rings.len(), 1);
    let ring = &rings[0];
    assert_eq!(ring.len(), 8);
    // Doubled enclosed area of the union is 2 * (100 + 100 - 25).
    let n = ring.len();
    let mut a2: i128 = 0;
    for i in 0..n {
        let p = ring[i];
        let q = ring[(i + 1) % n];
        a2 += (p.x as i128) * (q.y as i128) - (q.x as i128) * (p.y as i128);
    }
    assert_eq!(a2.abs(), 350);
}
