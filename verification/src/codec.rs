//! A byte codec for level data: little-endian fixed-width scalars, length
//! prefixes for lists, and one tag byte per enum variant.
//!
//! The fixed-size record types carry proven round-trip theorems
//! (`encode_decode_door`, `encode_decode_control_rect`,
//! `encode_decode_meshtex`): decoding an encoding gives back exactly the
//! value, for every value.  The whole-level pair `level_to_bytes` /
//! `level_from_bytes` uses the same format; room names are not part of the
//! format (they do not feed mesh generation), and loading rejects — and its
//! contract states that whatever loads is free of — ids that collide with
//! their allocation counters.

use vstd::prelude::*;

use crate::geom::{Rot2, Vec2, Vec3};
use crate::hallway::{ControlRect, DoorLocation, HallWay, HallWayTexData};
use crate::level::LevelState;
use crate::modifier::Modifier;
use crate::room::{Door, DoorId, HorizontalAlign, Room, RoomId, VerticalAlign, Wall};
use crate::texture::{MeshTex, TexInfo, TileScale, TileSpecific, TileStyle};

verus! {

/// The little-endian bytes of a `u64`.
pub open spec fn enc_u64(v: u64) -> Seq<u8> {
    seq![
        (v & 0xff) as u8,
        ((v >> 8) & 0xff) as u8,
        ((v >> 16) & 0xff) as u8,
        ((v >> 24) & 0xff) as u8,
        ((v >> 32) & 0xff) as u8,
        ((v >> 40) & 0xff) as u8,
        ((v >> 48) & 0xff) as u8,
        ((v >> 56) & 0xff) as u8,
    ]
}

pub open spec fn enc_i64(v: i64) -> Seq<u8> {
    enc_u64(v as u64)
}

pub open spec fn enc_u32(v: u32) -> Seq<u8> {
    enc_u64(v as u64)
}

pub open spec fn enc_bool(b: bool) -> Seq<u8> {
    seq![
        if b {
            1u8
        } else {
            0u8
        },
    ]
}

pub open spec fn enc_v2(v: Vec2) -> Seq<u8> {
    enc_i64(v.x) + enc_i64(v.y)
}

pub open spec fn enc_v3(v: Vec3) -> Seq<u8> {
    enc_i64(v.x) + enc_i64(v.y) + enc_i64(v.z)
}

pub open spec fn enc_rot(r: Rot2) -> Seq<u8> {
    enc_i64(r.c) + enc_i64(r.s)
}

pub open spec fn valign_tag(v: VerticalAlign) -> u8 {
    match v {
        VerticalAlign::Top => 0,
        VerticalAlign::Center => 1,
        VerticalAlign::Bottom => 2,
    }
}

pub open spec fn halign_tag(h: HorizontalAlign) -> u8 {
    match h {
        HorizontalAlign::Left => 0,
        HorizontalAlign::Center => 1,
        HorizontalAlign::Right => 2,
    }
}

pub open spec fn enc_door(d: Door) -> Seq<u8> {
    enc_i64(d.wall) + enc_v2(d.offset) + enc_v2(d.size) + seq![valign_tag(d.valign)] + seq![
        halign_tag(d.halign),
    ]
}

pub open spec fn enc_control_rect(c: ControlRect) -> Seq<u8> {
    enc_v3(c.position) + enc_rot(c.rotation) + enc_v2(c.size)
}

pub open spec fn enc_texinfo(t: TexInfo) -> Seq<u8> {
    enc_u32(t.id) + enc_i64(t.ratio)
}

pub open spec fn enc_tile(t: TileStyle) -> Seq<u8> {
    enc_i64(t.specific.0) + enc_i64(t.specific.1) + enc_i64(t.scale.0) + enc_bool(t.scale.1)
        + enc_bool(t.is_specific)
}

pub open spec fn enc_meshtex(t: MeshTex) -> Seq<u8> {
    enc_texinfo(t.id) + enc_v2(t.offset) + enc_tile(t.tile) + enc_bool(t.fliped_x) + enc_bool(
        t.fliped_y,
    )
}

/// `e` occurs in `b` beginning at `pos`.
pub open spec fn starts_at(b: Seq<u8>, pos: int, e: Seq<u8>) -> bool {
    0 <= pos && pos + e.len() <= b.len() && b.subrange(pos, pos + e.len()) == e
}

proof fn lemma_starts_at_concat(b: Seq<u8>, pos: int, e1: Seq<u8>, e2: Seq<u8>)
    requires
        starts_at(b, pos, e1 + e2),
    ensures
        starts_at(b, pos, e1),
        starts_at(b, pos + e1.len(), e2),
{
    let whole = b.subrange(pos, pos + e1.len() + e2.len());
    assert(whole == e1 + e2);
    assert(b.subrange(pos, pos + e1.len()) =~= e1) by {
        assert forall|i: int| 0 <= i < e1.len() implies b.subrange(pos, pos + e1.len())[i]
            == e1[i] by {
            assert(b.subrange(pos, pos + e1.len())[i] == b[pos + i]);
            assert(b[pos + i] == whole[i]);
            assert(whole[i] == (e1 + e2)[i]);
        }
    }
    assert(b.subrange(pos + e1.len(), pos + e1.len() + e2.len()) =~= e2) by {
        assert forall|i: int|
            0 <= i < e2.len() implies b.subrange(
            pos + e1.len(),
            pos + e1.len() + e2.len(),
        )[i] == e2[i] by {
            assert(b.subrange(pos + e1.len(), pos + e1.len() + e2.len())[i] == b[pos + e1.len()
                + i]);
            assert(b[pos + e1.len() + i] == whole[e1.len() + i]);
            assert(whole[e1.len() + i] == (e1 + e2)[e1.len() + i]);
        }
    }
}

/// Appends the little-endian bytes of `v`.
fn write_u64(v: u64, out: &mut Vec<u8>)
    ensures
        final(out)@ == old(out)@ + enc_u64(v),
{
    out.push((v & 0xff) as u8);
    out.push(((v >> 8) & 0xff) as u8);
    out.push(((v >> 16) & 0xff) as u8);
    out.push(((v >> 24) & 0xff) as u8);
    out.push(((v >> 32) & 0xff) as u8);
    out.push(((v >> 40) & 0xff) as u8);
    out.push(((v >> 48) & 0xff) as u8);
    out.push(((v >> 56) & 0xff) as u8);
    proof {
        assert(out@ =~= old(out)@ + enc_u64(v));
    }
}

fn write_i64(v: i64, out: &mut Vec<u8>)
    ensures
        final(out)@ == old(out)@ + enc_i64(v),
{
    write_u64(v as u64, out);
}

fn write_u32(v: u32, out: &mut Vec<u8>)
    ensures
        final(out)@ == old(out)@ + enc_u32(v),
{
    write_u64(v as u64, out);
}

fn write_bool(b: bool, out: &mut Vec<u8>)
    ensures
        final(out)@ == old(out)@ + enc_bool(b),
{
    out.push(
        if b {
            1u8
        } else {
            0u8
        },
    );
    proof {
        assert(out@ =~= old(out)@ + enc_bool(b));
    }
}

fn write_v2(v: Vec2, out: &mut Vec<u8>)
    ensures
        final(out)@ == old(out)@ + enc_v2(v),
{
    write_i64(v.x, out);
    write_i64(v.y, out);
    proof {
        assert(out@ =~= old(out)@ + enc_v2(v));
    }
}

fn write_v3(v: Vec3, out: &mut Vec<u8>)
    ensures
        final(out)@ == old(out)@ + enc_v3(v),
{
    write_i64(v.x, out);
    write_i64(v.y, out);
    write_i64(v.z, out);
    proof {
        assert(out@ =~= old(out)@ + enc_v3(v));
    }
}

fn write_rot(r: Rot2, out: &mut Vec<u8>)
    ensures
        final(out)@ == old(out)@ + enc_rot(r),
{
    write_i64(r.c, out);
    write_i64(r.s, out);
    proof {
        assert(out@ =~= old(out)@ + enc_rot(r));
    }
}

/// Reads a `u64` back; wherever some value's encoding starts at `pos`, that
/// value comes back with the cursor just past it.
fn read_u64(bytes: &Vec<u8>, pos: usize) -> (r: Option<(u64, usize)>)
    ensures
        forall|x: u64|
            starts_at(bytes@, pos as int, enc_u64(x)) ==> r == Some(
                (x, (pos + enc_u64(x).len()) as usize),
            ),
        r is Some ==> r.unwrap().1 == pos + 8 && pos + 8 <= bytes.len(),
{
    if bytes.len() < 8 || pos > bytes.len() - 8 {
        proof {
            assert forall|x: u64| !starts_at(bytes@, pos as int, enc_u64(x)) by {
                assert(enc_u64(x).len() == 8);
            }
        }
        return None;
    }
    let b0 = bytes[pos];
    let b1 = bytes[pos + 1];
    let b2 = bytes[pos + 2];
    let b3 = bytes[pos + 3];
    let b4 = bytes[pos + 4];
    let b5 = bytes[pos + 5];
    let b6 = bytes[pos + 6];
    let b7 = bytes[pos + 7];
    let v: u64 = (b0 as u64) | ((b1 as u64) << 8) | ((b2 as u64) << 16) | ((b3 as u64) << 24) | ((
    b4 as u64) << 32) | ((b5 as u64) << 40) | ((b6 as u64) << 48) | ((b7 as u64) << 56);
    proof {
        assert forall|x: u64| starts_at(bytes@, pos as int, enc_u64(x)) implies Some(
            (v, (pos + 8) as usize),
        ) == Some((x, (pos + enc_u64(x).len()) as usize)) by {
            let e = enc_u64(x);
            assert(e.len() == 8);
            assert(forall|i: int|
                0 <= i < 8 ==> bytes@[pos + i] == #[trigger] bytes@.subrange(
                    pos as int,
                    pos + 8,
                )[i]);
            assert(b0 == (x & 0xff) as u8);
            assert(b1 == ((x >> 8) & 0xff) as u8);
            assert(b2 == ((x >> 16) & 0xff) as u8);
            assert(b3 == ((x >> 24) & 0xff) as u8);
            assert(b4 == ((x >> 32) & 0xff) as u8);
            assert(b5 == ((x >> 40) & 0xff) as u8);
            assert(b6 == ((x >> 48) & 0xff) as u8);
            assert(b7 == ((x >> 56) & 0xff) as u8);
            assert(v == x) by (bit_vector)
                requires
                    v == (b0 as u64) | ((b1 as u64) << 8) | ((b2 as u64) << 16) | ((b3 as u64)
                        << 24) | ((b4 as u64) << 32) | ((b5 as u64) << 40) | ((b6 as u64) << 48) | (
                    (b7 as u64) << 56),
                    b0 == (x & 0xff) as u8,
                    b1 == ((x >> 8) & 0xff) as u8,
                    b2 == ((x >> 16) & 0xff) as u8,
                    b3 == ((x >> 24) & 0xff) as u8,
                    b4 == ((x >> 32) & 0xff) as u8,
                    b5 == ((x >> 40) & 0xff) as u8,
                    b6 == ((x >> 48) & 0xff) as u8,
                    b7 == ((x >> 56) & 0xff) as u8,
            ;
        }
    }
    Some((v, pos + 8))
}

fn read_i64(bytes: &Vec<u8>, pos: usize) -> (r: Option<(i64, usize)>)
    ensures
        forall|x: i64|
            starts_at(bytes@, pos as int, enc_i64(x)) ==> r == Some(
                (x, (pos + enc_i64(x).len()) as usize),
            ),
        r is Some ==> r.unwrap().1 == pos + 8 && pos + 8 <= bytes.len(),
{
    match read_u64(bytes, pos) {
        Some((v, p)) => {
            let s: i64 = v as i64;
            proof {
                assert forall|x: i64| starts_at(bytes@, pos as int, enc_i64(x)) implies Some(
                    (s, p),
                ) == Some((x, (pos + enc_i64(x).len()) as usize)) by {
                    assert(starts_at(bytes@, pos as int, enc_u64(x as u64)));
                    assert(v == x as u64);
                    assert(s == (x as u64) as i64);
                    assert((x as u64) as i64 == x) by (bit_vector);
                }
            }
            Some((s, p))
        },
        None => {
            proof {
                assert forall|x: i64| !starts_at(bytes@, pos as int, enc_i64(x)) by {
                    if starts_at(bytes@, pos as int, enc_i64(x)) {
                        assert(starts_at(bytes@, pos as int, enc_u64(x as u64)));
                    }
                }
            }
            None
        },
    }
}

fn read_u32(bytes: &Vec<u8>, pos: usize) -> (r: Option<(u32, usize)>)
    ensures
        forall|x: u32|
            starts_at(bytes@, pos as int, enc_u32(x)) ==> r == Some(
                (x, (pos + enc_u32(x).len()) as usize),
            ),
        r is Some ==> r.unwrap().1 == pos + 8 && pos + 8 <= bytes.len(),
{
    match read_u64(bytes, pos) {
        Some((v, p)) => {
            if v <= u32::MAX as u64 {
                let s: u32 = v as u32;
                proof {
                    assert forall|x: u32| starts_at(bytes@, pos as int, enc_u32(x)) implies Some(
                        (s, p),
                    ) == Some((x, (pos + enc_u32(x).len()) as usize)) by {
                        assert(starts_at(bytes@, pos as int, enc_u64(x as u64)));
                        assert(v == x as u64);
                    }
                }
                Some((s, p))
            } else {
                proof {
                    assert forall|x: u32| !starts_at(bytes@, pos as int, enc_u32(x)) by {
                        if starts_at(bytes@, pos as int, enc_u32(x)) {
                            assert(starts_at(bytes@, pos as int, enc_u64(x as u64)));
                            assert(v == x as u64);
                            assert(x as u64 <= u32::MAX as u64);
                        }
                    }
                }
                None
            }
        },
        None => {
            proof {
                assert forall|x: u32| !starts_at(bytes@, pos as int, enc_u32(x)) by {
                    if starts_at(bytes@, pos as int, enc_u32(x)) {
                        assert(starts_at(bytes@, pos as int, enc_u64(x as u64)));
                    }
                }
            }
            None
        },
    }
}

fn read_bool(bytes: &Vec<u8>, pos: usize) -> (r: Option<(bool, usize)>)
    ensures
        forall|x: bool|
            starts_at(bytes@, pos as int, enc_bool(x)) ==> r == Some(
                (x, (pos + enc_bool(x).len()) as usize),
            ),
        r is Some ==> r.unwrap().1 == pos + 1 && pos + 1 <= bytes.len(),
{
    if pos >= bytes.len() {
        return None;
    }
    let b = bytes[pos];
    proof {
        assert forall|x: bool| starts_at(bytes@, pos as int, enc_bool(x)) implies bytes@[pos as int]
            == enc_bool(x)[0] by {
            assert(bytes@.subrange(pos as int, pos as int + 1)[0] == bytes@[pos as int]);
        }
    }
    if b == 1 {
        Some((true, pos + 1))
    } else if b == 0 {
        Some((false, pos + 1))
    } else {
        None
    }
}

fn read_v2(bytes: &Vec<u8>, pos: usize) -> (r: Option<(Vec2, usize)>)
    ensures
        forall|x: Vec2|
            starts_at(bytes@, pos as int, enc_v2(x)) ==> r == Some(
                (x, (pos + enc_v2(x).len()) as usize),
            ),
        r is Some ==> r.unwrap().1 == pos + 16 && pos + 16 <= bytes.len(),
{
    let (x, p1) = match read_i64(bytes, pos) {
        Some(v) => v,
        None => {
            proof {
                assert forall|w: Vec2| !starts_at(bytes@, pos as int, enc_v2(w)) by {
                    if starts_at(bytes@, pos as int, enc_v2(w)) {
                        lemma_starts_at_concat(bytes@, pos as int, enc_i64(w.x), enc_i64(w.y));
                    }
                }
            }
            return None;
        },
    };
    let (y, p2) = match read_i64(bytes, p1) {
        Some(v) => v,
        None => {
            proof {
                assert forall|w: Vec2| !starts_at(bytes@, pos as int, enc_v2(w)) by {
                    if starts_at(bytes@, pos as int, enc_v2(w)) {
                        lemma_starts_at_concat(bytes@, pos as int, enc_i64(w.x), enc_i64(w.y));
                        assert(x == w.x && p1 == pos + 8);
                    }
                }
            }
            return None;
        },
    };
    proof {
        assert forall|w: Vec2| starts_at(bytes@, pos as int, enc_v2(w)) implies Some(
            (Vec2 { x, y }, p2),
        ) == Some((w, (pos + enc_v2(w).len()) as usize)) by {
            lemma_starts_at_concat(bytes@, pos as int, enc_i64(w.x), enc_i64(w.y));
            assert(x == w.x && p1 == pos + 8);
            assert(y == w.y && p2 == pos + 16);
        }
    }
    Some((Vec2 { x, y }, p2))
}

fn read_v3(bytes: &Vec<u8>, pos: usize) -> (r: Option<(Vec3, usize)>)
    ensures
        forall|x: Vec3|
            starts_at(bytes@, pos as int, enc_v3(x)) ==> r == Some(
                (x, (pos + enc_v3(x).len()) as usize),
            ),
        r is Some ==> r.unwrap().1 == pos + 24 && pos + 24 <= bytes.len(),
{
    let r1 = read_i64(bytes, pos);
    let (x, p1) = match r1 {
        Some(v) => v,
        None => {
            proof {
                assert forall|w: Vec3| !starts_at(bytes@, pos as int, enc_v3(w)) by {
                    if starts_at(bytes@, pos as int, enc_v3(w)) {
                        lemma_starts_at_concat(
                            bytes@,
                            pos as int,
                            enc_i64(w.x) + enc_i64(w.y),
                            enc_i64(w.z),
                        );
                        lemma_starts_at_concat(bytes@, pos as int, enc_i64(w.x), enc_i64(w.y));
                    }
                }
            }
            return None;
        },
    };
    let (y, p2) = match read_i64(bytes, p1) {
        Some(v) => v,
        None => {
            proof {
                assert forall|w: Vec3| !starts_at(bytes@, pos as int, enc_v3(w)) by {
                    if starts_at(bytes@, pos as int, enc_v3(w)) {
                        lemma_starts_at_concat(
                            bytes@,
                            pos as int,
                            enc_i64(w.x) + enc_i64(w.y),
                            enc_i64(w.z),
                        );
                        lemma_starts_at_concat(bytes@, pos as int, enc_i64(w.x), enc_i64(w.y));
                        assert(x == w.x && p1 == pos + 8);
                    }
                }
            }
            return None;
        },
    };
    let (z, p3) = match read_i64(bytes, p2) {
        Some(v) => v,
        None => {
            proof {
                assert forall|w: Vec3| !starts_at(bytes@, pos as int, enc_v3(w)) by {
                    if starts_at(bytes@, pos as int, enc_v3(w)) {
                        lemma_starts_at_concat(
                            bytes@,
                            pos as int,
                            enc_i64(w.x) + enc_i64(w.y),
                            enc_i64(w.z),
                        );
                        lemma_starts_at_concat(bytes@, pos as int, enc_i64(w.x), enc_i64(w.y));
                        assert(x == w.x && p1 == pos + 8);
                        assert(y == w.y && p2 == pos + 16);
                    }
                }
            }
            return None;
        },
    };
    proof {
        assert forall|w: Vec3| starts_at(bytes@, pos as int, enc_v3(w)) implies Some(
            (Vec3 { x, y, z }, p3),
        ) == Some((w, (pos + enc_v3(w).len()) as usize)) by {
            lemma_starts_at_concat(bytes@, pos as int, enc_i64(w.x) + enc_i64(w.y), enc_i64(w.z));
            lemma_starts_at_concat(bytes@, pos as int, enc_i64(w.x), enc_i64(w.y));
            assert(x == w.x && p1 == pos + 8);
            assert(y == w.y && p2 == pos + 16);
            assert(z == w.z && p3 == pos + 24);
        }
    }
    Some((Vec3 { x, y, z }, p3))
}

fn read_rot(bytes: &Vec<u8>, pos: usize) -> (r: Option<(Rot2, usize)>)
    ensures
        forall|x: Rot2|
            starts_at(bytes@, pos as int, enc_rot(x)) ==> r == Some(
                (x, (pos + enc_rot(x).len()) as usize),
            ),
        r is Some ==> r.unwrap().1 == pos + 16 && pos + 16 <= bytes.len(),
{
    let (c, p1) = match read_i64(bytes, pos) {
        Some(v) => v,
        None => {
            proof {
                assert forall|w: Rot2| !starts_at(bytes@, pos as int, enc_rot(w)) by {
                    if starts_at(bytes@, pos as int, enc_rot(w)) {
                        lemma_starts_at_concat(bytes@, pos as int, enc_i64(w.c), enc_i64(w.s));
                    }
                }
            }
            return None;
        },
    };
    let (s, p2) = match read_i64(bytes, p1) {
        Some(v) => v,
        None => {
            proof {
                assert forall|w: Rot2| !starts_at(bytes@, pos as int, enc_rot(w)) by {
                    if starts_at(bytes@, pos as int, enc_rot(w)) {
                        lemma_starts_at_concat(bytes@, pos as int, enc_i64(w.c), enc_i64(w.s));
                        assert(c == w.c && p1 == pos + 8);
                    }
                }
            }
            return None;
        },
    };
    proof {
        assert forall|w: Rot2| starts_at(bytes@, pos as int, enc_rot(w)) implies Some(
            (Rot2 { c, s }, p2),
        ) == Some((w, (pos + enc_rot(w).len()) as usize)) by {
            lemma_starts_at_concat(bytes@, pos as int, enc_i64(w.c), enc_i64(w.s));
            assert(c == w.c && p1 == pos + 8);
            assert(s == w.s && p2 == pos + 16);
        }
    }
    Some((Rot2 { c, s }, p2))
}

/// Writes a door's fixed 42-byte record.
pub fn write_door(d: &Door, out: &mut Vec<u8>)
    ensures
        final(out)@ == old(out)@ + enc_door(*d),
{
    write_i64(d.wall, out);
    write_v2(d.offset, out);
    write_v2(d.size, out);
    let vt: u8 = match d.valign {
        VerticalAlign::Top => 0,
        VerticalAlign::Center => 1,
        VerticalAlign::Bottom => 2,
    };
    let ht: u8 = match d.halign {
        HorizontalAlign::Left => 0,
        HorizontalAlign::Center => 1,
        HorizontalAlign::Right => 2,
    };
    out.push(vt);
    out.push(ht);
    proof {
        assert(out@ =~= old(out)@ + enc_door(*d));
    }
}

/// Reads a door record: the exact door whose encoding sits at `pos`.
pub fn read_door(bytes: &Vec<u8>, pos: usize) -> (r: Option<(Door, usize)>)
    ensures
        forall|x: Door|
            starts_at(bytes@, pos as int, enc_door(x)) ==> r == Some(
                (x, (pos + enc_door(x).len()) as usize),
            ),
{
    let ghost b = bytes@;
    let (wall, p1) = match read_i64(bytes, pos) {
        Some(v) => v,
        None => {
            proof {
                door_split(b, pos as int);
            }
            return None;
        },
    };
    let (offset, p2) = match read_v2(bytes, p1) {
        Some(v) => v,
        None => {
            proof {
                door_split(b, pos as int);
            }
            return None;
        },
    };
    let (size, p3) = match read_v2(bytes, p2) {
        Some(v) => v,
        None => {
            proof {
                door_split(b, pos as int);
            }
            return None;
        },
    };
    if bytes.len() < 2 || p3 > bytes.len() - 2 {
        proof {
            door_split(b, pos as int);
        }
        return None;
    }
    let vt = bytes[p3];
    let ht = bytes[p3 + 1];
    let valign = match vt {
        0u8 => VerticalAlign::Top,
        1u8 => VerticalAlign::Center,
        2u8 => VerticalAlign::Bottom,
        _ => {
            proof {
                door_split(b, pos as int);
            }
            return None;
        },
    };
    let halign = match ht {
        0u8 => HorizontalAlign::Left,
        1u8 => HorizontalAlign::Center,
        2u8 => HorizontalAlign::Right,
        _ => {
            proof {
                door_split(b, pos as int);
            }
            return None;
        },
    };
    let d = Door { wall, offset, size, valign, halign };
    proof {
        assert forall|x: Door| starts_at(b, pos as int, enc_door(x)) implies Some(
            (d, (p3 + 2) as usize),
        ) == Some((x, (pos + enc_door(x).len()) as usize)) by {
            door_split_one(b, pos as int, x);
            assert(wall == x.wall && p1 == pos + 8);
            assert(offset == x.offset && p2 == pos + 24);
            assert(size == x.size && p3 == pos + 40);
            assert(b[p3 as int] == valign_tag(x.valign));
            assert(b[p3 as int + 1] == halign_tag(x.halign));
            assert(valign == x.valign);
            assert(halign == x.halign);
            assert(enc_door(x).len() == 42);
        }
    }
    Some((d, p3 + 2))
}

/// Splits a door encoding that starts at `pos` into its parts.
proof fn door_split_one(b: Seq<u8>, pos: int, x: Door)
    requires
        starts_at(b, pos, enc_door(x)),
    ensures
        starts_at(b, pos, enc_i64(x.wall)),
        starts_at(b, pos + 8, enc_v2(x.offset)),
        starts_at(b, pos + 24, enc_v2(x.size)),
        pos + 42 <= b.len(),
        b[pos + 40] == valign_tag(x.valign),
        b[pos + 41] == halign_tag(x.halign),
{
    let e1 = enc_i64(x.wall);
    let e2 = enc_v2(x.offset);
    let e3 = enc_v2(x.size);
    let e4 = seq![valign_tag(x.valign)];
    let e5 = seq![halign_tag(x.halign)];
    assert(enc_door(x) == e1 + e2 + e3 + e4 + e5);
    assert(e1 + e2 + e3 + e4 + e5 =~= (e1 + (e2 + (e3 + (e4 + e5)))));
    lemma_starts_at_concat(b, pos, e1, e2 + (e3 + (e4 + e5)));
    lemma_starts_at_concat(b, pos + 8, e2, e3 + (e4 + e5));
    lemma_starts_at_concat(b, pos + 24, e3, e4 + (e5));
    lemma_starts_at_concat(b, pos + 40, e4, e5);
    assert(b.subrange(pos + 40, pos + 41)[0] == b[pos + 40]);
    assert(b.subrange(pos + 41, pos + 42)[0] == b[pos + 41]);
}

proof fn door_split(b: Seq<u8>, pos: int)
    ensures
        forall|x: Door|
            starts_at(b, pos, #[trigger] enc_door(x)) ==> starts_at(b, pos, enc_i64(x.wall))
                && starts_at(b, pos + 8, enc_v2(x.offset)) && starts_at(b, pos + 24, enc_v2(x.size))
                && pos + 42 <= b.len() && b[pos + 40] == valign_tag(x.valign) && b[pos + 41]
                == halign_tag(x.halign),
{
    assert forall|x: Door| starts_at(b, pos, #[trigger] enc_door(x)) implies starts_at(
        b,
        pos,
        enc_i64(x.wall),
    ) && starts_at(b, pos + 8, enc_v2(x.offset)) && starts_at(b, pos + 24, enc_v2(x.size)) && pos
        + 42 <= b.len() && b[pos + 40] == valign_tag(x.valign) && b[pos + 41] == halign_tag(
        x.halign,
    ) by {
        door_split_one(b, pos, x);
    }
}

/// Writes a control rectangle's fixed 56-byte record.
pub fn write_control_rect(c: &ControlRect, out: &mut Vec<u8>)
    ensures
        final(out)@ == old(out)@ + enc_control_rect(*c),
{
    write_v3(c.position, out);
    write_rot(c.rotation, out);
    write_v2(c.size, out);
    proof {
        assert(out@ =~= old(out)@ + enc_control_rect(*c));
    }
}

/// Reads a control rectangle record.
pub fn read_control_rect(bytes: &Vec<u8>, pos: usize) -> (r: Option<(ControlRect, usize)>)
    ensures
        forall|x: ControlRect|
            starts_at(bytes@, pos as int, enc_control_rect(x)) ==> r == Some(
                (x, (pos + enc_control_rect(x).len()) as usize),
            ),
{
    let ghost b = bytes@;
    let (position, p1) = match read_v3(bytes, pos) {
        Some(v) => v,
        None => {
            proof {
                rect_split(b, pos as int);
            }
            return None;
        },
    };
    let (rotation, p2) = match read_rot(bytes, p1) {
        Some(v) => v,
        None => {
            proof {
                rect_split(b, pos as int);
            }
            return None;
        },
    };
    let (size, p3) = match read_v2(bytes, p2) {
        Some(v) => v,
        None => {
            proof {
                rect_split(b, pos as int);
            }
            return None;
        },
    };
    let c = ControlRect { position, rotation, size };
    proof {
        assert forall|x: ControlRect| starts_at(b, pos as int, enc_control_rect(x)) implies Some(
            (c, p3),
        ) == Some((x, (pos + enc_control_rect(x).len()) as usize)) by {
            rect_split_one(b, pos as int, x);
            assert(position == x.position && p1 == pos + 24);
            assert(rotation == x.rotation && p2 == pos + 40);
            assert(size == x.size && p3 == pos + 56);
            assert(enc_control_rect(x).len() == 56);
        }
    }
    Some((c, p3))
}

proof fn rect_split_one(b: Seq<u8>, pos: int, x: ControlRect)
    requires
        starts_at(b, pos, enc_control_rect(x)),
    ensures
        starts_at(b, pos, enc_v3(x.position)),
        starts_at(b, pos + 24, enc_rot(x.rotation)),
        starts_at(b, pos + 40, enc_v2(x.size)),
{
    let e1 = enc_v3(x.position);
    let e2 = enc_rot(x.rotation);
    let e3 = enc_v2(x.size);
    assert(enc_control_rect(x) == e1 + e2 + e3);
    assert(e1 + e2 + e3 =~= e1 + (e2 + e3));
    lemma_starts_at_concat(b, pos, e1, e2 + e3);
    lemma_starts_at_concat(b, pos + 24, e2, e3);
}

proof fn rect_split(b: Seq<u8>, pos: int)
    ensures
        forall|x: ControlRect|
            starts_at(b, pos, #[trigger] enc_control_rect(x)) ==> starts_at(
                b,
                pos,
                enc_v3(x.position),
            ) && starts_at(b, pos + 24, enc_rot(x.rotation)) && starts_at(
                b,
                pos + 40,
                enc_v2(x.size),
            ),
{
    assert forall|x: ControlRect| starts_at(b, pos, #[trigger] enc_control_rect(x)) implies
        starts_at(b, pos, enc_v3(x.position)) && starts_at(b, pos + 24, enc_rot(x.rotation))
        && starts_at(b, pos + 40, enc_v2(x.size)) by {
        rect_split_one(b, pos, x);
    }
}

/// The round trip on a door record: decoding an encoding gives back exactly
/// the door, for every door.
pub fn encode_decode_door(d: &Door) -> (r: Option<Door>)
    ensures
        r == Some(*d),
{
    let mut out: Vec<u8> = Vec::new();
    write_door(d, &mut out);
    proof {
        assert(out@.subrange(0, enc_door(*d).len() as int) =~= enc_door(*d));
        assert(starts_at(out@, 0, enc_door(*d)));
    }
    match read_door(&out, 0) {
        Some((d2, _)) => Some(d2),
        None => None,
    }
}

/// The round trip on a control rectangle record.
pub fn encode_decode_control_rect(c: &ControlRect) -> (r: Option<ControlRect>)
    ensures
        r == Some(*c),
{
    let mut out: Vec<u8> = Vec::new();
    write_control_rect(c, &mut out);
    proof {
        assert(out@.subrange(0, enc_control_rect(*c).len() as int) =~= enc_control_rect(*c));
        assert(starts_at(out@, 0, enc_control_rect(*c)));
    }
    match read_control_rect(&out, 0) {
        Some((c2, _)) => Some(c2),
        None => None,
    }
}


fn write_texinfo(t: &TexInfo, out: &mut Vec<u8>)
    ensures
        final(out)@ == old(out)@ + enc_texinfo(*t),
{
    write_u32(t.id, out);
    write_i64(t.ratio, out);
    proof {
        assert(out@ =~= old(out)@ + enc_texinfo(*t));
    }
}

fn read_texinfo(bytes: &Vec<u8>, pos: usize) -> (r: Option<(TexInfo, usize)>)
    ensures
        forall|x: TexInfo|
            starts_at(bytes@, pos as int, enc_texinfo(x)) ==> r == Some(
                (x, (pos + enc_texinfo(x).len()) as usize),
            ),
        r is Some ==> r.unwrap().1 == pos + 16 && pos + 16 <= bytes.len(),
{
    let ghost b = bytes@;
    let (id, p1) = match read_u32(bytes, pos) {
        Some(v) => v,
        None => {
            proof {
                texinfo_split(b, pos as int);
            }
            return None;
        },
    };
    let (ratio, p2) = match read_i64(bytes, p1) {
        Some(v) => v,
        None => {
            proof {
                texinfo_split(b, pos as int);
            }
            return None;
        },
    };
    proof {
        assert forall|x: TexInfo| starts_at(b, pos as int, enc_texinfo(x)) implies Some(
            (TexInfo { id, ratio }, p2),
        ) == Some((x, (pos + enc_texinfo(x).len()) as usize)) by {
            texinfo_split(b, pos as int);
            assert(id == x.id && p1 == pos + 8);
            assert(ratio == x.ratio && p2 == pos + 16);
        }
    }
    Some((TexInfo { id, ratio }, p2))
}

proof fn texinfo_split(b: Seq<u8>, pos: int)
    ensures
        forall|x: TexInfo|
            starts_at(b, pos, #[trigger] enc_texinfo(x)) ==> starts_at(b, pos, enc_u32(x.id))
                && starts_at(b, pos + 8, enc_i64(x.ratio)),
{
    assert forall|x: TexInfo| starts_at(b, pos, #[trigger] enc_texinfo(x)) implies starts_at(
        b,
        pos,
        enc_u32(x.id),
    ) && starts_at(b, pos + 8, enc_i64(x.ratio)) by {
        lemma_starts_at_concat(b, pos, enc_u32(x.id), enc_i64(x.ratio));
    }
}

fn write_tile(t: &TileStyle, out: &mut Vec<u8>)
    ensures
        final(out)@ == old(out)@ + enc_tile(*t),
{
    write_i64(t.specific.0, out);
    write_i64(t.specific.1, out);
    write_i64(t.scale.0, out);
    write_bool(t.scale.1, out);
    write_bool(t.is_specific, out);
    proof {
        assert(out@ =~= old(out)@ + enc_tile(*t));
    }
}

fn read_tile(bytes: &Vec<u8>, pos: usize) -> (r: Option<(TileStyle, usize)>)
    ensures
        forall|x: TileStyle|
            starts_at(bytes@, pos as int, enc_tile(x)) ==> r == Some(
                (x, (pos + enc_tile(x).len()) as usize),
            ),
        r is Some ==> r.unwrap().1 == pos + 26 && pos + 26 <= bytes.len(),
{
    let ghost b = bytes@;
    let (s0, p1) = match read_i64(bytes, pos) {
        Some(v) => v,
        None => {
            proof {
                tile_split(b, pos as int);
            }
            return None;
        },
    };
    let (s1, p2) = match read_i64(bytes, p1) {
        Some(v) => v,
        None => {
            proof {
                tile_split(b, pos as int);
            }
            return None;
        },
    };
    let (sc, p3) = match read_i64(bytes, p2) {
        Some(v) => v,
        None => {
            proof {
                tile_split(b, pos as int);
            }
            return None;
        },
    };
    let (g, p4) = match read_bool(bytes, p3) {
        Some(v) => v,
        None => {
            proof {
                tile_split(b, pos as int);
            }
            return None;
        },
    };
    let (isp, p5) = match read_bool(bytes, p4) {
        Some(v) => v,
        None => {
            proof {
                tile_split(b, pos as int);
            }
            return None;
        },
    };
    let t = TileStyle { specific: TileSpecific(s0, s1), scale: TileScale(sc, g), is_specific: isp };
    proof {
        assert forall|x: TileStyle| starts_at(b, pos as int, enc_tile(x)) implies Some(
            (t, p5),
        ) == Some((x, (pos + enc_tile(x).len()) as usize)) by {
            tile_split(b, pos as int);
            assert(s0 == x.specific.0 && p1 == pos + 8);
            assert(s1 == x.specific.1 && p2 == pos + 16);
            assert(sc == x.scale.0 && p3 == pos + 24);
            assert(g == x.scale.1 && p4 == pos + 25);
            assert(isp == x.is_specific && p5 == pos + 26);
            assert(t == x);
        }
    }
    Some((t, p5))
}

proof fn tile_split(b: Seq<u8>, pos: int)
    ensures
        forall|x: TileStyle|
            starts_at(b, pos, #[trigger] enc_tile(x)) ==> starts_at(b, pos, enc_i64(x.specific.0))
                && starts_at(b, pos + 8, enc_i64(x.specific.1)) && starts_at(
                b,
                pos + 16,
                enc_i64(x.scale.0),
            ) && starts_at(b, pos + 24, enc_bool(x.scale.1)) && starts_at(
                b,
                pos + 25,
                enc_bool(x.is_specific),
            ),
{
    assert forall|x: TileStyle| starts_at(b, pos, #[trigger] enc_tile(x)) implies starts_at(
        b,
        pos,
        enc_i64(x.specific.0),
    ) && starts_at(b, pos + 8, enc_i64(x.specific.1)) && starts_at(b, pos + 16, enc_i64(x.scale.0))
        && starts_at(b, pos + 24, enc_bool(x.scale.1)) && starts_at(
        b,
        pos + 25,
        enc_bool(x.is_specific),
    ) by {
        let e1 = enc_i64(x.specific.0);
        let e2 = enc_i64(x.specific.1);
        let e3 = enc_i64(x.scale.0);
        let e4 = enc_bool(x.scale.1);
        let e5 = enc_bool(x.is_specific);
        assert(enc_tile(x) =~= e1 + (e2 + (e3 + (e4 + e5))));
        lemma_starts_at_concat(b, pos, e1, e2 + (e3 + (e4 + e5)));
        lemma_starts_at_concat(b, pos + 8, e2, e3 + (e4 + e5));
        lemma_starts_at_concat(b, pos + 16, e3, e4 + e5);
        lemma_starts_at_concat(b, pos + 24, e4, e5);
    }
}

/// Writes a texture binding's fixed 60-byte record.
pub fn write_meshtex(t: &MeshTex, out: &mut Vec<u8>)
    ensures
        final(out)@ == old(out)@ + enc_meshtex(*t),
{
    write_texinfo(&t.id, out);
    write_v2(t.offset, out);
    write_tile(&t.tile, out);
    write_bool(t.fliped_x, out);
    write_bool(t.fliped_y, out);
    proof {
        assert(out@ =~= old(out)@ + enc_meshtex(*t));
    }
}

/// Reads a texture-binding record: the exact binding whose encoding sits at
/// `pos`.
pub fn read_meshtex(bytes: &Vec<u8>, pos: usize) -> (r: Option<(MeshTex, usize)>)
    ensures
        forall|x: MeshTex|
            starts_at(bytes@, pos as int, enc_meshtex(x)) ==> r == Some(
                (x, (pos + enc_meshtex(x).len()) as usize),
            ),
{
    let ghost b = bytes@;
    let (id, p1) = match read_texinfo(bytes, pos) {
        Some(v) => v,
        None => {
            proof {
                meshtex_split(b, pos as int);
            }
            return None;
        },
    };
    let (offset, p2) = match read_v2(bytes, p1) {
        Some(v) => v,
        None => {
            proof {
                meshtex_split(b, pos as int);
            }
            return None;
        },
    };
    let (tile, p3) = match read_tile(bytes, p2) {
        Some(v) => v,
        None => {
            proof {
                meshtex_split(b, pos as int);
            }
            return None;
        },
    };
    let (fx, p4) = match read_bool(bytes, p3) {
        Some(v) => v,
        None => {
            proof {
                meshtex_split(b, pos as int);
            }
            return None;
        },
    };
    let (fy, p5) = match read_bool(bytes, p4) {
        Some(v) => v,
        None => {
            proof {
                meshtex_split(b, pos as int);
            }
            return None;
        },
    };
    let t = MeshTex { id, offset, tile, fliped_x: fx, fliped_y: fy };
    proof {
        assert forall|x: MeshTex| starts_at(b, pos as int, enc_meshtex(x)) implies Some(
            (t, p5),
        ) == Some((x, (pos + enc_meshtex(x).len()) as usize)) by {
            meshtex_split(b, pos as int);
            assert(id == x.id && p1 == pos + 16);
            assert(offset == x.offset && p2 == pos + 32);
            assert(tile == x.tile && p3 == pos + 58);
            assert(fx == x.fliped_x && p4 == pos + 59);
            assert(fy == x.fliped_y && p5 == pos + 60);
            assert(t == x);
            assert(enc_meshtex(x).len() == 60);
        }
    }
    Some((t, p5))
}

proof fn meshtex_split(b: Seq<u8>, pos: int)
    ensures
        forall|x: MeshTex|
            starts_at(b, pos, #[trigger] enc_meshtex(x)) ==> starts_at(b, pos, enc_texinfo(x.id))
                && starts_at(b, pos + 16, enc_v2(x.offset)) && starts_at(
                b,
                pos + 32,
                enc_tile(x.tile),
            ) && starts_at(b, pos + 58, enc_bool(x.fliped_x)) && starts_at(
                b,
                pos + 59,
                enc_bool(x.fliped_y),
            ),
{
    assert forall|x: MeshTex| starts_at(b, pos, #[trigger] enc_meshtex(x)) implies starts_at(
        b,
        pos,
        enc_texinfo(x.id),
    ) && starts_at(b, pos + 16, enc_v2(x.offset)) && starts_at(b, pos + 32, enc_tile(x.tile))
        && starts_at(b, pos + 58, enc_bool(x.fliped_x)) && starts_at(
        b,
        pos + 59,
        enc_bool(x.fliped_y),
    ) by {
        let e1 = enc_texinfo(x.id);
        let e2 = enc_v2(x.offset);
        let e3 = enc_tile(x.tile);
        let e4 = enc_bool(x.fliped_x);
        let e5 = enc_bool(x.fliped_y);
        assert(enc_meshtex(x) =~= e1 + (e2 + (e3 + (e4 + e5))));
        lemma_starts_at_concat(b, pos, e1, e2 + (e3 + (e4 + e5)));
        lemma_starts_at_concat(b, pos + 16, e2, e3 + (e4 + e5));
        lemma_starts_at_concat(b, pos + 32, e3, e4 + e5);
        lemma_starts_at_concat(b, pos + 58, e4, e5);
    }
}

/// The round trip on a texture-binding record.
pub fn encode_decode_meshtex(t: &MeshTex) -> (r: Option<MeshTex>)
    ensures
        r == Some(*t),
{
    let mut out: Vec<u8> = Vec::new();
    write_meshtex(t, &mut out);
    proof {
        assert(out@.subrange(0, enc_meshtex(*t).len() as int) =~= enc_meshtex(*t));
        assert(starts_at(out@, 0, enc_meshtex(*t)));
    }
    match read_meshtex(&out, 0) {
        Some((t2, _)) => Some(t2),
        None => None,
    }
}

fn write_modifier(m: &Modifier, out: &mut Vec<u8>) {
    match m {
        Modifier::Ramp { pos, dir, size, ramp_texture, wall_texture, bottom_texture } => {
            out.push(0u8);
            write_v3(*pos, out);
            write_rot(*dir, out);
            write_v3(*size, out);
            write_meshtex(ramp_texture, out);
            write_meshtex(wall_texture, out);
            write_meshtex(bottom_texture, out);
        },
        Modifier::Cliff { walls, on_roof, height, floor_texture } => {
            out.push(1u8);
            write_u64(walls.len() as u64, out);
            let mut i: usize = 0;
            while i < walls.len()
                decreases walls.len() - i,
            {
                write_v2(walls[i].local_pos, out);
                write_meshtex(&walls[i].wall_texture, out);
                i = i + 1;
            }
            write_bool(*on_roof, out);
            write_i64(*height, out);
            write_meshtex(floor_texture, out);
        },
        Modifier::Disc { pos, size, sides, dir, top_tex, bottom_tex } => {
            out.push(2u8);
            write_v3(*pos, out);
            write_v3(*size, out);
            write_u64(sides.len() as u64, out);
            let mut i: usize = 0;
            while i < sides.len()
                decreases sides.len() - i,
            {
                write_meshtex(&sides[i], out);
                i = i + 1;
            }
            write_rot(*dir, out);
            write_meshtex(top_tex, out);
            write_meshtex(bottom_tex, out);
        },
    }
}

fn read_len(bytes: &Vec<u8>, pos: usize) -> Option<(usize, usize)> {
    let (n, p) = match read_u64(bytes, pos) {
        Some(v) => v,
        None => {
            return None;
        },
    };
    if n > 0x10000 {
        return None;
    }
    Some((n as usize, p))
}

fn read_modifier(bytes: &Vec<u8>, pos: usize) -> Option<(Modifier, usize)> {
    if pos >= bytes.len() {
        return None;
    }
    let tag = bytes[pos];
    let p0 = pos + 1;
    if tag == 0 {
        let (mpos, p1) = match read_v3(bytes, p0) {
            Some(v) => v,
            None => {
                return None;
            },
        };
        let (dir, p2) = match read_rot(bytes, p1) {
            Some(v) => v,
            None => {
                return None;
            },
        };
        let (size, p3) = match read_v3(bytes, p2) {
            Some(v) => v,
            None => {
                return None;
            },
        };
        let (rt, p4) = match read_meshtex(bytes, p3) {
            Some(v) => v,
            None => {
                return None;
            },
        };
        let (wt, p5) = match read_meshtex(bytes, p4) {
            Some(v) => v,
            None => {
                return None;
            },
        };
        let (bt, p6) = match read_meshtex(bytes, p5) {
            Some(v) => v,
            None => {
                return None;
            },
        };
        Some(
            (
                Modifier::Ramp {
                    pos: mpos,
                    dir,
                    size,
                    ramp_texture: rt,
                    wall_texture: wt,
                    bottom_texture: bt,
                },
                p6,
            ),
        )
    } else if tag == 1 {
        let (n, mut p) = match read_len(bytes, p0) {
            Some(v) => v,
            None => {
                return None;
            },
        };
        let mut walls: Vec<Wall> = Vec::new();
        let mut i: usize = 0;
        while i < n
            decreases n - i,
        {
            let (lp, q1) = match read_v2(bytes, p) {
                Some(v) => v,
                None => {
                    return None;
                },
            };
            let (wt, q2) = match read_meshtex(bytes, q1) {
                Some(v) => v,
                None => {
                    return None;
                },
            };
            walls.push(Wall { local_pos: lp, wall_texture: wt });
            p = q2;
            i = i + 1;
        }
        let (on_roof, q3) = match read_bool(bytes, p) {
            Some(v) => v,
            None => {
                return None;
            },
        };
        let (height, q4) = match read_i64(bytes, q3) {
            Some(v) => v,
            None => {
                return None;
            },
        };
        let (ft, q5) = match read_meshtex(bytes, q4) {
            Some(v) => v,
            None => {
                return None;
            },
        };
        Some((Modifier::Cliff { walls, on_roof, height, floor_texture: ft }, q5))
    } else if tag == 2 {
        let (mpos, p1) = match read_v3(bytes, p0) {
            Some(v) => v,
            None => {
                return None;
            },
        };
        let (size, p2) = match read_v3(bytes, p1) {
            Some(v) => v,
            None => {
                return None;
            },
        };
        let (n, mut p) = match read_len(bytes, p2) {
            Some(v) => v,
            None => {
                return None;
            },
        };
        let mut sides: Vec<MeshTex> = Vec::new();
        let mut i: usize = 0;
        while i < n
            decreases n - i,
        {
            let (t, q) = match read_meshtex(bytes, p) {
                Some(v) => v,
                None => {
                    return None;
                },
            };
            sides.push(t);
            p = q;
            i = i + 1;
        }
        let (dir, q1) = match read_rot(bytes, p) {
            Some(v) => v,
            None => {
                return None;
            },
        };
        let (tt, q2) = match read_meshtex(bytes, q1) {
            Some(v) => v,
            None => {
                return None;
            },
        };
        let (bt, q3) = match read_meshtex(bytes, q2) {
            Some(v) => v,
            None => {
                return None;
            },
        };
        Some((Modifier::Disc { pos: mpos, size, sides, dir, top_tex: tt, bottom_tex: bt }, q3))
    } else {
        None
    }
}

fn write_texdata(t: &HallWayTexData, out: &mut Vec<u8>) {
    write_meshtex(&t.top, out);
    write_meshtex(&t.bottom, out);
    write_meshtex(&t.left, out);
    write_meshtex(&t.right, out);
}

fn read_texdata(bytes: &Vec<u8>, pos: usize) -> Option<(HallWayTexData, usize)> {
    let (top, p1) = match read_meshtex(bytes, pos) {
        Some(v) => v,
        None => {
            return None;
        },
    };
    let (bottom, p2) = match read_meshtex(bytes, p1) {
        Some(v) => v,
        None => {
            return None;
        },
    };
    let (left, p3) = match read_meshtex(bytes, p2) {
        Some(v) => v,
        None => {
            return None;
        },
    };
    let (right, p4) = match read_meshtex(bytes, p3) {
        Some(v) => v,
        None => {
            return None;
        },
    };
    Some((HallWayTexData { top, bottom, left, right }, p4))
}

fn write_location(l: &DoorLocation, out: &mut Vec<u8>) {
    match l.room_index {
        Some(r) => {
            write_bool(true, out);
            write_u32(r.0, out);
        },
        None => {
            write_bool(false, out);
        },
    }
    match l.door_id {
        Some(d) => {
            write_bool(true, out);
            write_u32(d.0, out);
        },
        None => {
            write_bool(false, out);
        },
    }
    write_bool(l.enabled, out);
}

fn read_location(bytes: &Vec<u8>, pos: usize) -> Option<(DoorLocation, usize)> {
    let (has_r, p1) = match read_bool(bytes, pos) {
        Some(v) => v,
        None => {
            return None;
        },
    };
    let (room_index, p2) = if has_r {
        match read_u32(bytes, p1) {
            Some((v, p)) => (Some(RoomId(v)), p),
            None => {
                return None;
            },
        }
    } else {
        (None, p1)
    };
    let (has_d, p3) = match read_bool(bytes, p2) {
        Some(v) => v,
        None => {
            return None;
        },
    };
    let (door_id, p4) = if has_d {
        match read_u32(bytes, p3) {
            Some((v, p)) => (Some(DoorId(v)), p),
            None => {
                return None;
            },
        }
    } else {
        (None, p3)
    };
    let (enabled, p5) = match read_bool(bytes, p4) {
        Some(v) => v,
        None => {
            return None;
        },
    };
    Some((DoorLocation { room_index, door_id, enabled }, p5))
}

fn write_hallway(h: &HallWay, out: &mut Vec<u8>) {
    write_control_rect(&h.start, out);
    write_texdata(&h.start_texture, out);
    write_u64(h.middle.len() as u64, out);
    let mut i: usize = 0;
    while i < h.middle.len()
        decreases h.middle.len() - i,
    {
        write_control_rect(&h.middle[i].0, out);
        write_texdata(&h.middle[i].1, out);
        i = i + 1;
    }
    write_control_rect(&h.end, out);
    write_location(&h.start_location, out);
    write_location(&h.end_location, out);
}

fn read_hallway(bytes: &Vec<u8>, pos: usize) -> Option<(HallWay, usize)> {
    let (start, p1) = match read_control_rect(bytes, pos) {
        Some(v) => v,
        None => {
            return None;
        },
    };
    let (start_texture, p2) = match read_texdata(bytes, p1) {
        Some(v) => v,
        None => {
            return None;
        },
    };
    let (n, mut p) = match read_len(bytes, p2) {
        Some(v) => v,
        None => {
            return None;
        },
    };
    let mut middle: Vec<(ControlRect, HallWayTexData)> = Vec::new();
    let mut i: usize = 0;
    while i < n
        decreases n - i,
    {
        let (c, q1) = match read_control_rect(bytes, p) {
            Some(v) => v,
            None => {
                return None;
            },
        };
        let (t, q2) = match read_texdata(bytes, q1) {
            Some(v) => v,
            None => {
                return None;
            },
        };
        middle.push((c, t));
        p = q2;
        i = i + 1;
    }
    let (end, q3) = match read_control_rect(bytes, p) {
        Some(v) => v,
        None => {
            return None;
        },
    };
    let (start_location, q4) = match read_location(bytes, q3) {
        Some(v) => v,
        None => {
            return None;
        },
    };
    let (end_location, q5) = match read_location(bytes, q4) {
        Some(v) => v,
        None => {
            return None;
        },
    };
    Some((HallWay { start, start_texture, middle, end, start_location, end_location }, q5))
}

fn write_room(r: &Room, out: &mut Vec<u8>) {
    write_v3(r.position, out);
    write_rot(r.rotation, out);
    write_i64(r.height, out);
    write_u64(r.walls.len() as u64, out);
    let mut i: usize = 0;
    while i < r.walls.len()
        decreases r.walls.len() - i,
    {
        write_v2(r.walls[i].local_pos, out);
        write_meshtex(&r.walls[i].wall_texture, out);
        i = i + 1;
    }
    write_u64(r.doors.len() as u64, out);
    let mut j: usize = 0;
    while j < r.doors.len()
        decreases r.doors.len() - j,
    {
        write_u32(r.doors[j].0.0, out);
        write_door(&r.doors[j].1, out);
        j = j + 1;
    }
    write_u64(r.modifiers.len() as u64, out);
    let mut k: usize = 0;
    while k < r.modifiers.len()
        decreases r.modifiers.len() - k,
    {
        write_modifier(&r.modifiers[k], out);
        k = k + 1;
    }
    write_meshtex(&r.floor_texture, out);
    write_meshtex(&r.roof_texture, out);
    write_u32(r.next_door, out);
}

fn read_room(bytes: &Vec<u8>, pos: usize) -> (r: Option<(Room, usize)>)
    ensures
        r matches Some(v) ==> (forall|i: int|
            0 <= i < v.0.doors.len() ==> ((#[trigger] v.0.doors[i]).0.0 as int)
                < v.0.next_door as int) && (forall|i: int, j: int|
            0 <= i < j < v.0.doors.len() ==> (#[trigger] v.0.doors[i]).0 != (#[trigger] v.0.doors[
                j
            ]).0),
{
    let (position, p1) = match read_v3(bytes, pos) {
        Some(v) => v,
        None => {
            return None;
        },
    };
    let (rotation, p2) = match read_rot(bytes, p1) {
        Some(v) => v,
        None => {
            return None;
        },
    };
    let (height, p3) = match read_i64(bytes, p2) {
        Some(v) => v,
        None => {
            return None;
        },
    };
    let (nw, mut p) = match read_len(bytes, p3) {
        Some(v) => v,
        None => {
            return None;
        },
    };
    let mut walls: Vec<Wall> = Vec::new();
    let mut i: usize = 0;
    while i < nw
        decreases nw - i,
    {
        let (lp, q1) = match read_v2(bytes, p) {
            Some(v) => v,
            None => {
                return None;
            },
        };
        let (wt, q2) = match read_meshtex(bytes, q1) {
            Some(v) => v,
            None => {
                return None;
            },
        };
        walls.push(Wall { local_pos: lp, wall_texture: wt });
        p = q2;
        i = i + 1;
    }
    let (ndo, p4) = match read_len(bytes, p) {
        Some(v) => v,
        None => {
            return None;
        },
    };
    let mut doors: Vec<(DoorId, Door)> = Vec::new();
    let mut p5 = p4;
    let mut j: usize = 0;
    while j < ndo
        decreases ndo - j,
    {
        let (id, q1) = match read_u32(bytes, p5) {
            Some(v) => v,
            None => {
                return None;
            },
        };
        let (d, q2) = match read_door(bytes, q1) {
            Some(v) => v,
            None => {
                return None;
            },
        };
        doors.push((DoorId(id), d));
        p5 = q2;
        j = j + 1;
    }
    let (nm, p6) = match read_len(bytes, p5) {
        Some(v) => v,
        None => {
            return None;
        },
    };
    let mut modifiers: Vec<Modifier> = Vec::new();
    let mut p7 = p6;
    let mut k: usize = 0;
    while k < nm
        decreases nm - k,
    {
        let (m, q) = match read_modifier(bytes, p7) {
            Some(v) => v,
            None => {
                return None;
            },
        };
        modifiers.push(m);
        p7 = q;
        k = k + 1;
    }
    let (floor_texture, p8) = match read_meshtex(bytes, p7) {
        Some(v) => v,
        None => {
            return None;
        },
    };
    let (roof_texture, p9) = match read_meshtex(bytes, p8) {
        Some(v) => v,
        None => {
            return None;
        },
    };
    let (next_door, p10) = match read_u32(bytes, p9) {
        Some(v) => v,
        None => {
            return None;
        },
    };
    // Collision check: every stored door id must sit below the counter and
    // appear once.
    let mut a: usize = 0;
    while a < doors.len()
        invariant
            a <= doors.len(),
            forall|i: int|
                0 <= i < a ==> ((#[trigger] doors[i]).0.0 as int) < next_door as int,
            forall|i: int, j: int|
                0 <= i < a && i < j < doors.len() ==> (#[trigger] doors[i]).0
                    != (#[trigger] doors[j]).0,
        decreases doors.len() - a,
    {
        if doors[a].0.0 >= next_door {
            return None;
        }
        let mut b2: usize = a + 1;
        while b2 < doors.len()
            invariant
                a < doors.len(),
                a < b2 <= doors.len(),
                forall|j: int| a < j < b2 ==> doors[a as int].0 != (#[trigger] doors[j]).0,
            decreases doors.len() - b2,
        {
            if doors[a].0.0 == doors[b2].0.0 {
                return None;
            }
            b2 = b2 + 1;
        }
        a = a + 1;
    }
    Some(
        (
            Room {
                name: String::new(),
                position,
                rotation,
                height,
                walls,
                doors,
                modifiers,
                floor_texture,
                roof_texture,
                next_door,
            },
            p10,
        ),
    )
}

/// Serializes the level: every declarative field except the room names.
pub fn level_to_bytes(l: &LevelState) -> Vec<u8> {
    let mut out: Vec<u8> = Vec::new();
    write_u32(l.next_room, &mut out);
    write_u64(l.rooms.len() as u64, &mut out);
    let mut i: usize = 0;
    while i < l.rooms.len()
        decreases l.rooms.len() - i,
    {
        write_u32(l.rooms[i].0.0, &mut out);
        write_room(&l.rooms[i].1, &mut out);
        i = i + 1;
    }
    write_u64(l.hallways.len() as u64, &mut out);
    let mut j: usize = 0;
    while j < l.hallways.len()
        decreases l.hallways.len() - j,
    {
        write_hallway(&l.hallways[j], &mut out);
        j = j + 1;
    }
    out
}

/// Rehydrates a level from its bytes; a malformed record or an id collision
/// fails the whole load rather than passing silently: whatever loads has
/// every room id below the allocation counter and no id twice.
pub fn level_from_bytes(bytes: &Vec<u8>) -> (r: Option<LevelState>)
    ensures
        r matches Some(l2) ==> (forall|i: int|
            0 <= i < l2.rooms.len() ==> ((#[trigger] l2.rooms[i]).0.0 as int)
                < l2.next_room as int) && (forall|i: int, j: int|
            0 <= i < j < l2.rooms.len() ==> (#[trigger] l2.rooms[i]).0 != (#[trigger] l2.rooms[
                j
            ]).0) && (forall|i: int|
            0 <= i < l2.rooms.len() ==> {
                let rm = (#[trigger] l2.rooms[i]).1;
                (forall|a: int|
                    0 <= a < rm.doors.len() ==> ((#[trigger] rm.doors[a]).0.0 as int)
                        < rm.next_door as int) && (forall|a: int, b: int|
                    0 <= a < b < rm.doors.len() ==> (#[trigger] rm.doors[a]).0
                        != (#[trigger] rm.doors[b]).0)
            }),
{
    let (next_room, p1) = match read_u32(bytes, 0) {
        Some(v) => v,
        None => {
            return None;
        },
    };
    let (nr, mut p) = match read_len(bytes, p1) {
        Some(v) => v,
        None => {
            return None;
        },
    };
    let mut rooms: Vec<(RoomId, Room)> = Vec::new();
    let mut i: usize = 0;
    while i < nr
        invariant
            rooms.len() == i <= nr,
            forall|ii: int|
                0 <= ii < rooms.len() ==> {
                    let rm = (#[trigger] rooms[ii]).1;
                    (forall|a: int|
                        0 <= a < rm.doors.len() ==> ((#[trigger] rm.doors[a]).0.0 as int)
                            < rm.next_door as int) && (forall|a: int, b: int|
                        0 <= a < b < rm.doors.len() ==> (#[trigger] rm.doors[a]).0
                            != (#[trigger] rm.doors[b]).0)
                },
        decreases nr - i,
    {
        let (id, q1) = match read_u32(bytes, p) {
            Some(v) => v,
            None => {
                return None;
            },
        };
        let (room, q2) = match read_room(bytes, q1) {
            Some(v) => v,
            None => {
                return None;
            },
        };
        rooms.push((RoomId(id), room));
        p = q2;
        i = i + 1;
    }
    let (nh, p2) = match read_len(bytes, p) {
        Some(v) => v,
        None => {
            return None;
        },
    };
    let mut hallways: Vec<HallWay> = Vec::new();
    let mut p3 = p2;
    let mut j: usize = 0;
    while j < nh
        decreases nh - j,
    {
        let (h, q) = match read_hallway(bytes, p3) {
            Some(v) => v,
            None => {
                return None;
            },
        };
        hallways.push(h);
        p3 = q;
        j = j + 1;
    }
    // Collision check on room ids against the allocation counter.
    let mut a: usize = 0;
    while a < rooms.len()
        invariant
            a <= rooms.len(),
            forall|i: int|
                0 <= i < a ==> ((#[trigger] rooms[i]).0.0 as int) < next_room as int,
            forall|i: int, j: int|
                0 <= i < a && i < j < rooms.len() ==> (#[trigger] rooms[i]).0
                    != (#[trigger] rooms[j]).0,
        decreases rooms.len() - a,
    {
        if rooms[a].0.0 >= next_room {
            return None;
        }
        let mut b2: usize = a + 1;
        while b2 < rooms.len()
            invariant
                a < rooms.len(),
                a < b2 <= rooms.len(),
                forall|j: int| a < j < b2 ==> rooms[a as int].0 != (#[trigger] rooms[j]).0,
            decreases rooms.len() - b2,
        {
            if rooms[a].0.0 == rooms[b2].0.0 {
                return None;
            }
            b2 = b2 + 1;
        }
        a = a + 1;
    }
    Some(LevelState { hallways, rooms, next_room })
}

} // verus!
