//! Renderable triangle meshes: positions, UV coordinates and triangle
//! indices, tagged with the texture to draw them with.

use vstd::prelude::*;

use crate::geom::{Vec2, Vec3};

verus! {

/// One mesh vertex: a position in space and a UV coordinate.
#[derive(Clone, Copy, PartialEq, Eq, Structural, Debug)]
pub struct MeshVertex {
    pub position: Vec3,
    pub tex_coords: Vec2,
}

/// A textured triangle mesh; `indices` holds triangle corners in triples.
#[derive(Clone, Debug)]
pub struct Mesh {
    pub texture: u32,
    pub vertices: Vec<MeshVertex>,
    pub indices: Vec<usize>,
}

impl Mesh {
    /// Indices come in whole triangles and address actual vertices.
    pub open spec fn wf(self) -> bool {
        &&& self.indices.len() % 3 == 0
        &&& forall|i: int|
            0 <= i < self.indices.len() ==> (#[trigger] self.indices[i]) < self.vertices.len()
    }

    /// Appends `other`'s triangles to this mesh, shifting its indices past
    /// this mesh's vertices.
    pub fn combine(&mut self, other: Mesh)
        requires
            old(self).wf(),
            other.wf(),
            old(self).texture == other.texture,
            old(self).vertices.len() + other.vertices.len() <= usize::MAX,
        ensures
            final(self).wf(),
            final(self).texture == old(self).texture,
            final(self).vertices@ == old(self).vertices@ + other.vertices@,
            final(self).indices@.len() == old(self).indices@.len() + other.indices@.len(),
            forall|i: int|
                0 <= i < old(self).indices@.len() ==> final(self).indices@[i] == old(
                    self,
                ).indices@[i],
            forall|i: int|
                0 <= i < other.indices@.len() ==> final(self).indices@[old(self).indices@.len() + i]
                    == other.indices@[i] + old(self).vertices@.len(),
    {
        let shift: usize = self.vertices.len();
        let mut k: usize = 0;
        let m = other.indices.len();
        while k < m
            invariant
                0 <= k <= m == other.indices.len(),
                other.wf(),
                self.indices@.len() == old(self).indices@.len() + k,
                self.texture == old(self).texture,
                self.vertices@ == old(self).vertices@,
                shift == old(self).vertices@.len(),
                old(self).vertices.len() + other.vertices.len() <= usize::MAX,
                forall|i: int|
                    0 <= i < old(self).indices@.len() ==> self.indices@[i] == old(
                        self,
                    ).indices@[i],
                forall|i: int|
                    0 <= i < k ==> self.indices@[old(self).indices@.len() + i]
                        == other.indices@[i] + old(self).vertices@.len(),
            decreases m - k,
        {
            let idx = other.indices[k];
            proof {
                assert(other.indices@[k as int] < other.vertices.len());
            }
            self.indices.push(idx + shift);
            k = k + 1;
        }
        let mut vs = other.vertices;
        self.vertices.append(&mut vs);
        proof {
            assert(self.indices@.len() % 3 == 0) by {
                assert(old(self).indices@.len() % 3 == 0 && other.indices@.len() % 3 == 0);
            }
            assert forall|i: int| 0 <= i < self.indices@.len() implies (#[trigger] self.indices[i])
                < self.vertices.len() by {
                if i < old(self).indices@.len() {
                    assert(self.indices@[i] == old(self).indices@[i]);
                    assert(old(self).indices@[i] < old(self).vertices.len());
                } else {
                    let j = i - old(self).indices@.len();
                    assert(self.indices@[i] == other.indices@[j] + old(self).vertices@.len());
                    assert(other.indices@[j] < other.vertices.len());
                }
            }
        }
    }
}


/// Builds a mesh out of parallel position and UV lists and an index list.
pub(crate) fn build_mesh(
    texture: u32,
    positions: &Vec<Vec3>,
    uvs: &Vec<Vec2>,
    idx: Vec<usize>,
) -> (m: Mesh)
    requires
        positions.len() == uvs.len(),
        idx.len() % 3 == 0,
        forall|i: int| 0 <= i < idx.len() ==> (#[trigger] idx[i]) < positions.len(),
    ensures
        m.texture == texture,
        m.vertices.len() == positions.len(),
        m.indices.len() == idx.len(),
        m.indices@ == idx@,
        m.wf(),
        forall|i: int|
            0 <= i < positions.len() ==> (#[trigger] m.vertices[i]).position == positions[i]
                && m.vertices[i].tex_coords == uvs[i],
{
    let mut vs: Vec<MeshVertex> = Vec::new();
    let mut k: usize = 0;
    while k < positions.len()
        invariant
            0 <= k <= positions.len(),
            positions.len() == uvs.len(),
            vs.len() == k,
            forall|i: int|
                0 <= i < k ==> (#[trigger] vs[i]).position == positions[i] && vs[i].tex_coords
                    == uvs[i],
        decreases positions.len() - k,
    {
        vs.push(MeshVertex { position: positions[k], tex_coords: uvs[k] });
        k = k + 1;
    }
    Mesh { texture, vertices: vs, indices: idx }
}

pub(crate) fn idx6(a: usize, b: usize, c: usize, d: usize, e: usize, f: usize) -> (r: Vec<usize>)
    ensures
        r@ == seq![a, b, c, d, e, f],
        r.len() == 6,
{
    let mut v: Vec<usize> = Vec::new();
    v.push(a);
    v.push(b);
    v.push(c);
    v.push(d);
    v.push(e);
    v.push(f);
    proof {
        assert(v@ =~= seq![a, b, c, d, e, f]);
    }
    v
}

pub(crate) fn idx3(a: usize, b: usize, c: usize) -> (r: Vec<usize>)
    ensures
        r@ == seq![a, b, c],
        r.len() == 3,
{
    let mut v: Vec<usize> = Vec::new();
    v.push(a);
    v.push(b);
    v.push(c);
    proof {
        assert(v@ =~= seq![a, b, c]);
    }
    v
}


} // verus!
