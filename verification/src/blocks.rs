//! Unit grid blocks: axis-aligned cubes on an integer lattice, each face
//! carrying its own texture id, plus the empty block.

use vstd::prelude::*;

use crate::geom::{Vec2, Vec3, FP_ONE};
use crate::mesh::{Mesh, MeshVertex};

verus! {

/// A cell position on the block lattice.
#[derive(PartialEq, Eq, Structural, Hash, Clone, Copy, Debug)]
pub struct Position {
    pub x: i16,
    pub y: i16,
    pub z: i16,
}

impl Position {
    pub fn new(x: i16, y: i16, z: i16) -> (r: Position)
        ensures
            r.x == x,
            r.y == y,
            r.z == z,
    {
        Position { x, y, z }
    }
}

/// A block with nothing in it: meshes to nothing.
#[derive(Clone, Debug)]
pub struct AirBlock {}

impl AirBlock {
    pub fn mesh(&self) -> (r: Vec<Mesh>)
        ensures
            r.len() == 0,
    {
        Vec::new()
    }
}

/// A solid unit cube with one texture id per face.
#[derive(Clone, Debug)]
pub struct FullBlock {
    pub top: u32,
    pub bottom: u32,
    pub left: u32,
    pub right: u32,
    pub front: u32,
    pub back: u32,
}

impl FullBlock {
    /// A cube showing the same texture on every face.
    pub fn new(texture: u32) -> (r: FullBlock)
        ensures
            r.top == texture,
            r.bottom == texture,
            r.left == texture,
            r.right == texture,
            r.front == texture,
            r.back == texture,
    {
        FullBlock {
            top: texture,
            bottom: texture,
            left: texture,
            right: texture,
            front: texture,
            back: texture,
        }
    }

    /// The six faces of the unit cube, each a quad of two triangles.
    pub fn mesh(&self) -> (r: Vec<Mesh>)
        ensures
            r.len() == 6,
            forall|i: int|
                0 <= i < 6 ==> (#[trigger] r@[i]).vertices.len() == 4 && r@[i].indices.len() == 6
                    && r@[i].wf(),
            r@[0].texture == self.top,
            r@[1].texture == self.front,
            r@[2].texture == self.left,
            r@[3].texture == self.bottom,
            r@[4].texture == self.right,
            r@[5].texture == self.back,
    {
        let o: i64 = 0;
        let u: i64 = FP_ONE;
        let faces: [(u32, [(i64, i64, i64, i64, i64); 4]); 6] = [
            (
                self.top,
                [(o, u, o, o, o), (o, u, u, o, u), (u, u, o, u, o), (u, u, u, u, u)],
            ),
            (
                self.front,
                [(o, o, o, o, u), (o, u, o, o, o), (u, o, o, u, u), (u, u, o, u, o)],
            ),
            (
                self.left,
                [(o, o, u, o, u), (o, u, u, o, o), (o, o, o, u, u), (o, u, o, u, o)],
            ),
            (
                self.bottom,
                [(o, o, u, o, o), (o, o, o, o, u), (u, o, u, u, o), (u, o, o, u, u)],
            ),
            (
                self.right,
                [(u, o, o, o, u), (u, u, o, o, o), (u, o, u, u, u), (u, u, u, u, o)],
            ),
            (
                self.back,
                [(u, o, u, o, u), (u, u, u, o, o), (o, o, u, u, u), (o, u, u, u, o)],
            ),
        ];
        let mut out: Vec<Mesh> = Vec::new();
        let mut f: usize = 0;
        while f < 6
            invariant
                0 <= f <= 6,
                out.len() == f,
                forall|i: int|
                    0 <= i < f ==> (#[trigger] out@[i]).vertices.len() == 4 && out@[i].indices.len()
                        == 6 && out@[i].wf() && out@[i].texture == faces@[i].0,
                faces@[0].0 == self.top,
                faces@[1].0 == self.front,
                faces@[2].0 == self.left,
                faces@[3].0 == self.bottom,
                faces@[4].0 == self.right,
                faces@[5].0 == self.back,
            decreases 6 - f,
        {
            let (tex, corners) = faces[f];
            let mut vs: Vec<MeshVertex> = Vec::new();
            let mut c: usize = 0;
            while c < 4
                invariant
                    0 <= c <= 4,
                    vs.len() == c,
                decreases 4 - c,
            {
                let (px, py, pz, tu, tv) = corners[c];
                vs.push(
                    MeshVertex {
                        position: Vec3 { x: px, y: py, z: pz },
                        tex_coords: Vec2 { x: tu, y: tv },
                    },
                );
                c = c + 1;
            }
            let mut idx: Vec<usize> = Vec::new();
            idx.push(1);
            idx.push(2);
            idx.push(0);
            idx.push(1);
            idx.push(3);
            idx.push(2);
            let m = Mesh { texture: tex, vertices: vs, indices: idx };
            proof {
                assert(m.indices.len() == 6);
                assert(forall|i: int| 0 <= i < 6 ==> (#[trigger] m.indices[i]) < 4);
            }
            out.push(m);
            f = f + 1;
        }
        out
    }
}

/// Any block of the lattice.
#[derive(Clone, Debug)]
pub enum Blocks {
    FullBlock(FullBlock),
    AirBlock(AirBlock),
}

impl Blocks {
    /// Meshes the block: six faces for a full block, nothing for air.
    pub fn mesh(&self) -> (r: Vec<Mesh>)
        ensures
            match self {
                Blocks::FullBlock(_) => r.len() == 6,
                Blocks::AirBlock(_) => r.len() == 0,
            },
    {
        match self {
            Blocks::FullBlock(m) => m.mesh(),
            Blocks::AirBlock(m) => m.mesh(),
        }
    }
}

} // verus!
