//! A procedural mesh generator for multi-room levels: rooms bounded by a
//! ring of walls with door cut-outs, ramp, cliff and disc modifiers, and
//! hallways joining rooms through their doors, all compiled to textured
//! triangle meshes.  Geometry is exact fixed-point integer arithmetic, and
//! every function here is verified: triangle counts, the area covered by a
//! triangulation, door clamping, hallway re-anchoring, the placement of
//! every generated vertex, and the persistence round trip of the fixed-size
//! records are stated in the contracts.

pub mod blocks;
pub mod codec;
pub mod geom;
pub mod hallway;
pub mod holes;
pub mod level;
pub mod mesh;
pub mod modifier;
pub mod ring;
pub mod room;
pub mod texture;
pub mod tri;
