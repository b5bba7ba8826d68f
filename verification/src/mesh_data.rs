//! Mesh definitions as authored in a collection.
//!
//! Coordinates are held in integer sub-units; the renderer converts them to
//! its own floating-point units at the boundary.
use vstd::prelude::*;

verus! {

/// One mesh vertex: position and texture coordinates in sub-units.
#[derive(Clone, Copy, PartialEq, Eq, Structural, Debug)]
pub struct Vertex {
    pub x: i64,
    pub y: i64,
    pub u: i64,
    pub v: i64,
}

/// A line between two vertex indices.
#[derive(Clone, Copy, PartialEq, Eq, Structural, Debug)]
pub struct Line {
    pub v1: u32,
    pub v2: u32,
}

/// A triangle over three vertex indices.
#[derive(Clone, Copy, PartialEq, Eq, Structural, Debug)]
pub struct Triangle {
    pub v1: u32,
    pub v2: u32,
    pub v3: u32,
}

/// A quad over four vertex indices.
#[derive(Clone, Copy, PartialEq, Eq, Structural, Debug)]
pub struct Quad {
    pub v1: u32,
    pub v2: u32,
    pub v3: u32,
    pub v4: u32,
}

/// A named mesh: a texture reference and its geometry.
#[derive(Debug)]
pub struct MeshData {
    pub mesh_name: String,
    pub texture: String,
    pub vertices: Vec<Vertex>,
    pub lines: Vec<Line>,
    pub triangles: Vec<Triangle>,
    pub quads: Vec<Quad>,
}

/// The mathematical value of a mesh definition.
pub struct MeshView {
    pub mesh_name: Seq<char>,
    pub texture: Seq<char>,
    pub vertices: Seq<Vertex>,
    pub lines: Seq<Line>,
    pub triangles: Seq<Triangle>,
    pub quads: Seq<Quad>,
}

impl View for MeshData {
    type V = MeshView;

    open spec fn view(&self) -> MeshView {
        MeshView {
            mesh_name: self.mesh_name@,
            texture: self.texture@,
            vertices: self.vertices@,
            lines: self.lines@,
            triangles: self.triangles@,
            quads: self.quads@,
        }
    }
}

} // verus!
