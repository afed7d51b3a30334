//! The metadata value carried by a mesh node: which collider to build and
//! which rigid-body mode to give it, plus the cuboid dimensions when the
//! collider is a cuboid.
use vstd::prelude::*;

verus! {

/// Which collision shape the node asks for.
#[derive(Clone, Copy, Debug, PartialEq, Eq, Structural)]
pub enum BCollider {
    TrimeshFromMesh,
    Cuboid,
}

/// Whether the node's body is immovable or simulated by the physics system.
#[derive(Clone, Copy, Debug, PartialEq, Eq, Structural)]
pub enum BRigidBody {
    Static,
    Dynamic,
}

/// The three cuboid dimensions, each kept as the exact number token that the
/// metadata text spelled out (for example `2` or `0.5`). The host converts a
/// token to its numeric type when it builds the collision shape; keeping the
/// token avoids committing this library to any floating-point reading.
#[derive(Debug)]
pub struct CubeSize {
    pub x: Vec<char>,
    pub y: Vec<char>,
    pub z: Vec<char>,
}

/// Mathematical image of `CubeSize`: the three tokens as character sequences.
pub ghost struct CubeSizeView {
    pub x: Seq<char>,
    pub y: Seq<char>,
    pub z: Seq<char>,
}

impl View for CubeSize {
    type V = CubeSizeView;

    open spec fn view(&self) -> CubeSizeView {
        CubeSizeView { x: self.x@, y: self.y@, z: self.z@ }
    }
}

pub open spec fn cube_size_view(c: Option<CubeSize>) -> Option<CubeSizeView> {
    match c {
        Option::Some(s) => Option::Some(s@),
        Option::None => Option::None,
    }
}

/// The decoded per-mesh metadata: collider kind, rigid-body kind, and the
/// cuboid dimensions where present. `cube_size` is only meaningful when
/// `collider` is `Cuboid`; a trimesh collider ignores it.
#[derive(Debug)]
pub struct BMeshExtras {
    pub collider: BCollider,
    pub rigid_body: BRigidBody,
    pub cube_size: Option<CubeSize>,
}

/// Mathematical image of `BMeshExtras`.
pub ghost struct MeshExtrasView {
    pub collider: BCollider,
    pub rigid_body: BRigidBody,
    pub cube_size: Option<CubeSizeView>,
}

impl View for BMeshExtras {
    type V = MeshExtrasView;

    open spec fn view(&self) -> MeshExtrasView {
        MeshExtrasView {
            collider: self.collider,
            rigid_body: self.rigid_body,
            cube_size: cube_size_view(self.cube_size),
        }
    }
}

} // verus!
