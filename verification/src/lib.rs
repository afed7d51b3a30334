//! Derives physics-object configuration from the metadata text embedded in
//! mesh assets: each node's payload names a collider kind, a rigid-body kind,
//! and, for cuboid colliders, the cuboid's dimensions. The parser and the
//! resolver are verified: decoding is proved to follow the payload grammar,
//! and resolution is proved to produce exactly the configuration the decoded
//! metadata asks for.
pub mod extras;
pub mod parse;
pub mod resolve;

pub use extras::{BCollider, BMeshExtras, BRigidBody, CubeSize};
pub use parse::{decode_mesh_extras, DecodeError};
pub use resolve::{
    process_node, process_nodes, resolve_body_mode, resolve_extras, BodyMode, ColliderShape,
    MissingDimensionError, NodeOutcome, PhysicsDescriptor,
};
