//! The collider resolver: maps decoded mesh metadata to the physics
//! configuration to attach to the node, and folds decoding and resolution
//! into a per-node outcome for the scene traversal.
use vstd::prelude::*;
use crate::extras::{BCollider, BRigidBody, BMeshExtras, CubeSize, CubeSizeView, MeshExtrasView};
use crate::parse::{decode_mesh_extras, spec_decode, DecodeError};

verus! {

/// Whether the node's body is attached as immovable or handed to the
/// simulation.
#[derive(Clone, Copy, Debug, PartialEq, Eq, Structural)]
pub enum BodyMode {
    Immovable,
    Simulated,
}

/// The collision shape to build for the node: one derived from the node's own
/// mesh geometry, or a rectangular prism with the given extents.
#[derive(Debug)]
pub enum ColliderShape {
    TrimeshFromMesh,
    Cuboid(CubeSize),
}

/// Mathematical image of `ColliderShape`.
pub ghost enum ColliderShapeView {
    TrimeshFromMesh,
    Cuboid(CubeSizeView),
}

impl View for ColliderShape {
    type V = ColliderShapeView;

    open spec fn view(&self) -> ColliderShapeView {
        match self {
            ColliderShape::TrimeshFromMesh => ColliderShapeView::TrimeshFromMesh,
            ColliderShape::Cuboid(c) => ColliderShapeView::Cuboid(c@),
        }
    }
}

/// What the resolver attaches to a node: the body mode and the collision
/// shape.
#[derive(Debug)]
pub struct PhysicsDescriptor {
    pub body: BodyMode,
    pub shape: ColliderShape,
}

/// Mathematical image of `PhysicsDescriptor`.
pub ghost struct PhysicsDescriptorView {
    pub body: BodyMode,
    pub shape: ColliderShapeView,
}

impl View for PhysicsDescriptor {
    type V = PhysicsDescriptorView;

    open spec fn view(&self) -> PhysicsDescriptorView {
        PhysicsDescriptorView { body: self.body, shape: self.shape@ }
    }
}

/// A cuboid collider was asked for without its dimensions: a content error
/// with no sane default, so the node's processing fails loudly.
#[derive(Clone, Copy, Debug, PartialEq, Eq, Structural)]
pub struct MissingDimensionError;

/// The body mode each rigid-body kind maps to.
pub open spec fn body_mode_of(b: BRigidBody) -> BodyMode {
    match b {
        BRigidBody::Static => BodyMode::Immovable,
        BRigidBody::Dynamic => BodyMode::Simulated,
    }
}

/// The configuration that decoded metadata resolves to, or `None` exactly
/// when a cuboid collider is asked for without its dimensions.
pub open spec fn spec_resolve(e: MeshExtrasView) -> Option<PhysicsDescriptorView> {
    match e.collider {
        BCollider::TrimeshFromMesh => Option::Some(
            PhysicsDescriptorView {
                body: body_mode_of(e.rigid_body),
                shape: ColliderShapeView::TrimeshFromMesh,
            },
        ),
        BCollider::Cuboid => match e.cube_size {
            Option::Some(c) => Option::Some(
                PhysicsDescriptorView {
                    body: body_mode_of(e.rigid_body),
                    shape: ColliderShapeView::Cuboid(c),
                },
            ),
            Option::None => Option::None,
        },
    }
}

/// Maps a rigid-body kind to its body mode: `Static` bodies are immovable,
/// `Dynamic` bodies are simulated.
pub fn resolve_body_mode(b: BRigidBody) -> (r: BodyMode)
    ensures
        r == body_mode_of(b),
{
    match b {
        BRigidBody::Static => BodyMode::Immovable,
        BRigidBody::Dynamic => BodyMode::Simulated,
    }
}

/// Resolves decoded metadata to the physics configuration it asks for.
///
/// A trimesh request yields a geometry-derived shape whatever `cube_size`
/// holds; a cuboid request yields a cuboid whose extents are exactly the
/// decoded dimensions, and fails with `MissingDimensionError` exactly when
/// the dimensions are absent.
pub fn resolve_extras(e: BMeshExtras) -> (r: Result<PhysicsDescriptor, MissingDimensionError>)
    ensures
        match r {
            Result::Ok(d) => spec_resolve(e@) == Option::Some(d@),
            Result::Err(_) => spec_resolve(e@) is None,
        },
        r is Err <==> (e.collider == BCollider::Cuboid && e.cube_size is None),
{
    match e.collider {
        BCollider::TrimeshFromMesh => Ok(
            PhysicsDescriptor {
                body: resolve_body_mode(e.rigid_body),
                shape: ColliderShape::TrimeshFromMesh,
            },
        ),
        BCollider::Cuboid => match e.cube_size {
            Some(c) => Ok(
                PhysicsDescriptor {
                    body: resolve_body_mode(e.rigid_body),
                    shape: ColliderShape::Cuboid(c),
                },
            ),
            None => Err(MissingDimensionError),
        },
    }
}

/// What becomes of one node: a configuration to attach, a skip over malformed
/// metadata, or a loud failure over a cuboid without dimensions.
#[derive(Debug)]
pub enum NodeOutcome {
    Attach(PhysicsDescriptor),
    Skip(DecodeError),
    Fatal(MissingDimensionError),
}

/// Mathematical image of `NodeOutcome`.
pub ghost enum NodeOutcomeView {
    Attach(PhysicsDescriptorView),
    Skip,
    Fatal,
}

impl View for NodeOutcome {
    type V = NodeOutcomeView;

    open spec fn view(&self) -> NodeOutcomeView {
        match self {
            NodeOutcome::Attach(d) => NodeOutcomeView::Attach(d@),
            NodeOutcome::Skip(_) => NodeOutcomeView::Skip,
            NodeOutcome::Fatal(_) => NodeOutcomeView::Fatal,
        }
    }
}

/// The outcome a node's metadata text determines: decode, then resolve.
pub open spec fn spec_node_outcome(s: Seq<char>) -> NodeOutcomeView {
    match spec_decode(s) {
        Option::None => NodeOutcomeView::Skip,
        Option::Some(e) => match spec_resolve(e) {
            Option::Some(d) => NodeOutcomeView::Attach(d),
            Option::None => NodeOutcomeView::Fatal,
        },
    }
}

/// Processes one node's metadata text: decodes it and resolves the result.
/// The outcome is exactly `spec_node_outcome` of the text.
pub fn process_node(metadata: &str) -> (r: NodeOutcome)
    ensures
        r@ == spec_node_outcome(metadata@),
{
    match decode_mesh_extras(metadata) {
        Err(e) => NodeOutcome::Skip(e),
        Ok(extras) => match resolve_extras(extras) {
            Ok(d) => NodeOutcome::Attach(d),
            Err(e) => NodeOutcome::Fatal(e),
        },
    }
}

/// The outcomes of a whole traversal: one per node, each determined by that
/// node's own metadata alone.
pub open spec fn spec_outcomes(nodes: Seq<Seq<char>>) -> Seq<NodeOutcomeView> {
    nodes.map_values(|s: Seq<char>| spec_node_outcome(s))
}

/// Processes every node of a freshly spawned scene instance, one outcome per
/// node. Each node's outcome is `spec_node_outcome` of its own metadata, so a
/// malformed node is skipped and its siblings still get their own outcomes.
pub fn process_nodes(nodes: &Vec<String>) -> (r: Vec<NodeOutcome>)
    ensures
        r@.len() == nodes@.len(),
        forall|i: int| 0 <= i < nodes@.len() ==> r@[i]@ == spec_node_outcome(nodes@[i]@),
{
    let mut r: Vec<NodeOutcome> = Vec::new();
    let mut i: usize = 0;
    while i < nodes.len()
        invariant
            i <= nodes@.len(),
            r@.len() == i,
            forall|k: int| 0 <= k < i ==> r@[k]@ == spec_node_outcome(nodes@[k]@),
        decreases nodes@.len() - i,
    {
        let outcome = process_node(nodes[i].as_str());
        r.push(outcome);
        i += 1;
    }
    r
}

// ---------------------------------------------------------------------------
// The laws the resolver obeys, stated over whole payload texts.
// ---------------------------------------------------------------------------

/// Every valid payload asking for a trimesh collider, whatever its rigid-body
/// kind, is attached a geometry-derived shape with the matching body mode.
pub proof fn lemma_trimesh_payload(s: Seq<char>, e: MeshExtrasView)
    requires
        spec_decode(s) == Option::Some(e),
        e.collider == BCollider::TrimeshFromMesh,
    ensures
        spec_node_outcome(s) == NodeOutcomeView::Attach(
            PhysicsDescriptorView {
                body: body_mode_of(e.rigid_body),
                shape: ColliderShapeView::TrimeshFromMesh,
            },
        ),
{
}

/// Every valid payload asking for a cuboid collider with dimensions present
/// is attached a cuboid whose extents are exactly those dimensions, with the
/// matching body mode.
pub proof fn lemma_cuboid_payload(s: Seq<char>, e: MeshExtrasView, c: CubeSizeView)
    requires
        spec_decode(s) == Option::Some(e),
        e.collider == BCollider::Cuboid,
        e.cube_size == Option::Some(c),
    ensures
        spec_node_outcome(s) == NodeOutcomeView::Attach(
            PhysicsDescriptorView {
                body: body_mode_of(e.rigid_body),
                shape: ColliderShapeView::Cuboid(c),
            },
        ),
{
}

/// A valid payload asking for a cuboid collider without dimensions fails that
/// node loudly: the outcome is fatal, never an attached default shape.
pub proof fn lemma_cuboid_without_size_is_fatal(s: Seq<char>, e: MeshExtrasView)
    requires
        spec_decode(s) == Option::Some(e),
        e.collider == BCollider::Cuboid,
        e.cube_size is None,
    ensures
        spec_node_outcome(s) == NodeOutcomeView::Fatal,
{
}

/// Malformed metadata never touches a sibling: over two node lists that agree
/// everywhere but at one index, every other node's outcome is the same.
pub proof fn lemma_sibling_isolation(a: Seq<Seq<char>>, b: Seq<Seq<char>>, bad: int, i: int)
    requires
        a.len() == b.len(),
        0 <= i < a.len(),
        i != bad,
        a[i] == b[i],
    ensures
        spec_outcomes(a)[i] == spec_outcomes(b)[i],
{
}

} // verus!
