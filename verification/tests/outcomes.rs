use collider_resolver::{
    decode_mesh_extras, process_node, process_nodes, resolve_body_mode, resolve_extras, BCollider,
    BMeshExtras, BRigidBody, BodyMode, ColliderShape, CubeSize, NodeOutcome, PhysicsDescriptor,
};

fn chars(s: &str) -> Vec<char> {
    s.chars().collect()
}

fn cube(x: &str, y: &str, z: &str) -> CubeSize {
    CubeSize { x: chars(x), y: chars(y), z: chars(z) }
}

fn expect_attach(o: NodeOutcome) -> PhysicsDescriptor {
    match o {
        NodeOutcome::Attach(d) => d,
        NodeOutcome::Skip(_) => panic!("node was skipped"),
        NodeOutcome::Fatal(_) => panic!("node failed fatally"),
    }
}

#[test]
fn body_mode_mapping_is_exact() {
    assert_eq!(resolve_body_mode(BRigidBody::Static), BodyMode::Immovable);
    assert_eq!(resolve_body_mode(BRigidBody::Dynamic), BodyMode::Simulated);
}

#[test]
fn trimesh_resolves_to_geometry_derived_shape() {
    let e = BMeshExtras {
        collider: BCollider::TrimeshFromMesh,
        rigid_body: BRigidBody::Static,
        cube_size: None,
    };
    let d = resolve_extras(e).expect("trimesh always resolves");
    assert_eq!(d.body, BodyMode::Immovable);
    assert!(matches!(d.shape, ColliderShape::TrimeshFromMesh));
}

#[test]
fn trimesh_resolves_even_with_a_size_present() {
    let e = BMeshExtras {
        collider: BCollider::TrimeshFromMesh,
        rigid_body: BRigidBody::Dynamic,
        cube_size: Some(cube("1", "1", "1")),
    };
    let d = resolve_extras(e).expect("trimesh always resolves");
    assert_eq!(d.body, BodyMode::Simulated);
    assert!(matches!(d.shape, ColliderShape::TrimeshFromMesh));
}

#[test]
fn cuboid_resolves_to_its_exact_extents() {
    let e = BMeshExtras {
        collider: BCollider::Cuboid,
        rigid_body: BRigidBody::Dynamic,
        cube_size: Some(cube("4", "0.5", "-2e1")),
    };
    let d = resolve_extras(e).expect("cuboid with size resolves");
    assert_eq!(d.body, BodyMode::Simulated);
    match d.shape {
        ColliderShape::Cuboid(c) => {
            assert_eq!(c.x, chars("4"));
            assert_eq!(c.y, chars("0.5"));
            assert_eq!(c.z, chars("-2e1"));
        }
        ColliderShape::TrimeshFromMesh => panic!("expected a cuboid shape"),
    }
}

#[test]
fn cuboid_without_size_is_a_missing_dimension_error() {
    let e = BMeshExtras {
        collider: BCollider::Cuboid,
        rigid_body: BRigidBody::Static,
        cube_size: None,
    };
    assert!(resolve_extras(e).is_err());
}

#[test]
fn static_cuboid_example_attaches_immovable_box() {
    let o = process_node(r#"{"collider":"Cuboid","rigid_body":"Static","cube_size":{"x":2,"y":1,"z":2}}"#);
    let d = expect_attach(o);
    assert_eq!(d.body, BodyMode::Immovable);
    match d.shape {
        ColliderShape::Cuboid(c) => {
            assert_eq!(c.x, chars("2"));
            assert_eq!(c.y, chars("1"));
            assert_eq!(c.z, chars("2"));
        }
        ColliderShape::TrimeshFromMesh => panic!("expected a cuboid shape"),
    }
}

#[test]
fn dynamic_trimesh_example_attaches_simulated_body() {
    let o = process_node(r#"{"collider":"TrimeshFromMesh","rigid_body":"Dynamic"}"#);
    let d = expect_attach(o);
    assert_eq!(d.body, BodyMode::Simulated);
    assert!(matches!(d.shape, ColliderShape::TrimeshFromMesh));
}

#[test]
fn malformed_metadata_skips_the_node() {
    let o = process_node("it's not even json");
    assert!(matches!(o, NodeOutcome::Skip(_)));
}

#[test]
fn cuboid_without_size_payload_is_fatal_for_the_node() {
    let o = process_node(r#"{"collider":"Cuboid","rigid_body":"Static"}"#);
    assert!(matches!(o, NodeOutcome::Fatal(_)));
}

#[test]
fn malformed_node_leaves_siblings_untouched() {
    let nodes = vec![
        r#"{"collider":"TrimeshFromMesh","rigid_body":"Dynamic"}"#.to_string(),
        "garbled".to_string(),
        r#"{"collider":"Cuboid","rigid_body":"Static","cube_size":{"x":2,"y":1,"z":2}}"#
            .to_string(),
    ];
    let outcomes = process_nodes(&nodes);
    assert_eq!(outcomes.len(), 3);
    assert!(matches!(outcomes[0], NodeOutcome::Attach(_)));
    assert!(matches!(outcomes[1], NodeOutcome::Skip(_)));
    assert!(matches!(outcomes[2], NodeOutcome::Attach(_)));
}

#[test]
fn fatal_node_leaves_siblings_untouched() {
    let nodes = vec![
        r#"{"collider":"Cuboid","rigid_body":"Static"}"#.to_string(),
        r#"{"collider":"TrimeshFromMesh","rigid_body":"Static"}"#.to_string(),
    ];
    let outcomes = process_nodes(&nodes);
    assert_eq!(outcomes.len(), 2);
    assert!(matches!(outcomes[0], NodeOutcome::Fatal(_)));
    assert!(matches!(outcomes[1], NodeOutcome::Attach(_)));
}

#[test]
fn decode_then_resolve_round_trip_matches_process_node() {
    let text = r#"{"collider":"Cuboid","rigid_body":"Dynamic","cube_size":{"x":7,"y":8,"z":9}}"#;
    let e = decode_mesh_extras(text).expect("payload should decode");
    let d = resolve_extras(e).expect("cuboid with size resolves");
    let o = process_node(text);
    let d2 = expect_attach(o);
    assert_eq!(d.body, d2.body);
    match (d.shape, d2.shape) {
        (ColliderShape::Cuboid(a), ColliderShape::Cuboid(b)) => {
            assert_eq!(a.x, b.x);
            assert_eq!(a.y, b.y);
            assert_eq!(a.z, b.z);
        }
        _ => panic!("expected cuboid shapes on both paths"),
    }
}
