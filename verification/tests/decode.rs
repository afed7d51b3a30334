use collider_resolver::{decode_mesh_extras, BCollider, BMeshExtras, BRigidBody};

fn chars(s: &str) -> Vec<char> {
    s.chars().collect()
}

fn decode_ok(s: &str) -> BMeshExtras {
    decode_mesh_extras(s).expect("payload should decode")
}

#[test]
fn decodes_cuboid_payload() {
    let e = decode_ok(r#"{"collider":"Cuboid","rigid_body":"Static","cube_size":{"x":2,"y":1,"z":2}}"#);
    assert_eq!(e.collider, BCollider::Cuboid);
    assert_eq!(e.rigid_body, BRigidBody::Static);
    let c = e.cube_size.expect("cube_size should be present");
    assert_eq!(c.x, chars("2"));
    assert_eq!(c.y, chars("1"));
    assert_eq!(c.z, chars("2"));
}

#[test]
fn decodes_trimesh_payload() {
    let e = decode_ok(r#"{"collider":"TrimeshFromMesh","rigid_body":"Dynamic"}"#);
    assert_eq!(e.collider, BCollider::TrimeshFromMesh);
    assert_eq!(e.rigid_body, BRigidBody::Dynamic);
    assert!(e.cube_size.is_none());
}

#[test]
fn decodes_cuboid_without_size() {
    let e = decode_ok(r#"{"collider":"Cuboid","rigid_body":"Dynamic"}"#);
    assert_eq!(e.collider, BCollider::Cuboid);
    assert_eq!(e.rigid_body, BRigidBody::Dynamic);
    assert!(e.cube_size.is_none());
}

#[test]
fn members_come_in_any_order() {
    let e = decode_ok(r#"{"cube_size":{"z":3,"x":1,"y":2},"rigid_body":"Static","collider":"Cuboid"}"#);
    assert_eq!(e.collider, BCollider::Cuboid);
    let c = e.cube_size.expect("cube_size should be present");
    assert_eq!(c.x, chars("1"));
    assert_eq!(c.y, chars("2"));
    assert_eq!(c.z, chars("3"));
}

#[test]
fn whitespace_is_allowed_between_tokens() {
    let e = decode_ok(
        " \t{ \"collider\" : \"TrimeshFromMesh\" ,\n \"rigid_body\" :\r \"Static\" } \n",
    );
    assert_eq!(e.collider, BCollider::TrimeshFromMesh);
    assert_eq!(e.rigid_body, BRigidBody::Static);
}

#[test]
fn number_tokens_keep_sign_fraction_and_exponent() {
    let e = decode_ok(
        r#"{"collider":"Cuboid","rigid_body":"Static","cube_size":{"x":-2.5,"y":0.125,"z":1e-3}}"#,
    );
    let c = e.cube_size.expect("cube_size should be present");
    assert_eq!(c.x, chars("-2.5"));
    assert_eq!(c.y, chars("0.125"));
    assert_eq!(c.z, chars("1e-3"));
}

#[test]
fn number_tokens_parse_as_floats() {
    let e = decode_ok(
        r#"{"collider":"Cuboid","rigid_body":"Static","cube_size":{"x":-2.5,"y":0.125,"z":1e-3}}"#,
    );
    let c = e.cube_size.expect("cube_size should be present");
    let x: f32 = c.x.iter().collect::<String>().parse().expect("x token should parse");
    let y: f32 = c.y.iter().collect::<String>().parse().expect("y token should parse");
    let z: f32 = c.z.iter().collect::<String>().parse().expect("z token should parse");
    assert_eq!(x, -2.5);
    assert_eq!(y, 0.125);
    assert_eq!(z, 0.001);
}

#[test]
fn trimesh_payload_may_still_carry_a_size() {
    let e = decode_ok(
        r#"{"collider":"TrimeshFromMesh","rigid_body":"Static","cube_size":{"x":1,"y":1,"z":1}}"#,
    );
    assert_eq!(e.collider, BCollider::TrimeshFromMesh);
    assert!(e.cube_size.is_some());
}

#[test]
fn rejects_empty_text() {
    assert!(decode_mesh_extras("").is_err());
}

#[test]
fn rejects_empty_object() {
    assert!(decode_mesh_extras("{}").is_err());
}

#[test]
fn rejects_plain_garbage() {
    assert!(decode_mesh_extras("not json at all").is_err());
}

#[test]
fn rejects_missing_collider_member() {
    assert!(decode_mesh_extras(r#"{"rigid_body":"Static"}"#).is_err());
}

#[test]
fn rejects_missing_rigid_body_member() {
    assert!(decode_mesh_extras(r#"{"collider":"Cuboid"}"#).is_err());
}

#[test]
fn rejects_unknown_collider_tag() {
    assert!(decode_mesh_extras(r#"{"collider":"Sphere","rigid_body":"Static"}"#).is_err());
}

#[test]
fn rejects_unknown_member() {
    assert!(
        decode_mesh_extras(r#"{"collider":"Cuboid","rigid_body":"Static","mass":3}"#).is_err()
    );
}

#[test]
fn rejects_repeated_member() {
    assert!(
        decode_mesh_extras(r#"{"collider":"Cuboid","collider":"Cuboid","rigid_body":"Static"}"#)
            .is_err()
    );
}

#[test]
fn rejects_incomplete_cube_size() {
    assert!(
        decode_mesh_extras(r#"{"collider":"Cuboid","rigid_body":"Static","cube_size":{"x":1,"y":2}}"#)
            .is_err()
    );
}

#[test]
fn rejects_repeated_axis() {
    assert!(
        decode_mesh_extras(
            r#"{"collider":"Cuboid","rigid_body":"Static","cube_size":{"x":1,"x":2,"z":3}}"#,
        )
        .is_err()
    );
}

#[test]
fn rejects_trailing_text() {
    assert!(
        decode_mesh_extras(r#"{"collider":"TrimeshFromMesh","rigid_body":"Static"} extra"#)
            .is_err()
    );
}

#[test]
fn rejects_unterminated_object() {
    assert!(decode_mesh_extras(r#"{"collider":"TrimeshFromMesh","rigid_body":"Static""#).is_err());
}

#[test]
fn rejects_malformed_numbers() {
    assert!(
        decode_mesh_extras(r#"{"collider":"Cuboid","rigid_body":"Static","cube_size":{"x":2.,"y":1,"z":2}}"#)
            .is_err()
    );
    assert!(
        decode_mesh_extras(r#"{"collider":"Cuboid","rigid_body":"Static","cube_size":{"x":01,"y":1,"z":2}}"#)
            .is_err()
    );
    assert!(
        decode_mesh_extras(r#"{"collider":"Cuboid","rigid_body":"Static","cube_size":{"x":2e,"y":1,"z":2}}"#)
            .is_err()
    );
}

#[test]
fn rejects_non_ascii_text() {
    assert!(decode_mesh_extras("{\u{00bf}collider\u{00bf}: 3}").is_err());
}
