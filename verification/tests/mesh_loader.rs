use meshproj::fixed::SCALE;
use meshproj::geometry::{Triangle, Vector3};
use meshproj::mesh::{parse_mesh, parse_model, ParseError};

fn v3(x: i64, y: i64, z: i64) -> Vector3 {
    Vector3::from_units(x, y, z)
}

#[test]
fn one_vertex_no_faces() {
    let m = parse_model(b"v 1.5 2 3\n").unwrap();
    assert_eq!(m.vertices.len(), 1);
    assert_eq!(m.normals.len(), 0);
    assert_eq!(m.triangles.len(), 0);
    assert_eq!(m.vertices[0], v3(1_500_000, 2 * SCALE, 3 * SCALE));
}

#[test]
fn single_triangle_face() {
    let m = parse_model(b"v 0 0 0\nv 1 0 0\nv 0 1 0\nvn 0 0 1\nf 1 2 3\n").unwrap();
    assert_eq!(m.triangles.len(), 1);
    let t = m.triangles[0];
    assert_eq!(t.a, v3(0, 0, 0));
    assert_eq!(t.b, v3(SCALE, 0, 0));
    assert_eq!(t.c, v3(0, SCALE, 0));
    assert_eq!(t.n, v3(0, 0, SCALE));
}

#[test]
fn quad_becomes_two_triangles_and_cursor_advances_once() {
    // Four vertices, two normals, one quad face, then one triangle face.
    // The quad face must emit (v0, v1, v3) and (v1, v2, v3), both carrying
    // the first normal; the following face must take the second normal.
    let text = b"v 0 0 0\nv 1 0 0\nv 1 1 0\nv 0 1 0\nvn 0 0 1\nvn 0 1 0\nf 1 2 3 4\nf 1 2 3\n";
    let m = parse_model(text).unwrap();
    assert_eq!(m.triangles.len(), 3);
    let v0 = v3(0, 0, 0);
    let v1 = v3(SCALE, 0, 0);
    let v2 = v3(SCALE, SCALE, 0);
    let v3_ = v3(0, SCALE, 0);
    let n0 = v3(0, 0, SCALE);
    let n1 = v3(0, SCALE, 0);
    assert_eq!(m.triangles[0], Triangle { a: v0, b: v1, c: v3_, n: n0 });
    assert_eq!(m.triangles[1], Triangle { a: v1, b: v2, c: v3_, n: n0 });
    assert_eq!(m.triangles[2], Triangle { a: v0, b: v1, c: v2, n: n1 });
}

#[test]
fn five_sided_face_aborts() {
    let text = b"v 0 0 0\nv 1 0 0\nv 0 1 0\nvn 0 0 1\nvn 0 0 1\nf 1 2 3\nf 1 2 3 1 2\n";
    let r = parse_mesh(text);
    assert_eq!(r, Err(ParseError::UnsupportedPolygon { sides: 5 }));
}

#[test]
fn two_sided_face_aborts() {
    let r = parse_mesh(b"v 0 0 0\nv 1 0 0\nf 1 2\n");
    assert_eq!(r, Err(ParseError::UnsupportedPolygon { sides: 2 }));
}

#[test]
fn malformed_vertex_field_reads_as_zero() {
    let m = parse_model(b"v abc 1.0 2.0\nv 1 1 1\n").unwrap();
    assert_eq!(m.vertices.len(), 2);
    assert_eq!(m.vertices[0], v3(0, SCALE, 2 * SCALE));
    assert_eq!(m.vertices[1], v3(SCALE, SCALE, SCALE));
}

#[test]
fn missing_vertex_fields_read_as_zero() {
    let m = parse_model(b"v 4\n").unwrap();
    assert_eq!(m.vertices[0], v3(4 * SCALE, 0, 0));
}

#[test]
fn face_with_no_declared_normal_is_out_of_range() {
    let r = parse_mesh(b"v 0 0 0\nv 1 0 0\nv 0 1 0\nf 1 2 3\n");
    assert_eq!(r, Err(ParseError::IndexOutOfRange));
}

#[test]
fn face_index_zero_is_out_of_range() {
    let r = parse_mesh(b"v 0 0 0\nvn 0 0 1\nf 0 1 1\n");
    assert_eq!(r, Err(ParseError::IndexOutOfRange));
}

#[test]
fn face_index_past_declarations_is_out_of_range() {
    let r = parse_mesh(b"v 0 0 0\nv 1 0 0\nv 0 1 0\nvn 0 0 1\nf 1 2 4\n");
    assert_eq!(r, Err(ParseError::IndexOutOfRange));
}

#[test]
fn face_index_reads_first_character_only() {
    // "10" names vertex 1: only the first character of an index counts.
    let text = b"v 5 0 0\nv 0 5 0\nv 0 0 5\nvn 0 1 0\nf 10 2 3\n";
    let m = parse_model(text).unwrap();
    assert_eq!(m.triangles[0].a, v3(5 * SCALE, 0, 0));
}

#[test]
fn unknown_prefixes_are_ignored() {
    let text = b"# comment\no cube\nvt 0 0\ns off\n\nv 1 2 3\n";
    let m = parse_model(text).unwrap();
    assert_eq!(m.vertices.len(), 1);
    assert_eq!(m.normals.len(), 0);
    assert_eq!(m.triangles.len(), 0);
}

#[test]
fn text_without_trailing_newline_parses() {
    let m = parse_model(b"v 1 2 3").unwrap();
    assert_eq!(m.vertices, vec![v3(SCALE, 2 * SCALE, 3 * SCALE)]);
}

#[test]
fn carriage_returns_are_separators() {
    let m = parse_model(b"v 1 2 3\r\nvn 0 1 0\r\n").unwrap();
    assert_eq!(m.vertices[0], v3(SCALE, 2 * SCALE, 3 * SCALE));
    assert_eq!(m.normals[0], v3(0, SCALE, 0));
}

#[test]
fn empty_text_is_an_empty_model() {
    let m = parse_model(b"").unwrap();
    assert_eq!(m.vertices.len(), 0);
    assert_eq!(m.normals.len(), 0);
    assert_eq!(m.triangles.len(), 0);
}

#[test]
fn triangles_come_in_face_order() {
    let text = b"v 1 0 0\nv 2 0 0\nv 3 0 0\nvn 1 0 0\nvn 2 0 0\nf 1 2 3\nf 3 2 1\n";
    let m = parse_model(text).unwrap();
    assert_eq!(m.triangles.len(), 2);
    assert_eq!(m.triangles[0].a, v3(SCALE, 0, 0));
    assert_eq!(m.triangles[0].n, v3(SCALE, 0, 0));
    assert_eq!(m.triangles[1].a, v3(3 * SCALE, 0, 0));
    assert_eq!(m.triangles[1].n, v3(2 * SCALE, 0, 0));
}

#[test]
fn interleaved_triangle_and_quad_keep_normals_aligned() {
    let text =
        b"v 0 0 0\nv 1 0 0\nv 1 1 0\nv 0 1 0\nvn 1 0 0\nvn 0 2 0\nvn 0 0 3\nf 1 2 3\nf 1 2 3 4\nf 4 3 2\n";
    let m = parse_model(text).unwrap();
    assert_eq!(m.triangles.len(), 4);
    assert_eq!(m.triangles[0].n, v3(SCALE, 0, 0));
    assert_eq!(m.triangles[1].n, v3(0, 2 * SCALE, 0));
    assert_eq!(m.triangles[2].n, v3(0, 2 * SCALE, 0));
    assert_eq!(m.triangles[3].n, v3(0, 0, 3 * SCALE));
}

#[test]
fn short_lines_are_ignored() {
    let m = parse_model(b"v\nf\nx\n\nv 2 2 2\n").unwrap();
    assert_eq!(m.vertices.len(), 1);
    assert_eq!(m.vertices[0], v3(2 * SCALE, 2 * SCALE, 2 * SCALE));
}
