use rasterizer::obj::{
    face_fan, mtl_step, parse_face_vertex, parse_index, parse_obj_line, split_segments,
    split_words, CoordKind, FaceVertex, MtlError, ObjError, ObjLine,
};

fn words(line: &[u8]) -> Vec<Vec<u8>> {
    split_words(line)
}

#[test]
fn split_words_drops_all_whitespace() {
    let ws = words(b"  v  1.0\t2.0   3.0 ");
    assert_eq!(
        ws,
        vec![b"v".to_vec(), b"1.0".to_vec(), b"2.0".to_vec(), b"3.0".to_vec()]
    );
    assert_eq!(words(b""), Vec::<Vec<u8>>::new());
    assert_eq!(words(b"   \t  "), Vec::<Vec<u8>>::new());
}

#[test]
fn split_segments_drops_empty_segments() {
    assert_eq!(split_segments(b"7/2/3"), vec![b"7".to_vec(), b"2".to_vec(), b"3".to_vec()]);
    // A missing texture index leaves two segments: splitting at `/`
    // keeps no empty segments.
    assert_eq!(split_segments(b"7//3"), vec![b"7".to_vec(), b"3".to_vec()]);
    assert_eq!(split_segments(b"//"), Vec::<Vec<u8>>::new());
}

#[test]
fn parse_index_reads_decimal_literals() {
    assert_eq!(parse_index(b"0"), Some(0));
    assert_eq!(parse_index(b"123"), Some(123));
    assert_eq!(parse_index(b"007"), Some(7));
    assert_eq!(parse_index(b""), None);
    assert_eq!(parse_index(b"12a"), None);
    assert_eq!(parse_index(b"-3"), None);
    // Twenty-five digits cannot fit in a machine word.
    assert_eq!(parse_index(b"1844674407370955161684444"), None);
}

#[test]
fn mtl_lines_drive_the_material_state_machine() {
    // newmtl remembers the name, map_Kd consumes it.
    let u = mtl_step(None, b"newmtl stone").unwrap();
    assert_eq!(u.current, Some(b"stone".to_vec()));
    assert_eq!(u.emit, None);

    let u = mtl_step(u.current, b"map_Kd stone.png").unwrap();
    assert_eq!(u.current, None);
    assert_eq!(u.emit, Some((b"stone".to_vec(), b"stone.png".to_vec())));
}

#[test]
fn mtl_comments_and_unknown_commands_change_nothing() {
    let u = mtl_step(Some(b"stone".to_vec()), b"# map_Kd other.png").unwrap();
    assert_eq!(u.current, Some(b"stone".to_vec()));
    assert_eq!(u.emit, None);

    let u = mtl_step(Some(b"stone".to_vec()), b"Ns 96.0").unwrap();
    assert_eq!(u.current, Some(b"stone".to_vec()));
    assert_eq!(u.emit, None);

    let u = mtl_step(None, b"").unwrap();
    assert_eq!(u.current, None);
    assert_eq!(u.emit, None);
}

#[test]
fn mtl_errors_match_their_causes() {
    assert_eq!(mtl_step(None, b"newmtl"), Err(MtlError::MissingName));
    assert_eq!(mtl_step(None, b"map_Kd stone.png"), Err(MtlError::MissingMaterial));
    assert_eq!(
        mtl_step(Some(b"stone".to_vec()), b"map_Kd"),
        Err(MtlError::MissingPath)
    );
}

#[test]
fn obj_comment_and_unknown_lines_are_blank() {
    assert_eq!(parse_obj_line(b"# anything at all"), ObjLine::Blank);
    assert_eq!(parse_obj_line(b""), ObjLine::Blank);
    assert_eq!(parse_obj_line(b"o cube"), ObjLine::Blank);
    assert_eq!(parse_obj_line(b"s off"), ObjLine::Blank);
}

#[test]
fn obj_library_and_material_lines() {
    assert_eq!(
        parse_obj_line(b"mtllib cube.mtl"),
        ObjLine::MtlLib(b"cube.mtl".to_vec())
    );
    assert_eq!(
        parse_obj_line(b"usemtl stone"),
        ObjLine::UseMtl(b"stone".to_vec())
    );
    assert_eq!(parse_obj_line(b"mtllib"), ObjLine::Bad(ObjError::MissingArgument));
    assert_eq!(parse_obj_line(b"usemtl"), ObjLine::Bad(ObjError::MissingArgument));
}

#[test]
fn obj_coordinate_lines_keep_their_numeric_words() {
    assert_eq!(
        parse_obj_line(b"v 1.0 -2.5 0.0"),
        ObjLine::Coord {
            kind: CoordKind::Position,
            words: vec![b"1.0".to_vec(), b"-2.5".to_vec(), b"0.0".to_vec()],
        }
    );
    assert_eq!(
        parse_obj_line(b"vn 0 1 0"),
        ObjLine::Coord {
            kind: CoordKind::Normal,
            words: vec![b"0".to_vec(), b"1".to_vec(), b"0".to_vec()],
        }
    );
    // Texture coordinates keep only u and v; the third channel is
    // always rewritten to 1 downstream.
    assert_eq!(
        parse_obj_line(b"vt 0.25 0.75 0.5"),
        ObjLine::Coord {
            kind: CoordKind::TexCoord,
            words: vec![b"0.25".to_vec(), b"0.75".to_vec()],
        }
    );
    assert_eq!(
        parse_obj_line(b"vt 0.25 0.75"),
        ObjLine::Coord {
            kind: CoordKind::TexCoord,
            words: vec![b"0.25".to_vec(), b"0.75".to_vec()],
        }
    );
}

#[test]
fn obj_coordinate_lines_with_too_few_numbers_fail() {
    assert_eq!(parse_obj_line(b"v 1.0 2.0"), ObjLine::Bad(ObjError::CoordCount));
    assert_eq!(parse_obj_line(b"vn 1.0"), ObjLine::Bad(ObjError::CoordCount));
    assert_eq!(parse_obj_line(b"vt 0.5"), ObjLine::Bad(ObjError::CoordCount));
    assert_eq!(parse_obj_line(b"vt"), ObjLine::Bad(ObjError::CoordCount));
}

#[test]
fn obj_face_lines_decode_their_index_tuples() {
    assert_eq!(
        parse_obj_line(b"f 1/2/3 4/5/6 7/8/9"),
        ObjLine::Face(vec![
            FaceVertex { v: 1, vt: Some(2), vn: Some(3) },
            FaceVertex { v: 4, vt: Some(5), vn: Some(6) },
            FaceVertex { v: 7, vt: Some(8), vn: Some(9) },
        ])
    );
    assert_eq!(
        parse_obj_line(b"f 1/2 3/4 5/6"),
        ObjLine::Face(vec![
            FaceVertex { v: 1, vt: Some(2), vn: None },
            FaceVertex { v: 3, vt: Some(4), vn: None },
            FaceVertex { v: 5, vt: Some(6), vn: None },
        ])
    );
    assert_eq!(
        parse_obj_line(b"f 1 2 3 4"),
        ObjLine::Face(vec![
            FaceVertex { v: 1, vt: None, vn: None },
            FaceVertex { v: 2, vt: None, vn: None },
            FaceVertex { v: 3, vt: None, vn: None },
            FaceVertex { v: 4, vt: None, vn: None },
        ])
    );
}

#[test]
fn obj_face_errors_match_their_causes() {
    assert_eq!(parse_obj_line(b"f 1/x/3 4/5/6 7/8/9"), ObjLine::Bad(ObjError::BadIndex));
    assert_eq!(parse_obj_line(b"f 1/2/3/4 5 6"), ObjLine::Bad(ObjError::FaceArity));
    assert_eq!(parse_obj_line(b"f 1 // 3"), ObjLine::Bad(ObjError::FaceArity));
}

#[test]
fn face_vertices_parse_standalone() {
    assert_eq!(
        parse_face_vertex(b"7"),
        Ok(FaceVertex { v: 7, vt: None, vn: None })
    );
    assert_eq!(
        parse_face_vertex(b"7//3"),
        Ok(FaceVertex { v: 7, vt: Some(3), vn: None })
    );
    assert_eq!(parse_face_vertex(b"a/b"), Err(ObjError::BadIndex));
    assert_eq!(parse_face_vertex(b""), Err(ObjError::FaceArity));
}

#[test]
fn faces_triangulate_as_a_fan() {
    assert_eq!(face_fan(3), Ok(vec![(0, 1, 2)]));
    assert_eq!(face_fan(4), Ok(vec![(0, 1, 3), (1, 2, 3)]));
    assert_eq!(face_fan(2), Err(ObjError::FaceShape));
    assert_eq!(face_fan(5), Err(ObjError::FaceShape));
}
