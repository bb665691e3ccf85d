use lib_render::geometry::obj3d::{GeoPoint, Mesh, MeshError, Triangle};
use lib_render::geometry::obj_parser::{
    add_triangles, convert_to_u32, extract_indexes, get_face, get_floats, make_tuple, open_obj,
    parse_decimal, parse_line, propagate_option, split_at, split_words, vec_to_tuple3, LineType,
    FileError, ParseError, RawData, RawPoint, RawTriangle,
};
use lib_render::math::{Vector2, Vector3};

fn lines(text: &str) -> Vec<Vec<u8>> {
    text.lines().map(|l| l.as_bytes().to_vec()).collect()
}

#[test]
fn test_obj_parsing_plane() {
    // One unit of the file is a hundred steps of the lattice.
    let a = 855;
    let b = 503;
    let c = 466;
    let d = 1055;
    let e = 266;

    let norm1 = Vector3::new(0, 100, 0);
    let point_a = GeoPoint::new(Vector3::new(a, b, c), norm1, None);
    let point_b = GeoPoint::new(Vector3::new(d, b, c), norm1, None);
    let point_c = GeoPoint::new(Vector3::new(a, b, e), norm1, None);
    let point_d = GeoPoint::new(Vector3::new(d, b, e), norm1, None);

    let t1 = Triangle::new(point_b, point_d, point_c);
    let t2 = Triangle::new(point_a, point_b, point_c);

    let expected_result = Mesh { triangles: vec![t1, t2] };

    let file = "# A plane\n\
                o Plane\n\
                v 8.555269 5.030090 4.669442\n\
                v 10.555269 5.030090 4.669442\n\
                v 8.555269 5.030090 2.669442\n\
                v 10.555269 5.030090 2.669442\n\
                vn 0.000000 1.000000 0.000000\n\
                s off\n\
                f 2//1 4//1 3//1\n\
                f 1//1 2//1 3//1";
    assert_eq!(open_obj(&lines(file), 100), Ok(expected_result));
}

#[test]
fn test_obj_with_texture_coordinates() {
    let file = "v 0 0 0\nv 1 0 0\nv 0 1 0\nvn 0 0 1\nvt 0 0\nvt 1 0\nvt 0 1\nf 1/1/1 2/2/1 3/3/1";
    let mesh = open_obj(&lines(file), 8192).unwrap();
    assert_eq!(mesh.triangles().len(), 1);
    let tri = mesh.triangles()[0];
    assert_eq!(tri.v, GeoPoint::new(Vector3::new(8192, 0, 0), Vector3::new(0, 0, 8192), Some(Vector2::new(8192, 0))));
    assert_eq!(tri.w.tex, Some(Vector2::new(0, 8192)));
    assert!(tri.is_valid());
}

#[test]
fn test_obj_errors() {
    assert_eq!(open_obj(&lines("v 0 0 0\n\nv 1 1 1"), 1), Err(FileError::Line { line: 1, error: ParseError::EmptyLine }));
    assert_eq!(open_obj(&lines("x 0 0 0"), 1), Err(FileError::Line { line: 0, error: ParseError::UnexpectedSymbol }));
    assert_eq!(open_obj(&lines("vx 0 0 0"), 1), Err(FileError::Line { line: 0, error: ParseError::UnexpectedSymbol }));
    assert_eq!(open_obj(&lines("v"), 1), Err(FileError::Line { line: 0, error: ParseError::EmptyLine }));
    assert_eq!(open_obj(&lines("v 0 0"), 1), Err(FileError::Line { line: 0, error: ParseError::WrongNumberOfValues }));
    assert_eq!(open_obj(&lines("vn 0 0 1 2"), 1), Err(FileError::Line { line: 0, error: ParseError::WrongNumberOfValues }));
    assert_eq!(open_obj(&lines("vt 0 0 1"), 1), Err(FileError::Line { line: 0, error: ParseError::WrongNumberOfValues }));
    assert_eq!(open_obj(&lines("f 1//1 2//1 x//1"), 1), Err(FileError::Line { line: 0, error: ParseError::BadIndex }));
    assert_eq!(open_obj(&lines("f 1 2 3"), 1), Err(FileError::Line { line: 0, error: ParseError::WrongNumberOfIndexes }));
    assert_eq!(open_obj(&lines("f 1//1 2//1"), 1), Err(FileError::Line { line: 0, error: ParseError::MissingPoints }));
    let no_vertex = "vn 0 0 1\nf 1//1 2//1 3//1";
    assert_eq!(open_obj(&lines(no_vertex), 1), Err(FileError::Mesh { face: 0, error: MeshError::PositionOutOfRange }));
    let no_normal = "v 0 0 0\nv 1 0 0\nv 0 1 0\nf 1//1 2//1 3//1";
    assert_eq!(open_obj(&lines(no_normal), 1), Err(FileError::Mesh { face: 0, error: MeshError::NormalOutOfRange }));
    let no_tex = "v 0 0 0\nv 1 0 0\nv 0 1 0\nvn 0 0 1\nf 1/1/1 2/1/1 3/1/1";
    assert_eq!(open_obj(&lines(no_tex), 1), Err(FileError::Mesh { face: 0, error: MeshError::UnexpectedTexCoord }));
    let some_tex = "v 0 0 0\nv 1 0 0\nv 0 1 0\nvn 0 0 1\nvt 0 0\nf 1//1 2//1 3//1";
    assert_eq!(open_obj(&lines(some_tex), 1), Err(FileError::Mesh { face: 0, error: MeshError::MissingTexCoord }));
    let far_tex = "v 0 0 0\nv 1 0 0\nv 0 1 0\nvn 0 0 1\nvt 0 0\nf 1/1/1 2/2/1 3/1/1";
    assert_eq!(open_obj(&lines(far_tex), 1), Err(FileError::Mesh { face: 0, error: MeshError::TexCoordOutOfRange }));
    assert_eq!(open_obj(&lines(""), 1), Ok(Mesh::new_empty()));
    assert_eq!(open_obj(&lines("g all\nusemtl wood\nmtllib wood.mtl"), 1), Ok(Mesh::new_empty()));
    // The error names the first face that cannot be built, by its rank
    // among the faces.
    let third = "v 0 0 0\nv 1 0 0\nv 0 1 0\nvn 0 0 1\nf 1//1 2//1 3//1\ng\nf 3//1 2//1 1//1\nf 1//1 2//1 4//1";
    assert_eq!(
        open_obj(&lines(third), 1),
        Err(FileError::Mesh { face: 2, error: MeshError::PositionOutOfRange })
    );
    // The error names the first line that cannot be read, by its rank.
    let late = "v 0 0 0\nv 1 0 0\nv 0 1 0\nvn 0 0 1\nf 1//1 2//1 3//1\nf 1 2 3\nf 1//1 2//1";
    assert_eq!(
        open_obj(&lines(late), 1),
        Err(FileError::Line { line: 5, error: ParseError::WrongNumberOfIndexes })
    );
}

#[test]
fn test_faces() {
    let face = get_face(b" 2//1 4//1 3//1");
    let expected: Vec<Vec<Vec<u8>>> = vec![
        vec![b"2".to_vec(), b"1".to_vec()],
        vec![b"4".to_vec(), b"1".to_vec()],
        vec![b"3".to_vec(), b"1".to_vec()],
    ];
    assert_eq!(face, expected);
    assert_eq!(get_face(b"f 2//1 4//1 3//1"), expected);
    assert_eq!(get_face(b"f  2//1 4//1   3//1 "), expected);
    assert_eq!(
        extract_indexes(b"f 2//1 4//1 3//1"),
        Ok((RawData(2, 4, 3), RawData(1, 1, 1), None))
    );
    assert_eq!(
        extract_indexes(b"f 2/7/1 4/8/5 3/9/6"),
        Ok((RawData(2, 4, 3), RawData(1, 5, 6), Some(RawData(7, 8, 9))))
    );
    // Of more than three points the first three are kept; their texture
    // coordinates are kept only if there are three of them.
    assert_eq!(
        extract_indexes(b"f 2/7/1 4/8/5 3/9/6 5/9/6"),
        Ok((RawData(2, 4, 3), RawData(1, 5, 6), None))
    );
    assert_eq!(extract_indexes(b"f 2/7/1/3 4/8/5 3/9/6"), Err(ParseError::WrongNumberOfIndexes));
    assert_eq!(extract_indexes(b"f 2/7/1/x 4/8/5 3/9/6"), Err(ParseError::BadIndex));
    assert_eq!(extract_indexes(b"f"), Err(ParseError::MissingPoints));
    assert_eq!(parse_line(b"f 2//1 4//1 3//1", 1), Ok(LineType::Face(RawData(2, 4, 3), RawData(1, 1, 1), None)));
}

#[test]
fn test_numbers_of_a_line() {
    assert_eq!(convert_to_u32(b"0"), Some(0));
    assert_eq!(convert_to_u32(b"0042"), Some(42));
    assert_eq!(convert_to_u32(b"+7"), Some(7));
    assert_eq!(convert_to_u32(b"4294967295"), Some(4294967295));
    assert_eq!(convert_to_u32(b"4294967296"), None);
    assert_eq!(convert_to_u32(b""), None);
    assert_eq!(convert_to_u32(b"+"), None);
    assert_eq!(convert_to_u32(b"-1"), None);
    assert_eq!(convert_to_u32(b"1a"), None);
    assert_eq!(parse_decimal(b"8.555269", 100), Some(855));
    assert_eq!(parse_decimal(b"-8.555269", 100), Some(-855));
    assert_eq!(parse_decimal(b"+2.5", 10), Some(25));
    assert_eq!(parse_decimal(b"12", 3), Some(36));
    assert_eq!(parse_decimal(b".5", 4), Some(2));
    assert_eq!(parse_decimal(b"5.", 4), Some(20));
    assert_eq!(parse_decimal(b"-0.999", 1), Some(0));
    assert_eq!(parse_decimal(b"0.000001", 1000000), Some(1));
    assert_eq!(parse_decimal(b"123456789012345678", 1), Some(123456789012345678));
    assert_eq!(parse_decimal(b"1234567890123456789", 1), None);
    assert_eq!(parse_decimal(b"999999999999999999", 4294967295), None);
    assert_eq!(parse_decimal(b".", 1), None);
    assert_eq!(parse_decimal(b"", 1), None);
    assert_eq!(parse_decimal(b"-", 1), None);
    assert_eq!(parse_decimal(b"1.2.3", 1), None);
    assert_eq!(parse_decimal(b"1e5", 1), None);
    assert_eq!(parse_decimal(b"vn", 1), None);
    assert_eq!(get_floats(b"vn 0.000000 1.000000 -0.25", 100), vec![0, 100, -25]);
    assert_eq!(get_floats(b"  v\t1  x 2.5 \r", 2), vec![2, 5]);
    assert_eq!(get_floats(b"", 2), Vec::<i64>::new());
    assert_eq!(parse_line(b"v 1 2 3", 10), Ok(LineType::Vertex(10, 20, 30)));
    assert_eq!(parse_line(b"vn 1 2 3", 10), Ok(LineType::Normal(10, 20, 30)));
    assert_eq!(parse_line(b"vt 0.5 1", 10), Ok(LineType::TexCoord(5, 10)));
    assert_eq!(parse_line(b"# v 1 2 3", 10), Ok(LineType::Ignore));
}

#[test]
fn test_pieces_of_a_line() {
    let empty: Vec<u8> = Vec::new();
    assert_eq!(split_at(b"a/b//c", b'/'), vec![b"a".to_vec(), b"b".to_vec(), empty.clone(), b"c".to_vec()]);
    assert_eq!(split_at(b"", b'/'), vec![empty.clone()]);
    assert_eq!(split_at(b"/", b'/'), vec![empty.clone(), empty.clone()]);
    assert_eq!(split_words(b" ab  c\td "), vec![b"ab".to_vec(), b"c".to_vec(), b"d".to_vec()]);
    assert_eq!(split_words(b"   "), Vec::<Vec<u8>>::new());
    assert_eq!(make_tuple(&[4, 5, 6, 7]), RawData(4, 5, 6));
    assert_eq!(vec_to_tuple3(&[4, 5, 6]), (4, 5, 6));
    assert_eq!(propagate_option(Some(RawData(1, 2, 3))), (Some(1), Some(2), Some(3)));
    assert_eq!(propagate_option(None), (None, None, None));
}

#[test]
fn test_triangles_are_looked_up() {
    let pos = vec![Vector3::new(0, 0, 0), Vector3::new(1, 0, 0), Vector3::new(0, 1, 0)];
    let norm = vec![Vector3::new(0, 0, 1)];
    let none: Option<Vec<Vector2<i64>>> = None;
    let good = RawTriangle(RawPoint(1, 1, None), RawPoint(2, 1, None), RawPoint(3, 1, None));
    let bad = RawTriangle(RawPoint(1, 1, None), RawPoint(4, 1, None), RawPoint(3, 1, None));
    let mut mesh = Mesh::new_empty();
    assert_eq!(add_triangles(&mut mesh, &[good, good], &pos, &norm, &none), Ok(()));
    assert_eq!(mesh.triangles().len(), 2);
    assert_eq!(mesh.triangles()[1].v_pos(), Vector3::new(1, 0, 0));
    assert_eq!(add_triangles(&mut mesh, &[good, bad, good], &pos, &norm, &none), Err(MeshError::PositionOutOfRange));
    // The triangles before the first that cannot be built are in the mesh.
    assert_eq!(mesh.triangles().len(), 3);
}
