use raster::math::fixed::Fixed;
use raster::renderer::obj::add_line;
use raster::renderer::obj::face_from_corners;
use raster::renderer::obj::face_ind_from;
use raster::renderer::obj::fields_of;
use raster::renderer::obj::get_face;
use raster::renderer::obj::get_line;
use raster::renderer::obj::get_param_vertex;
use raster::renderer::obj::get_texture_coordinate;
use raster::renderer::obj::get_vertex;
use raster::renderer::obj::get_vertex_normal;
use raster::renderer::obj::line_from_indices;
use raster::renderer::obj::parse_index;
use raster::renderer::obj::read;
use raster::renderer::obj::strip_comment;
use raster::renderer::obj::Face;
use raster::renderer::obj::FaceInd;
use raster::renderer::obj::Line;
use raster::renderer::obj::ObjData;
use raster::renderer::obj::ObjParseError;
use raster::renderer::obj::Token;

/// A field as a caller hands it over: with the number it spells, taken to
/// fixed point.
fn token(text: &str) -> Token {
    let number = text.parse::<f64>().ok().map(|v| Fixed((v * 65536.0).round() as i32));
    Token { text: text.to_string(), number }
}

fn tokens(line: &str) -> Vec<Token> {
    fields_of(line).iter().map(|f| token(f)).collect()
}

fn after_head(line: &str) -> Vec<Token> {
    tokens(line).split_off(1)
}

fn ind(v: u32, vt: Option<u32>, vn: Option<u32>) -> FaceInd {
    FaceInd { v, vt, vn }
}

#[test]
fn comment_is_stripped() {
    assert_eq!(strip_comment("v 1 2 3 # a corner"), "v 1 2 3 ");
    assert_eq!(strip_comment("# only"), "");
    assert_eq!(strip_comment("none"), "none");
    assert_eq!(strip_comment("a#b#c"), "a");
    assert_eq!(strip_comment(""), "");
    assert_eq!(strip_comment("é 1 # ü"), "é 1 ");
}

#[test]
fn fields_are_split_at_white_space() {
    assert_eq!(fields_of("  v  1.5\t-2  3 # x y z"), vec!["v", "1.5", "-2", "3"]);
    assert_eq!(fields_of(""), Vec::<String>::new());
    assert_eq!(fields_of("   # nothing"), Vec::<String>::new());
    assert_eq!(fields_of("f 1/2/3 4//5"), vec!["f", "1/2/3", "4//5"]);
}

#[test]
fn face_of_three_corners_is_a_triangle() {
    let f = get_face(&after_head("f 1 2 3")).unwrap();
    assert_eq!(f, Face::Tri([ind(1, None, None), ind(2, None, None), ind(3, None, None)]));
}

#[test]
fn face_with_texture_and_normal_indices() {
    let f = get_face(&after_head("f 1/4/7 2/5/8 3/6/9")).unwrap();
    assert_eq!(
        f,
        Face::Tri([ind(1, Some(4), Some(7)), ind(2, Some(5), Some(8)), ind(3, Some(6), Some(9))])
    );
    let g = get_face(&after_head("f 1/4 2/5 3/6")).unwrap();
    assert_eq!(g, Face::Tri([ind(1, Some(4), None), ind(2, Some(5), None), ind(3, Some(6), None)]));
}

#[test]
fn face_of_another_number_of_corners_is_a_polygon() {
    let f = get_face(&after_head("f 1 2 3 4")).unwrap();
    assert_eq!(
        f,
        Face::Poly(vec![ind(1, None, None), ind(2, None, None), ind(3, None, None), ind(4, None, None)])
    );
    assert_eq!(get_face(&after_head("f 1 2")).unwrap(), Face::Poly(vec![ind(1, None, None), ind(2, None, None)]));
    assert_eq!(get_face(&after_head("f")).unwrap(), Face::Poly(vec![]));
}

#[test]
fn face_with_a_bad_index() {
    for line in ["f 1 x 3", "f 1 2 -3", "f 1/a 2 3", "f 1/2/z 2 3", "f 1//3 2 3", "f 1/ 2 3", "f /1 2 3", "f 1 2 4294967296"] {
        assert!(matches!(get_face(&after_head(line)), Err(ObjParseError::BadIndex)), "{line}");
    }
    assert!(get_face(&after_head("f 1 2 4294967295")).is_ok());
    assert!(get_face(&after_head("f +1 2 3")).is_ok());
}

#[test]
fn fields_after_the_third_slash_are_not_read() {
    let f = get_face(&after_head("f 1/2/3/x 4 5")).unwrap();
    assert_eq!(f, Face::Tri([ind(1, Some(2), Some(3)), ind(4, None, None), ind(5, None, None)]));
}

#[test]
fn line_of_two_vertices_is_a_segment() {
    assert_eq!(get_line(&after_head("l 4 9")).unwrap(), Line::Seg { start: 4, end: 9 });
    assert_eq!(get_line(&after_head("l 4 9 2")).unwrap(), Line::Multi(vec![4, 9, 2]));
    assert_eq!(get_line(&after_head("l 4")).unwrap(), Line::Multi(vec![4]));
    assert_eq!(get_line(&after_head("l")).unwrap(), Line::Multi(vec![]));
    assert!(matches!(get_line(&after_head("l 4 x")), Err(ObjParseError::BadIndex)));
    assert!(matches!(get_line(&after_head("l 4/1 2")), Err(ObjParseError::BadIndex)));
}

#[test]
fn vertex_has_w_of_one_unless_given() {
    let v = get_vertex(&after_head("v 0.5 -1 2")).unwrap();
    assert_eq!(v.0, [Fixed(32768), Fixed::from_int(-1), Fixed::from_int(2), Fixed::one()]);
    let w = get_vertex(&after_head("v 0.5 -1 2 4")).unwrap();
    assert_eq!(w.0[3], Fixed::from_int(4));
    let more = get_vertex(&after_head("v 1 2 3 4 nonsense")).unwrap();
    assert_eq!(more.0[3], Fixed::from_int(4));
}

#[test]
fn vertex_with_too_few_components() {
    assert!(matches!(
        get_vertex(&after_head("v 1 2")),
        Err(ObjParseError::BadVertexComponentCount(2, 3))
    ));
    assert!(matches!(get_vertex(&after_head("v")), Err(ObjParseError::BadVertexComponentCount(0, 3))));
}

#[test]
fn vertex_with_a_bad_number() {
    assert!(matches!(get_vertex(&after_head("v 1 x 3")), Err(ObjParseError::BadFloat)));
    assert!(matches!(get_vertex(&after_head("v 1 x")), Err(ObjParseError::BadFloat)));
    assert!(matches!(get_vertex(&after_head("v 1 2 3 x")), Err(ObjParseError::BadFloat)));
}

#[test]
fn texture_coordinate_needs_one_component() {
    let t = get_texture_coordinate(&after_head("vt 0.25")).unwrap();
    assert_eq!(t.0, [Fixed(16384), Fixed::zero(), Fixed::zero()]);
    let u = get_texture_coordinate(&after_head("vt 0.25 0.5 1 9")).unwrap();
    assert_eq!(u.0, [Fixed(16384), Fixed(32768), Fixed::one()]);
    assert!(matches!(
        get_texture_coordinate(&after_head("vt")),
        Err(ObjParseError::BadVertexComponentCount(0, 1))
    ));
    assert!(matches!(get_texture_coordinate(&after_head("vt a")), Err(ObjParseError::BadFloat)));
    assert_eq!(get_param_vertex(&after_head("vp 0.25")).unwrap().0, t.0);
    assert!(matches!(
        get_param_vertex(&after_head("vp")),
        Err(ObjParseError::BadVertexComponentCount(0, 1))
    ));
}

#[test]
fn normal_needs_three_components() {
    let n = get_vertex_normal(&after_head("vn 0 0 -1")).unwrap();
    assert_eq!(n.0, [Fixed::zero(), Fixed::zero(), Fixed::from_int(-1)]);
    assert!(matches!(
        get_vertex_normal(&after_head("vn 0 1")),
        Err(ObjParseError::BadVertexComponentCount(2, 3))
    ));
    assert!(matches!(get_vertex_normal(&after_head("vn 0 1 z")), Err(ObjParseError::BadFloat)));
    assert!(get_vertex_normal(&after_head("vn 0 1 2 z")).is_ok());
}

#[test]
fn reads_a_mesh() {
    let text = "# a triangle and a square\n\
                v -0.5 -0.5 0\n\
                v 0.5 -0.5 0 # second\n\
                v 0 0.5 0\n\
                v 1 1 1 2\n\
                \n\
                vt 0 1\n\
                vn 0 0 -1\n\
                vp 0.5\n\
                g group\n\
                s off\n\
                usemtl skin\n\
                f 1/1/1 2/1/1 3/1/1\n\
                f 1 2 3 4\n\
                l 1 2\n\
                l 1 2 3\n";
    let lines: Vec<_> = text.lines().map(tokens).collect();
    let d = read(&lines).unwrap();
    assert_eq!(d.vertices.len(), 4);
    assert_eq!(d.vertices[3].0, [Fixed::one(), Fixed::one(), Fixed::one(), Fixed::from_int(2)]);
    assert_eq!(d.texture_coordinates.len(), 1);
    assert_eq!(d.vertex_normals.len(), 1);
    assert_eq!(d.param_vertices.len(), 1);
    assert_eq!(d.faces.len(), 2);
    assert_eq!(
        d.faces[0],
        Face::Tri([ind(1, Some(1), Some(1)), ind(2, Some(1), Some(1)), ind(3, Some(1), Some(1))])
    );
    assert!(matches!(d.faces[1], Face::Poly(_)));
    assert_eq!(d.lines, vec![Line::Seg { start: 1, end: 2 }, Line::Multi(vec![1, 2, 3])]);
}

#[test]
fn reading_stops_at_the_first_bad_line() {
    let lines: Vec<_> = ["v 1 2 3", "f 1 2 x", "v 1"].into_iter().map(tokens).collect();
    assert!(matches!(read(&lines), Err(ObjParseError::BadIndex)));
    let lines: Vec<_> = ["v 1 2 3", "v 1", "f 1 2 x"].into_iter().map(tokens).collect();
    assert!(matches!(read(&lines), Err(ObjParseError::BadVertexComponentCount(1, 3))));
    let lines: Vec<_> = ["vn 1 2 q"].into_iter().map(tokens).collect();
    assert!(matches!(read(&lines), Err(ObjParseError::BadFloat)));
}

#[test]
fn a_bad_line_leaves_the_mesh_as_it_was() {
    let mut d = ObjData::new();
    add_line(&mut d, &tokens("v 1 2 3")).unwrap();
    assert!(add_line(&mut d, &tokens("f 1 2 x")).is_err());
    add_line(&mut d, &tokens("vx 1 2 3")).unwrap();
    add_line(&mut d, &tokens("")).unwrap();
    assert_eq!(d.vertices.len(), 1);
    assert_eq!(d.faces.len(), 0);
}

#[test]
fn corner_from_parsed_indices() {
    assert_eq!(face_ind_from(Some(4), None, None), Some(ind(4, None, None)));
    assert_eq!(face_ind_from(Some(4), Some(Some(5)), None), Some(ind(4, Some(5), None)));
    assert_eq!(face_ind_from(Some(4), Some(Some(5)), Some(Some(6))), Some(ind(4, Some(5), Some(6))));
    assert_eq!(face_ind_from(None, None, None), None);
    assert_eq!(face_ind_from(None, Some(Some(5)), Some(Some(6))), None);
    assert_eq!(face_ind_from(Some(4), Some(None), Some(Some(6))), None);
    assert_eq!(face_ind_from(Some(4), Some(Some(5)), Some(None)), None);
}

#[test]
fn face_shape_goes_by_the_number_of_corners() {
    let c = |v| ind(v, None, None);
    assert_eq!(face_from_corners(vec![c(1), c(2), c(3)]), Face::Tri([c(1), c(2), c(3)]));
    assert_eq!(face_from_corners(vec![c(1), c(2)]), Face::Poly(vec![c(1), c(2)]));
    assert_eq!(face_from_corners(vec![]), Face::Poly(vec![]));
    assert_eq!(
        face_from_corners(vec![c(1), c(2), c(3), c(4)]),
        Face::Poly(vec![c(1), c(2), c(3), c(4)])
    );
}

#[test]
fn line_shape_goes_by_the_number_of_vertices() {
    assert_eq!(line_from_indices(vec![7, 9]), Line::Seg { start: 7, end: 9 });
    assert_eq!(line_from_indices(vec![7]), Line::Multi(vec![7]));
    assert_eq!(line_from_indices(vec![]), Line::Multi(vec![]));
    assert_eq!(line_from_indices(vec![7, 9, 8]), Line::Multi(vec![7, 9, 8]));
}

#[test]
fn reads_a_triangle_among_comments_and_unknown_lines() {
    let text = ["v 1 2 3 # c", "# whole line", "vt 0.5", "f 1 1 1", "x 9"];
    let lines: Vec<_> = text.into_iter().map(tokens).collect();
    let d = read(&lines).unwrap();
    assert_eq!(d.vertices.len(), 1);
    assert_eq!(
        d.vertices[0].0,
        [Fixed::from_int(1), Fixed::from_int(2), Fixed::from_int(3), Fixed::one()]
    );
    assert_eq!(d.texture_coordinates.len(), 1);
    assert_eq!(d.texture_coordinates[0].0, [Fixed(32768), Fixed::zero(), Fixed::zero()]);
    assert_eq!(d.faces, vec![Face::Tri([ind(1, None, None); 3])]);
    assert!(d.vertex_normals.is_empty());
    assert!(d.param_vertices.is_empty());
    assert!(d.lines.is_empty());
}

#[test]
fn index_is_decimal_digits_after_a_plus_or_none() {
    assert_eq!(parse_index("0"), Some(0));
    assert_eq!(parse_index("7"), Some(7));
    assert_eq!(parse_index("+7"), Some(7));
    assert_eq!(parse_index("0007"), Some(7));
    assert_eq!(parse_index("+000"), Some(0));
    assert_eq!(parse_index("4294967295"), Some(u32::MAX));
    assert_eq!(parse_index("0000000000000000000004294967295"), Some(u32::MAX));
    assert_eq!(parse_index("4294967296"), None);
    assert_eq!(parse_index("99999999999999999999999999"), None);
    assert_eq!(parse_index(""), None);
    assert_eq!(parse_index("+"), None);
    assert_eq!(parse_index("-"), None);
    assert_eq!(parse_index("-0"), None);
    assert_eq!(parse_index("-1"), None);
    assert_eq!(parse_index("++1"), None);
    assert_eq!(parse_index("1+"), None);
    assert_eq!(parse_index(" 1"), None);
    assert_eq!(parse_index("1 "), None);
    assert_eq!(parse_index("1.0"), None);
    assert_eq!(parse_index("1e3"), None);
    assert_eq!(parse_index("0x1f"), None);
    assert_eq!(parse_index("1_000"), None);
    assert_eq!(parse_index("\u{ff11}"), None);
    assert_eq!(parse_index("\u{0661}"), None);
}

#[test]
fn index_is_what_the_standard_library_reads() {
    let mut texts: Vec<String> = vec![];
    let pieces = ["", "+", "-", "0", "1", "9", "42", "4294967295", "4294967296", "a", " ", "/"];
    for a in pieces {
        for b in pieces {
            texts.push(format!("{a}{b}"));
        }
    }
    for n in [0u64, 1, 10, 99, 4294967294, 4294967295, 4294967296, 42949672950, u64::MAX] {
        texts.push(n.to_string());
        texts.push(format!("+{n}"));
        texts.push(format!("00{n}"));
    }
    for t in texts {
        assert_eq!(parse_index(&t), t.parse::<u32>().ok(), "{t:?}");
    }
}
