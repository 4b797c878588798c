use ray_tracer::obj::{build, parse_line, parse_lines, Mesh, Obj, ObjParser, Triangle};

fn vertex(x: f64, y: f64, z: f64) -> Obj {
    Obj::Vertex {
        x: x.to_bits(),
        y: y.to_bits(),
        z: z.to_bits(),
    }
}

fn normal(x: f64, y: f64, z: f64) -> Obj {
    Obj::Normal {
        x: x.to_bits(),
        y: y.to_bits(),
        z: z.to_bits(),
    }
}

fn ignored_line(n: u32, line: &str) -> Obj {
    Obj::Ignored {
        n,
        line: line.as_bytes().to_vec(),
    }
}

fn group(name: &str) -> Obj {
    Obj::Group {
        name: name.as_bytes().to_vec(),
    }
}

fn point(x: f64, y: f64, z: f64) -> (u64, u64, u64) {
    (x.to_bits(), y.to_bits(), z.to_bits())
}

fn objs_of(contents: &[u8]) -> Vec<Obj> {
    parse_lines(contents).unwrap()
}

fn mesh_of(contents: &[u8]) -> Mesh {
    ObjParser::new("mesh.obj").parse_obj(contents).unwrap()
}

#[test]
fn ignored() {
    let contents = b"There was a young lady named Bright\n\
        who traveled much faster than light.\n\
        She set out one day\n\
        in a relative way,\n\
        and came back the previous night.\n";

    let objs = objs_of(contents);

    assert!(
        objs.len() == 5
            && objs[0] == ignored_line(1, "There was a young lady named Bright")
            && objs[1] == ignored_line(2, "who traveled much faster than light.")
            && objs[2] == ignored_line(3, "She set out one day")
            && objs[3] == ignored_line(4, "in a relative way,")
            && objs[4] == ignored_line(5, "and came back the previous night.")
    )
}

#[test]
fn vertex_records() {
    let contents = b"v -1 1 0\n\
      v -1.0000 0.5000 0.0000\n\
      v 1 0 0\n\
      v 1 1 0\n";

    let objs = objs_of(contents);

    assert!(
        objs.len() == 4
            && objs[0] == vertex(-1.0, 1.0, 0.0)
            && objs[1] == vertex(-1.0, 0.5, 0.0)
            && objs[2] == vertex(1.0, 0.0, 0.0)
            && objs[3] == vertex(1.0, 1.0, 0.0)
    )
}

#[test]
fn triangle_faces() {
    let contents = b"v -1 1 0\n\
      v -1 0 0\n\
      v 1 0 0\n\
      v 1 1 0\n\
      \n\
      f 1 2 3\n\
      f 1 3 4\n";

    let objs = objs_of(contents);

    assert!(
        objs.len() == 7
            && objs[0] == vertex(-1.0, 1.0, 0.0)
            && objs[1] == vertex(-1.0, 0.0, 0.0)
            && objs[2] == vertex(1.0, 0.0, 0.0)
            && objs[3] == vertex(1.0, 1.0, 0.0)
            && objs[4] == ignored_line(5, "")
            && objs[5]
                == Obj::Triangles {
                    indices: vec![((1, None), (2, None), (3, None))]
                }
            && objs[6]
                == Obj::Triangles {
                    indices: vec![((1, None), (3, None), (4, None))]
                }
    )
}

#[test]
fn triangle_groups() {
    let contents = b"v -1 1 0\n\
        v -1 0 0\n\
        v 1 0 0\n\
        v 1 1 0\n\
        \n\
        g FirstGroup\n\
        f 1 2 3\n\
        g SecondGroup\n\
        f 1 3 4\n";

    let objs = objs_of(contents);

    assert!(
        objs.len() == 9
            && objs[0] == vertex(-1.0, 1.0, 0.0)
            && objs[1] == vertex(-1.0, 0.0, 0.0)
            && objs[2] == vertex(1.0, 0.0, 0.0)
            && objs[3] == vertex(1.0, 1.0, 0.0)
            && objs[4] == ignored_line(5, "")
            && objs[5] == group("FirstGroup")
            && objs[6]
                == Obj::Triangles {
                    indices: vec![((1, None), (2, None), (3, None))]
                }
            && objs[7] == group("SecondGroup")
            && objs[8]
                == Obj::Triangles {
                    indices: vec![((1, None), (3, None), (4, None))]
                }
    )
}

#[test]
fn vertex_normal_records() {
    let contents = b"vn 0 0 1\n\
        vn 0.707 0 -0.707\n\
        vn 1 2 3\n";

    let objs = objs_of(contents);

    assert!(
        objs.len() == 3
            && objs[0] == normal(0.0, 0.0, 1.0)
            && objs[1] == normal(0.707, 0.0, -0.707)
            && objs[2] == normal(1.0, 2.0, 3.0)
    )
}

#[test]
fn smooth_triangle_faces() {
    let contents = b"v 0 1 0\n\
        v -1 0 0\n\
        v 1 0 0\n\
        \n\
        vn -1 0 0\n\
        vn 1 0 0\n\
        vn 0 1 0\n\
        \n\
        f 1//3 2//1 3//2\n\
        f 1/0/3 2/102/1 3/14/2\n";

    let objs = objs_of(contents);

    assert!(
        objs.len() == 10
            && objs[0] == vertex(0.0, 1.0, 0.0)
            && objs[1] == vertex(-1.0, 0.0, 0.0)
            && objs[2] == vertex(1.0, 0.0, 0.0)
            && objs[3] == ignored_line(4, "")
            && objs[4] == normal(-1.0, 0.0, 0.0)
            && objs[5] == normal(1.0, 0.0, 0.0)
            && objs[6] == normal(0.0, 1.0, 0.0)
            && objs[7] == ignored_line(8, "")
            && objs[8]
                == Obj::Triangles {
                    indices: vec![((1, Some(3)), (2, Some(1)), (3, Some(2)))],
                }
            && objs[9]
                == Obj::Triangles {
                    indices: vec![((1, Some(3)), (2, Some(1)), (3, Some(2)))],
                }
    )
}

#[test]
fn triangulate() {
    let indices = vec![1, 2, 3, 4, 5];
    let triangulation = ray_tracer::obj::triangulate(indices);

    assert!(
        triangulation.len() == 3
            && triangulation[0] == (1, 2, 3)
            && triangulation[1] == (1, 3, 4)
            && triangulation[2] == (1, 4, 5)
    )
}

#[test]
fn triangulate_short_lists() {
    assert!(ray_tracer::obj::triangulate(vec![7]).is_empty());
    assert!(ray_tracer::obj::triangulate(vec![7, 8]).is_empty());
    assert_eq!(ray_tracer::obj::triangulate(vec![7, 8, 9]), vec![(7, 8, 9)]);
}

#[test]
fn obj() {
    let contents = b"v -1 1 0\n\
        v -1 0 0\n\
        v 1 0 0\n\
        v 1 1 0\n\
        \n\
        g FirstGroup\n\
        f 1 2 3\n\
        g SecondGroup\n\
        f 1 3 4\n";

    let mesh = mesh_of(contents);

    let v1 = point(-1.0, 1.0, 0.0);
    let v2 = point(-1.0, 0.0, 0.0);
    let v3 = point(1.0, 0.0, 0.0);
    let v4 = point(1.0, 1.0, 0.0);

    let flat = |p1, p2, p3| Triangle {
        p1,
        p2,
        p3,
        normals: None,
    };

    assert!(mesh.ignored[0] == (5, "".as_bytes().to_vec()));
    assert_eq!(
        mesh.groups,
        vec![
            b"Default".to_vec(),
            b"FirstGroup".to_vec(),
            b"SecondGroup".to_vec()
        ]
    );
    assert!(mesh.triangles_of(0).is_empty());
    assert_eq!(mesh.triangles_of(1), vec![flat(v1, v2, v3)]);
    assert_eq!(mesh.triangles_of(2), vec![flat(v1, v3, v4)]);
}

#[test]
fn smooth_triangles_carry_their_normals() {
    let contents = b"v 0 1 0\nv -1 0 0\nv 1 0 0\nvn -1 0 0\nvn 1 0 0\nvn 0 1 0\nf 1//3 2//1 3//2\nf 1 2//1 3\n";

    let mesh = mesh_of(contents);

    assert_eq!(mesh.faces.len(), 2);
    assert_eq!(mesh.faces[0].group, 0);
    assert_eq!(
        mesh.faces[0].triangle,
        Triangle {
            p1: point(0.0, 1.0, 0.0),
            p2: point(-1.0, 0.0, 0.0),
            p3: point(1.0, 0.0, 0.0),
            normals: Some((
                point(0.0, 1.0, 0.0),
                point(-1.0, 0.0, 0.0),
                point(1.0, 0.0, 0.0)
            )),
        }
    );
    assert_eq!(mesh.faces[1].triangle.normals, None);
}

#[test]
fn a_group_named_again_goes_on() {
    let contents = b"v 0 0 0\nv 1 0 0\nv 0 1 0\nv 1 1 0\ng a\nf 1 2 3\ng b\nf 2 3 4\ng a\nf 1 2 4\n";

    let mesh = mesh_of(contents);

    assert_eq!(mesh.groups, vec![b"Default".to_vec(), b"a".to_vec(), b"b".to_vec()]);
    assert_eq!(mesh.triangles_of(1).len(), 2);
    assert_eq!(mesh.triangles_of(2).len(), 1);
    assert_eq!(mesh.faces[2].group, 1);
}

#[test]
fn a_face_of_many_corners_is_a_fan() {
    let objs = objs_of(b"f 1 2 3 4 5\n");
    assert!(
        objs[0]
            == Obj::Triangles {
                indices: vec![
                    ((1, None), (2, None), (3, None)),
                    ((1, None), (3, None), (4, None)),
                    ((1, None), (4, None), (5, None))
                ]
            }
    );
}

#[test]
fn a_face_without_corners_has_no_record() {
    assert!(parse_line(1, b"f abc").is_none());
    assert!(parse_lines(b"v 1 2 3\nf \n").is_none());
    assert!(parse_line(1, b"fabc") == Some(ignored_line(1, "fabc")));
    assert!(parse_line(1, b"f") == Some(ignored_line(1, "f")));
}

#[test]
fn a_face_that_names_what_is_missing_has_no_mesh() {
    assert!(build(&objs_of(b"v 0 0 0\nv 1 0 0\nf 1 2 3\n")).is_none());
    assert!(build(&objs_of(b"v 0 0 0\nv 1 0 0\nv 0 1 0\nf 0 1 2\n")).is_none());
    assert!(build(&objs_of(b"f 1 2 3\nv 0 0 0\nv 1 0 0\nv 0 1 0\n")).is_none());
    assert!(build(&objs_of(b"v 0 0 0\nv 1 0 0\nv 0 1 0\nf 1//1 2//1 3//1\n")).is_none());
    assert!(build(&objs_of(b"v 0 0 0\nv 1 0 0\nv 0 1 0\nf 1//9 2 3\n")).is_some());
}

#[test]
fn corners_read_as_far_as_they_go() {
    let objs = objs_of(b"f 1/2 3 4 5\nf 1 2 3x 4\nf 1/2 3/4/5 6 7\n");
    assert!(
        objs[0]
            == Obj::Triangles {
                indices: vec![]
            }
    );
    assert!(
        objs[1]
            == Obj::Triangles {
                indices: vec![((1, None), (2, None), (3, None))]
            }
    );
    assert!(
        objs[2]
            == Obj::Triangles {
                indices: vec![]
            }
    );
}

#[test]
fn numbers_too_great_for_an_index_end_the_list() {
    let objs = objs_of(b"f 1 2 3 99999999999999999999999999 5\n");
    assert!(
        objs[0]
            == Obj::Triangles {
                indices: vec![((1, None), (2, None), (3, None))]
            }
    );
}

#[test]
fn lines_end_at_line_feeds() {
    let objs = objs_of(b"g one\r\ng two\rx\n\ng three");
    assert_eq!(objs.len(), 4);
    assert!(objs[0] == group("one"));
    assert!(objs[1] == group("two"));
    assert!(objs[2] == ignored_line(3, ""));
    assert!(objs[3] == group("three"));
    assert!(objs_of(b"").is_empty());
    assert!(objs_of(b"\n") == vec![ignored_line(1, "")]);
}

#[test]
fn lines_that_are_no_text_are_counted_and_passed_over() {
    let objs = objs_of(b"abc\n\xff\xfe\nxyz\n");
    assert_eq!(objs.len(), 2);
    assert!(objs[0] == ignored_line(1, "abc"));
    assert!(objs[1] == ignored_line(3, "xyz"));
}

#[test]
fn records_need_their_blanks() {
    assert!(parse_line(4, b"v1 2 3") == Some(ignored_line(4, "v1 2 3")));
    assert!(parse_line(4, b"v 1 2") == Some(ignored_line(4, "v 1 2")));
    assert!(parse_line(4, b"vn 1 2") == Some(ignored_line(4, "vn 1 2")));
    assert!(parse_line(4, b"g ") == Some(ignored_line(4, "g ")));
    assert!(parse_line(4, b"g  \t name1-rest") == Some(group("name1")));
    assert!(parse_line(4, b"v \t1.5e1  -2 \t .25 and more") == Some(vertex(15.0, -2.0, 0.25)));
    assert!(parse_line(4, b" v 1 2 3") == Some(ignored_line(4, " v 1 2 3")));
}

#[test]
fn parser_keeps_its_path() {
    assert_eq!(ObjParser::new("teapot.obj").path(), "teapot.obj");
}
