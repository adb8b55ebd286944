use kpt_lib::mesh::{find_vertex, solid_faces, Find, TriangleIndex, VertexIndex};

fn corner(v: i32, x: u32, y: u32) -> VertexIndex {
    VertexIndex { v, x, y, z: 0 }
}

fn tri(a: VertexIndex, b: VertexIndex, c: VertexIndex) -> TriangleIndex {
    TriangleIndex { a, b, c }
}

// A unit square split along its diagonal: vertices 0 (0,0), 1 (1,0), 2 (1,1), 3 (0,1).
fn square() -> Vec<TriangleIndex> {
    vec![
        tri(corner(0, 0, 0), corner(1, 1, 0), corner(2, 1, 1)),
        tri(corner(0, 0, 0), corner(2, 1, 1), corner(3, 0, 1)),
    ]
}

#[test]
fn search_returns_first_matching_corner() {
    let t = tri(corner(4, 1, 2), corner(5, 3, 4), corner(6, 1, 2));
    assert_eq!(t.clone().search(1, 2), 4);
    assert_eq!(t.clone().search(3, 4), 5);
    assert_eq!(t.clone().search(3, 2), -1);
    assert_eq!(t.search(9, 9), -1);
}

#[test]
fn find_vertex_takes_first_triangle_that_matches() {
    let ts = square();
    assert_eq!(find_vertex(&ts, 0, 0), 0);
    assert_eq!(find_vertex(&ts, 1, 0), 1);
    assert_eq!(find_vertex(&ts, 0, 1), 3);
    assert_eq!(find_vertex(&ts, 5, 5), -1);
    assert_eq!(find_vertex(&vec![], 0, 0), -1);
}

#[test]
fn square_plate_faces() {
    let ts = square();
    let outline = vec![(0, 0), (1, 0), (1, 1), (0, 1), (0, 0)];
    let faces = solid_faces(8, &ts, &vec![outline]);
    let expected = vec![
        // bottom
        (0, 1, 2),
        (0, 2, 3),
        // top
        (4, 5, 6),
        (4, 6, 7),
        // walls
        (4, 0, 1),
        (4, 1, 5),
        (5, 1, 2),
        (5, 2, 6),
        (6, 2, 3),
        (6, 3, 7),
        (7, 3, 0),
        (7, 0, 4),
    ];
    assert_eq!(faces, expected);
    // every index addresses one of the 8 vertices
    for f in &faces {
        for i in [f.0, f.1, f.2] {
            assert!(0 <= i && i < 8);
        }
    }
}

#[test]
fn edges_with_a_missing_end_get_no_wall() {
    let ts = square();
    let outline = vec![(0, 0), (7, 7), (1, 0)];
    let faces = solid_faces(8, &ts, &vec![outline, vec![(1, 1)], vec![]]);
    assert_eq!(faces, vec![(0, 1, 2), (0, 2, 3), (4, 5, 6), (4, 6, 7)]);
}

#[test]
fn no_triangles_no_faces() {
    let faces = solid_faces(0, &vec![], &vec![vec![(0, 0), (1, 1)]]);
    assert!(faces.is_empty());
}

#[test]
fn top_faces_shift_by_half_the_points() {
    let ts = vec![tri(corner(2, 5, 5), corner(0, 6, 5), corner(1, 6, 6))];
    let faces = solid_faces(6, &ts, &vec![]);
    assert_eq!(faces, vec![(2, 0, 1), (5, 3, 4)]);
}
