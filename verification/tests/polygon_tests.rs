use sketch_kernel::dsc::Point2d;
use sketch_kernel::dsc::Vector;
use sketch_kernel::num::SCALE;
use sketch_kernel::polygon::build_extrusion;
use sketch_kernel::polygon::classify_ear;
use sketch_kernel::polygon::classify_point_plane;
use sketch_kernel::polygon::BspClass;
use sketch_kernel::polygon::STriangle;
use sketch_kernel::polygon::assemble_loop;
use sketch_kernel::polygon::classify_edges;
use sketch_kernel::polygon::combine_meshes;
use sketch_kernel::polygon::EarType;
use sketch_kernel::polygon::SEdge;
use sketch_kernel::polygon::SMesh;
use sketch_kernel::sketch::GroupCombineAs;
use sketch_kernel::sketch::PolyError;

fn edge(a: Vector, b: Vector) -> SEdge {
    SEdge { tag: 0, auxA: 0, auxB: 0, a, b }
}

fn square_points() -> [Vector; 4] {
    [
        Vector::new(0, 0, 0),
        Vector::new(SCALE, 0, 0),
        Vector::new(SCALE, SCALE, 0),
        Vector::new(0, SCALE, 0),
    ]
}

fn square_edges() -> Vec<SEdge> {
    let p = square_points();
    vec![
        edge(p[0], p[1]),
        edge(p[1], p[2]),
        edge(p[2], p[3]),
        edge(p[3], p[0]),
    ]
}

#[test]
fn square_loop_is_good() {
    let r = classify_edges(&square_edges());
    assert_eq!(r.how, PolyError::Good);
}

#[test]
fn open_loop_is_not_closed() {
    let mut e = square_edges();
    e.pop();
    let r = classify_edges(&e);
    assert_eq!(r.how, PolyError::NotClosed);
}

#[test]
fn perturbed_vertex_is_not_coplanar() {
    let p = square_points();
    let lifted = Vector::new(SCALE, SCALE, SCALE / 2);
    let e = vec![
        edge(p[0], p[1]),
        edge(p[1], lifted),
        edge(lifted, p[3]),
        edge(p[3], p[0]),
    ];
    let r = classify_edges(&e);
    assert_eq!(r.how, PolyError::NotCoplaner);
}

#[test]
fn crossed_edges_self_intersect() {
    let p = square_points();
    // Visit the corners in bowtie order: two edges properly cross.
    let e = vec![
        edge(p[0], p[1]),
        edge(p[1], p[3]),
        edge(p[3], p[2]),
        edge(p[2], p[0]),
    ];
    let r = classify_edges(&e);
    assert_eq!(r.how, PolyError::SelfIntersecting);
}

#[test]
fn duplicated_vertex_is_zero_length_edge() {
    let p = square_points();
    let mut e = square_edges();
    e.push(edge(p[2], p[2]));
    let r = classify_edges(&e);
    assert_eq!(r.how, PolyError::ZeroLenEdge);
}

#[test]
fn assemble_walks_the_square_contour() {
    let p = square_points();
    let pts = assemble_loop(&square_edges()).unwrap();
    assert_eq!(pts, vec![p[0], p[1], p[2], p[3]]);
    // The walk also closes a loop whose edges are listed out of order
    // or with flipped endpoints.
    let shuffled = vec![
        edge(p[0], p[1]),
        edge(p[3], p[2]),
        edge(p[1], p[2]),
        edge(p[0], p[3]),
    ];
    let pts2 = assemble_loop(&shuffled).unwrap();
    assert_eq!(pts2.len(), 4);
    assert!(assemble_loop(&Vec::new()).is_none());
    // An open chain sticks before closing.
    let mut open = square_edges();
    open.pop();
    assert!(assemble_loop(&open).is_none());
}

#[test]
fn empty_soup_is_good() {
    let r = classify_edges(&Vec::new());
    assert_eq!(r.how, PolyError::Good);
}

#[test]
fn ear_classification_of_a_convex_corner() {
    let prev = Point2d { x: 0, y: 0 };
    let cur = Point2d { x: SCALE, y: 0 };
    let nxt = Point2d { x: SCALE, y: SCALE };
    let r = classify_ear(prev, cur, nxt, &Vec::new());
    assert_eq!(r, EarType::Ear);
}

#[test]
fn ear_with_a_vertex_inside_is_not_an_ear() {
    let prev = Point2d { x: 0, y: 0 };
    let cur = Point2d { x: SCALE, y: 0 };
    let nxt = Point2d { x: SCALE, y: SCALE };
    let inside = Point2d { x: 3 * SCALE / 4, y: SCALE / 4 };
    let r = classify_ear(prev, cur, nxt, &vec![inside]);
    assert_eq!(r, EarType::NotEar);
}

#[test]
fn zero_area_candidate_is_never_an_ear() {
    let prev = Point2d { x: 0, y: 0 };
    let cur = Point2d { x: SCALE, y: 0 };
    let nxt = Point2d { x: 2 * SCALE, y: 0 };
    let r = classify_ear(prev, cur, nxt, &Vec::new());
    assert_eq!(r, EarType::NotEar);
    // A repeated vertex is also a zero-area candidate.
    let r2 = classify_ear(prev, cur, prev, &Vec::new());
    assert_eq!(r2, EarType::NotEar);
}

#[test]
fn reflex_corner_is_not_an_ear() {
    let prev = Point2d { x: 0, y: 0 };
    let cur = Point2d { x: SCALE, y: 0 };
    let nxt = Point2d { x: SCALE, y: -SCALE };
    let r = classify_ear(prev, cur, nxt, &Vec::new());
    assert_eq!(r, EarType::NotEar);
}

fn unit_cube_at(x0: i64) -> SMesh {
    let profile = vec![
        Vector::new(x0, 0, 0),
        Vector::new(x0 + SCALE, 0, 0),
        Vector::new(x0 + SCALE, SCALE, 0),
        Vector::new(x0, SCALE, 0),
    ];
    build_extrusion(&profile, Vector::new(0, 0, SCALE))
}

#[test]
fn extrusion_of_a_square_has_twelve_triangles() {
    let m = unit_cube_at(0);
    assert_eq!(m.l.len(), 12);
}

#[test]
fn union_with_empty_running_mesh_is_this_mesh() {
    let empty = SMesh { l: Vec::new() };
    let cube = unit_cube_at(0);
    let r = combine_meshes(&empty, &cube, GroupCombineAs::Union);
    assert_eq!(r.l.len(), cube.l.len());
    for (a, b) in r.l.iter().zip(cube.l.iter()) {
        assert_eq!(a, b);
    }
}

#[test]
fn intersection_with_empty_running_mesh_is_empty() {
    let empty = SMesh { l: Vec::new() };
    let cube = unit_cube_at(0);
    let r = combine_meshes(&empty, &cube, GroupCombineAs::Intersection);
    assert_eq!(r.l.len(), 0);
    let r2 = combine_meshes(&cube, &empty, GroupCombineAs::Intersection);
    assert_eq!(r2.l.len(), 0);
}

#[test]
fn difference_is_not_commutative_on_offset_cubes() {
    let a = unit_cube_at(0);
    let b = unit_cube_at(SCALE / 2);
    let ab = combine_meshes(&a, &b, GroupCombineAs::Difference);
    let ba = combine_meshes(&b, &a, GroupCombineAs::Difference);
    let same = ab.l.len() == ba.l.len() && ab.l.iter().zip(ba.l.iter()).all(|(x, y)| x == y);
    assert!(!same);
}

#[test]
fn plane_side_classification_is_exact() {
    // A triangle in the z = 0 plane with an upward-facing normal.
    let t = STriangle {
        a: Vector::new(0, 0, 0),
        b: Vector::new(SCALE, 0, 0),
        c: Vector::new(0, SCALE, 0),
    };
    assert_eq!(
        classify_point_plane(&t, Vector::new(0, 0, SCALE)),
        BspClass::Pos
    );
    assert_eq!(
        classify_point_plane(&t, Vector::new(0, 0, -SCALE)),
        BspClass::Neg
    );
    assert_eq!(
        classify_point_plane(&t, Vector::new(SCALE, SCALE, 0)),
        BspClass::Coplaner
    );
}

#[test]
fn assemble_keeps_both_meshes() {
    let a = unit_cube_at(0);
    let b = unit_cube_at(3 * SCALE);
    let r = combine_meshes(&a, &b, GroupCombineAs::Assemble);
    assert_eq!(r.l.len(), a.l.len() + b.l.len());
}
