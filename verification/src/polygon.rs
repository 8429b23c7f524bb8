//! Edge soups, polygon loops, ears and meshes.
//!
//! Every geometric predicate here is exact: orientation, coplanarity
//! and crossing tests are computed on raw integer coordinates in
//! `i128`, with no rescaling and hence no rounding.

use vstd::prelude::*;
use crate::dsc::Vector;
use crate::dsc::Point2d;
use crate::num::MAX_COORD;
use crate::sketch::PolyError;
use crate::sketch::GroupPolyError;

verus! {

/// Candidate classification during ear-clipping triangulation.
#[derive(Clone, Copy, PartialEq, Eq, Structural, Debug)]
pub enum EarType {
    Unknown,
    NotEar,
    Ear,
}

/// Side of a splitting plane in boolean classification.
#[derive(Clone, Copy, PartialEq, Eq, Structural, Debug)]
pub enum BspClass {
    Pos,
    Neg,
    Coplaner,
}

/// Display classification of an edge.
#[derive(Clone, Copy, PartialEq, Eq, Structural, Debug)]
pub enum EdgeKind {
    NakedOrSelfInter,
    SelfInter,
    Turning,
    Emphasized,
    Sharp,
}

/// An edge of the soup a group's entities produce: endpoints plus the
/// scratch tag and auxiliary identifiers the extractor threads through.
#[allow(non_snake_case)]
#[derive(Clone, Copy, PartialEq, Eq, Structural, Debug)]
pub struct SEdge {
    pub tag: i32,
    pub auxA: i32,
    pub auxB: i32,
    pub a: Vector,
    pub b: Vector,
}

/// One closed contour of a planar polygon.
#[derive(Clone, Debug)]
pub struct SContour {
    pub points: Vec<Vector>,
}

/// A planar polygon: a set of closed contours.
#[derive(Clone, Debug)]
pub struct SPolygon {
    pub l: Vec<SContour>,
}

/// A triangle of a mesh.
#[derive(Clone, Copy, PartialEq, Eq, Structural, Debug)]
pub struct STriangle {
    pub a: Vector,
    pub b: Vector,
    pub c: Vector,
}

/// A triangulated solid (or solid fragment).
#[derive(Clone, Debug)]
pub struct SMesh {
    pub l: Vec<STriangle>,
}

/// A boundary representation; this kernel keeps it triangle-based.
#[derive(Clone, Debug)]
pub struct SShell {
    pub faces: Vec<STriangle>,
}

/// Edges kept for outline display.
#[derive(Clone, Debug)]
pub struct SOutlineList {
    pub l: Vec<SEdge>,
}

impl SPolygon {
    pub fn new() -> (r: SPolygon)
        ensures
            r.l@.len() == 0,
    {
        SPolygon { l: Vec::new() }
    }
}

impl SMesh {
    pub fn new() -> (r: SMesh)
        ensures
            r.l@.len() == 0,
    {
        SMesh { l: Vec::new() }
    }
}

impl SShell {
    pub fn new() -> (r: SShell)
        ensures
            r.faces@.len() == 0,
    {
        SShell { faces: Vec::new() }
    }
}

/// A rational cubic curve segment: up to four control points, with
/// integer weights in `SCALE` units.
#[derive(Clone, Debug)]
pub struct SBezier {
    pub deg: i32,
    pub ctrl: Vec<Vector>,
    pub weight: Vec<i64>,
}

/// A closed loop of curve segments.
#[derive(Clone, Debug)]
pub struct SBezierLoop {
    pub l: Vec<SBezier>,
}

/// A set of curve loops (one face's boundary).
#[derive(Clone, Debug)]
pub struct SBezierLoopSet {
    pub l: Vec<SBezierLoop>,
}

/// The curve loops of a whole group.
#[derive(Clone, Debug)]
pub struct SBezierLoopSetSet {
    pub l: Vec<SBezierLoopSet>,
}

impl SBezierLoopSet {
    pub fn new() -> (r: SBezierLoopSet)
        ensures
            r.l@.len() == 0,
    {
        SBezierLoopSet { l: Vec::new() }
    }
}

impl SBezierLoopSetSet {
    pub fn new() -> (r: SBezierLoopSetSet)
        ensures
            r.l@.len() == 0,
    {
        SBezierLoopSetSet { l: Vec::new() }
    }
}

impl SOutlineList {
    pub fn new() -> (r: SOutlineList)
        ensures
            r.l@.len() == 0,
    {
        SOutlineList { l: Vec::new() }
    }
}

/// Both endpoints of an edge are admissible coordinates.
pub open spec fn edge_wf(e: SEdge) -> bool {
    e.a.wf() && e.b.wf()
}

/// The `i`-th endpoint of the soup, edges contributing two each.
pub open spec fn pt_at(edges: Seq<SEdge>, i: int) -> Vector {
    if i % 2 == 0 {
        edges[i / 2].a
    } else {
        edges[i / 2].b
    }
}

/// How many endpoints of the soup coincide exactly with `p`.
pub open spec fn ep_count(edges: Seq<SEdge>, p: Vector) -> int
    decreases edges.len(),
{
    if edges.len() == 0 {
        0
    } else {
        ep_count(edges.drop_last(), p) + (if edges.last().a == p {
            1int
        } else {
            0int
        }) + (if edges.last().b == p {
            1int
        } else {
            0int
        })
    }
}

/// Every endpoint is met an even number of times: each vertex of a
/// closed loop is entered as often as it is left.
pub open spec fn spec_closed(edges: Seq<SEdge>) -> bool {
    forall|i: int|
        0 <= i < edges.len() ==> ep_count(edges, #[trigger] edges[i].a) % 2 == 0 && ep_count(
            edges,
            edges[i].b,
        ) % 2 == 0
}

/// The raw cross product of `p1 - p0` and `p - p0`, componentwise.
pub open spec fn crx(p0: Vector, p1: Vector, p: Vector) -> int {
    (p1.y - p0.y) * (p.z - p0.z) - (p1.z - p0.z) * (p.y - p0.y)
}

pub open spec fn cry(p0: Vector, p1: Vector, p: Vector) -> int {
    (p1.z - p0.z) * (p.x - p0.x) - (p1.x - p0.x) * (p.z - p0.z)
}

pub open spec fn crz(p0: Vector, p1: Vector, p: Vector) -> int {
    (p1.x - p0.x) * (p.y - p0.y) - (p1.y - p0.y) * (p.x - p0.x)
}

/// The three points lie on one line.
pub open spec fn collinear3(p0: Vector, p1: Vector, p: Vector) -> bool {
    crx(p0, p1, p) == 0 && cry(p0, p1, p) == 0 && crz(p0, p1, p) == 0
}

/// The determinant of the three difference vectors from `p0`: zero
/// exactly when the four points are coplanar.
pub open spec fn triple4(p0: Vector, p1: Vector, p2: Vector, p3: Vector) -> int {
    (p1.x - p0.x) * ((p2.y - p0.y) * (p3.z - p0.z) - (p2.z - p0.z) * (p3.y - p0.y)) - (p1.y
        - p0.y) * ((p2.x - p0.x) * (p3.z - p0.z) - (p2.z - p0.z) * (p3.x - p0.x)) + (p1.z - p0.z)
        * ((p2.x - p0.x) * (p3.y - p0.y) - (p2.y - p0.y) * (p3.x - p0.x))
}

/// Smallest endpoint index whose point differs from the first point;
/// `-1` when all coincide.
pub open spec fn first_distinct(edges: Seq<SEdge>, i: int) -> int
    decreases 2 * edges.len() - i
        when 0 <= i
{
    if i >= 2 * edges.len() {
        -1
    } else if pt_at(edges, i) != pt_at(edges, 0) {
        i
    } else {
        first_distinct(edges, i + 1)
    }
}

/// Smallest endpoint index not collinear with the plane's first two
/// base points; `-1` when every point is collinear with them.
pub open spec fn first_independent(edges: Seq<SEdge>, p0: Vector, p1: Vector, i: int) -> int
    decreases 2 * edges.len() - i
        when 0 <= i
{
    if i >= 2 * edges.len() {
        -1
    } else if !collinear3(p0, p1, pt_at(edges, i)) {
        i
    } else {
        first_independent(edges, p0, p1, i + 1)
    }
}

/// All endpoints lie in the plane through the first point spanned by
/// the first independent pair of directions (degenerate soups, with no
/// such pair, count as coplanar).
pub open spec fn spec_coplanar(edges: Seq<SEdge>) -> bool {
    let fd = first_distinct(edges, 0);
    if fd < 0 {
        true
    } else {
        let p0 = pt_at(edges, 0);
        let p1 = pt_at(edges, fd);
        let fi = first_independent(edges, p0, p1, 0);
        if fi < 0 {
            true
        } else {
            forall|i: int|
                0 <= i < 2 * edges.len() ==> triple4(
                    p0,
                    p1,
                    pt_at(edges, fi),
                    #[trigger] pt_at(edges, i),
                ) == 0
        }
    }
}

/// Which coordinate the plane normal dominates: that coordinate is
/// dropped when the soup is flattened for 2D crossing tests.
pub open spec fn spec_plane_axis(edges: Seq<SEdge>) -> int {
    let fd = first_distinct(edges, 0);
    let p0 = pt_at(edges, 0);
    let p1 = pt_at(edges, fd);
    let fi = first_independent(edges, p0, p1, 0);
    let p2 = pt_at(edges, fi);
    let nx = if crx(p0, p1, p2) >= 0 {
        crx(p0, p1, p2)
    } else {
        -crx(p0, p1, p2)
    };
    let ny = if cry(p0, p1, p2) >= 0 {
        cry(p0, p1, p2)
    } else {
        -cry(p0, p1, p2)
    };
    let nz = if crz(p0, p1, p2) >= 0 {
        crz(p0, p1, p2)
    } else {
        -crz(p0, p1, p2)
    };
    if nx >= ny && nx >= nz {
        0int
    } else if ny >= nz {
        1int
    } else {
        2int
    }
}

/// Drop the `axis` coordinate.
pub open spec fn spec_proj(p: Vector, axis: int) -> Point2d {
    if axis == 0 {
        Point2d { x: p.y, y: p.z }
    } else if axis == 1 {
        Point2d { x: p.x, y: p.z }
    } else {
        Point2d { x: p.x, y: p.y }
    }
}

/// The two flattened edges cross properly: each edge's endpoints lie
/// strictly on opposite sides of the other's line.  Edges that merely
/// share an endpoint never cross properly.
pub open spec fn proper_cross(e: SEdge, f: SEdge, axis: int) -> bool {
    let a1 = spec_proj(e.a, axis);
    let b1 = spec_proj(e.b, axis);
    let a2 = spec_proj(f.a, axis);
    let b2 = spec_proj(f.b, axis);
    let o1 = orient2(a1, b1, a2);
    let o2 = orient2(a1, b1, b2);
    let o3 = orient2(a2, b2, a1);
    let o4 = orient2(a2, b2, b1);
    ((o1 > 0 && o2 < 0) || (o1 < 0 && o2 > 0)) && ((o3 > 0 && o4 < 0) || (o3 < 0 && o4 > 0))
}

/// Some pair of edges crosses properly in the flattened soup.  A soup
/// without a plane basis (all endpoints collinear) cannot cross.
pub open spec fn spec_self_intersects(edges: Seq<SEdge>) -> bool {
    let fd = first_distinct(edges, 0);
    fd >= 0 && {
        let p0 = pt_at(edges, 0);
        let p1 = pt_at(edges, fd);
        let fi = first_independent(edges, p0, p1, 0);
        fi >= 0 && exists|i: int, j: int|
            0 <= i < j < edges.len() && proper_cross(
                #[trigger] edges[i],
                #[trigger] edges[j],
                spec_plane_axis(edges),
            )
    }
}

/// Some edge has coinciding endpoints.
pub open spec fn spec_has_zero_len(edges: Seq<SEdge>) -> bool {
    exists|i: int| 0 <= i < edges.len() && (#[trigger] edges[i]).a == edges[i].b
}

/// Twice the signed area of the 2D triangle `(p, q, r)`: positive for
/// a counterclockwise turn.  Exact on raw coordinates.
pub open spec fn orient2(p: Point2d, q: Point2d, r: Point2d) -> int {
    (q.x - p.x) * (r.y - p.y) - (q.y - p.y) * (r.x - p.x)
}

/// Admissible 2D point for exact predicates.
pub open spec fn pt2_wf(p: Point2d) -> bool {
    &&& -MAX_COORD <= p.x <= MAX_COORD
    &&& -MAX_COORD <= p.y <= MAX_COORD
}

/// `t` lies strictly inside the counterclockwise triangle `(a, b, c)`.
pub open spec fn strictly_inside_tri(a: Point2d, b: Point2d, c: Point2d, t: Point2d) -> bool {
    orient2(a, b, t) > 0 && orient2(b, c, t) > 0 && orient2(c, a, t) > 0
}

/// Exact executable orientation test.
pub fn orient2_sign(p: Point2d, q: Point2d, r: Point2d) -> (s: i32)
    requires
        pt2_wf(p),
        pt2_wf(q),
        pt2_wf(r),
    ensures
        s == 1 <==> orient2(p, q, r) > 0,
        s == -1 <==> orient2(p, q, r) < 0,
        s == 0 <==> orient2(p, q, r) == 0,
{
    let dqx: i64 = q.x - p.x;
    let dqy: i64 = q.y - p.y;
    let drx: i64 = r.x - p.x;
    let dry: i64 = r.y - p.y;
    proof {
        crate::num::lemma_mul_abs_bound(
            dqx as int,
            dry as int,
            2_000_000_000_000int,
            2_000_000_000_000int,
        );
        crate::num::lemma_mul_abs_bound(
            dqy as int,
            drx as int,
            2_000_000_000_000int,
            2_000_000_000_000int,
        );
    }
    let t: i128 = (dqx as i128) * (dry as i128) - (dqy as i128) * (drx as i128);
    if t > 0 {
        1
    } else if t < 0 {
        -1
    } else {
        0
    }
}

/// Classify the ear candidate `(prev, cur, nxt)` of a counterclockwise
/// loop against the other loop vertices: an ear exactly when the
/// corner turns left with nonzero area and no other vertex lies
/// strictly inside the corner triangle.  A zero-area candidate is
/// never an ear.
pub fn classify_ear(prev: Point2d, cur: Point2d, nxt: Point2d, others: &Vec<Point2d>) -> (r:
    EarType)
    requires
        pt2_wf(prev),
        pt2_wf(cur),
        pt2_wf(nxt),
        forall|i: int| 0 <= i < others@.len() ==> pt2_wf(#[trigger] others@[i]),
    ensures
        r != EarType::Unknown,
        r == EarType::Ear <==> orient2(prev, cur, nxt) > 0 && (forall|i: int|
            0 <= i < others@.len() ==> !strictly_inside_tri(prev, cur, nxt, #[trigger] others@[i])),
        orient2(prev, cur, nxt) == 0 ==> r == EarType::NotEar,
{
    let s = orient2_sign(prev, cur, nxt);
    if s <= 0 {
        return EarType::NotEar;
    }
    let mut i: usize = 0;
    while i < others.len()
        invariant
            0 <= i <= others@.len(),
            pt2_wf(prev),
            pt2_wf(cur),
            pt2_wf(nxt),
            forall|j: int| 0 <= j < others@.len() ==> pt2_wf(#[trigger] others@[j]),
            forall|j: int|
                0 <= j < i ==> !strictly_inside_tri(prev, cur, nxt, #[trigger] others@[j]),
        decreases others@.len() - i,
    {
        let p = others[i];
        let s1 = orient2_sign(prev, cur, p);
        let s2 = orient2_sign(cur, nxt, p);
        let s3 = orient2_sign(nxt, prev, p);
        if s1 == 1 && s2 == 1 && s3 == 1 {
            return EarType::NotEar;
        }
        i = i + 1;
    }
    EarType::Ear
}

/// The `i`-th endpoint, executable.
fn point_at(edges: &Vec<SEdge>, i: usize) -> (p: Vector)
    requires
        i < 2 * edges@.len(),
    ensures
        p == pt_at(edges@, i as int),
{
    if i % 2 == 0 {
        edges[i / 2].a
    } else {
        edges[i / 2].b
    }
}

/// Count endpoints exactly equal to `p`.
fn count_endpoint(edges: &Vec<SEdge>, p: Vector) -> (c: u64)
    requires
        edges@.len() < 0x4000_0000,
    ensures
        c as int == ep_count(edges@, p),
{
    let mut c: u64 = 0;
    let mut i: usize = 0;
    while i < edges.len()
        invariant
            0 <= i <= edges@.len(),
            edges@.len() < 0x4000_0000,
            c as int == ep_count(edges@.subrange(0, i as int), p),
            c <= 2 * (i as u64),
        decreases edges@.len() - i,
    {
        let e = edges[i];
        proof {
            assert(edges@.subrange(0, i + 1).drop_last() =~= edges@.subrange(0, i as int));
            assert(edges@.subrange(0, i + 1).last() == edges@[i as int]);
        }
        if e.a == p {
            c = c + 1;
        }
        if e.b == p {
            c = c + 1;
        }
        i = i + 1;
    }
    proof {
        assert(edges@.subrange(0, edges@.len() as int) =~= edges@);
    }
    c
}

/// Find an edge with an endpoint of odd multiplicity, if any.
fn find_odd_endpoint(edges: &Vec<SEdge>) -> (r: Option<usize>)
    requires
        edges@.len() < 0x4000_0000,
    ensures
        match r {
            None => spec_closed(edges@),
            Some(i) => i < edges@.len() && (ep_count(edges@, edges@[i as int].a) % 2 != 0
                || ep_count(edges@, edges@[i as int].b) % 2 != 0),
        },
{
    let mut i: usize = 0;
    while i < edges.len()
        invariant
            0 <= i <= edges@.len(),
            edges@.len() < 0x4000_0000,
            forall|j: int|
                0 <= j < i ==> #[trigger] ep_count(edges@, edges@[j].a) % 2 == 0,
            forall|j: int|
                0 <= j < i ==> #[trigger] ep_count(edges@, edges@[j].b) % 2 == 0,
        decreases edges@.len() - i,
    {
        let ca = count_endpoint(edges, edges[i].a);
        let cb = count_endpoint(edges, edges[i].b);
        if ca % 2 != 0 || cb % 2 != 0 {
            return Some(i);
        }
        proof {
            assert(ep_count(edges@, edges@[i as int].a) == ca as int);
            assert(ep_count(edges@, edges@[i as int].b) == cb as int);
            assert(ca as int % 2 == 0 && cb as int % 2 == 0);
        }
        i = i + 1;
    }
    None
}

/// Sign of the determinant `triple4(p0, p1, p2, p3)`, exact.
fn triple_sign(p0: Vector, p1: Vector, p2: Vector, p3: Vector) -> (s: i32)
    requires
        p0.wf(),
        p1.wf(),
        p2.wf(),
        p3.wf(),
    ensures
        s == 1 <==> triple4(p0, p1, p2, p3) > 0,
        s == -1 <==> triple4(p0, p1, p2, p3) < 0,
        s == 0 <==> triple4(p0, p1, p2, p3) == 0,
{
    let d1x: i64 = p1.x - p0.x;
    let d1y: i64 = p1.y - p0.y;
    let d1z: i64 = p1.z - p0.z;
    let d2x: i64 = p2.x - p0.x;
    let d2y: i64 = p2.y - p0.y;
    let d2z: i64 = p2.z - p0.z;
    let d3x: i64 = p3.x - p0.x;
    let d3y: i64 = p3.y - p0.y;
    let d3z: i64 = p3.z - p0.z;
    proof {
        crate::num::lemma_mul_abs_bound(d2y as int, d3z as int, 2_000_000_000_000int, 2_000_000_000_000int);
        crate::num::lemma_mul_abs_bound(d2z as int, d3y as int, 2_000_000_000_000int, 2_000_000_000_000int);
        crate::num::lemma_mul_abs_bound(d2x as int, d3z as int, 2_000_000_000_000int, 2_000_000_000_000int);
        crate::num::lemma_mul_abs_bound(d2z as int, d3x as int, 2_000_000_000_000int, 2_000_000_000_000int);
        crate::num::lemma_mul_abs_bound(d2x as int, d3y as int, 2_000_000_000_000int, 2_000_000_000_000int);
        crate::num::lemma_mul_abs_bound(d2y as int, d3x as int, 2_000_000_000_000int, 2_000_000_000_000int);
    }
    let m1: i128 = (d2y as i128) * (d3z as i128) - (d2z as i128) * (d3y as i128);
    let m2: i128 = (d2x as i128) * (d3z as i128) - (d2z as i128) * (d3x as i128);
    let m3: i128 = (d2x as i128) * (d3y as i128) - (d2y as i128) * (d3x as i128);
    proof {
        crate::num::lemma_mul_abs_bound(
            d1x as int,
            m1 as int,
            2_000_000_000_000int,
            8_000_000_000_000_000_000_000_000int,
        );
        crate::num::lemma_mul_abs_bound(
            d1y as int,
            m2 as int,
            2_000_000_000_000int,
            8_000_000_000_000_000_000_000_000int,
        );
        crate::num::lemma_mul_abs_bound(
            d1z as int,
            m3 as int,
            2_000_000_000_000int,
            8_000_000_000_000_000_000_000_000int,
        );
    }
    let t: i128 = (d1x as i128) * m1 - (d1y as i128) * m2 + (d1z as i128) * m3;
    if t > 0 {
        1
    } else if t < 0 {
        -1
    } else {
        0
    }
}

/// Whether the cross product of `p1 - p0` and `p - p0` vanishes.
fn collinear_check(p0: Vector, p1: Vector, p: Vector) -> (r: bool)
    requires
        p0.wf(),
        p1.wf(),
        p.wf(),
    ensures
        r <==> collinear3(p0, p1, p),
{
    let d1x: i64 = p1.x - p0.x;
    let d1y: i64 = p1.y - p0.y;
    let d1z: i64 = p1.z - p0.z;
    let dx: i64 = p.x - p0.x;
    let dy: i64 = p.y - p0.y;
    let dz: i64 = p.z - p0.z;
    proof {
        crate::num::lemma_mul_abs_bound(d1y as int, dz as int, 2_000_000_000_000int, 2_000_000_000_000int);
        crate::num::lemma_mul_abs_bound(d1z as int, dy as int, 2_000_000_000_000int, 2_000_000_000_000int);
        crate::num::lemma_mul_abs_bound(d1z as int, dx as int, 2_000_000_000_000int, 2_000_000_000_000int);
        crate::num::lemma_mul_abs_bound(d1x as int, dz as int, 2_000_000_000_000int, 2_000_000_000_000int);
        crate::num::lemma_mul_abs_bound(d1x as int, dy as int, 2_000_000_000_000int, 2_000_000_000_000int);
        crate::num::lemma_mul_abs_bound(d1y as int, dx as int, 2_000_000_000_000int, 2_000_000_000_000int);
    }
    let cx: i128 = (d1y as i128) * (dz as i128) - (d1z as i128) * (dy as i128);
    let cy: i128 = (d1z as i128) * (dx as i128) - (d1x as i128) * (dz as i128);
    let cz: i128 = (d1x as i128) * (dy as i128) - (d1y as i128) * (dx as i128);
    cx == 0 && cy == 0 && cz == 0
}

/// Find the first endpoint differing from the first point.
fn find_first_distinct(edges: &Vec<SEdge>) -> (r: Option<usize>)
    requires
        edges@.len() < 0x4000_0000,
        edges@.len() > 0,
    ensures
        match r {
            None => first_distinct(edges@, 0) == -1,
            Some(i) => i as int == first_distinct(edges@, 0) && (i as int) < 2 * edges@.len(),
        },
{
    let mut i: usize = 0;
    let p0 = point_at(edges, 0);
    while i < 2 * edges.len()
        invariant
            0 <= i <= 2 * edges@.len(),
            edges@.len() < 0x4000_0000,
            edges@.len() > 0,
            p0 == pt_at(edges@, 0),
            first_distinct(edges@, 0) == first_distinct(edges@, i as int),
        decreases 2 * edges@.len() - i,
    {
        let p = point_at(edges, i);
        if !(p == p0) {
            return Some(i);
        }
        i = i + 1;
    }
    None
}

/// Find the first endpoint independent of the base direction.
fn find_first_independent(edges: &Vec<SEdge>, p0: Vector, p1: Vector) -> (r: Option<usize>)
    requires
        edges@.len() < 0x4000_0000,
        edges@.len() > 0,
        p0.wf(),
        p1.wf(),
        forall|k: int| 0 <= k < edges@.len() ==> edge_wf(#[trigger] edges@[k]),
    ensures
        match r {
            None => first_independent(edges@, p0, p1, 0) == -1,
            Some(i) => i as int == first_independent(edges@, p0, p1, 0) && (i as int) < 2
                * edges@.len(),
        },
{
    let mut i: usize = 0;
    while i < 2 * edges.len()
        invariant
            0 <= i <= 2 * edges@.len(),
            edges@.len() < 0x4000_0000,
            edges@.len() > 0,
            p0.wf(),
            p1.wf(),
            forall|k: int| 0 <= k < edges@.len() ==> edge_wf(#[trigger] edges@[k]),
            first_independent(edges@, p0, p1, 0) == first_independent(edges@, p0, p1, i as int),
        decreases 2 * edges@.len() - i,
    {
        let p = point_at(edges, i);
        proof {
            assert(edge_wf(edges@[i as int / 2]));
        }
        if !collinear_check(p0, p1, p) {
            return Some(i);
        }
        i = i + 1;
    }
    None
}

/// Check every endpoint against the chosen plane; a witness index is
/// returned for the first point off it.
fn find_noncoplanar(edges: &Vec<SEdge>, p0: Vector, p1: Vector, p2: Vector) -> (r: Option<usize>)
    requires
        edges@.len() < 0x4000_0000,
        p0.wf(),
        p1.wf(),
        p2.wf(),
        forall|k: int| 0 <= k < edges@.len() ==> edge_wf(#[trigger] edges@[k]),
    ensures
        match r {
            None => forall|i: int|
                0 <= i < 2 * edges@.len() ==> triple4(p0, p1, p2, #[trigger] pt_at(edges@, i))
                    == 0,
            Some(i) => (i as int) < 2 * edges@.len() && triple4(p0, p1, p2, pt_at(edges@, i as int))
                != 0,
        },
{
    let mut i: usize = 0;
    while i < 2 * edges.len()
        invariant
            0 <= i <= 2 * edges@.len(),
            edges@.len() < 0x4000_0000,
            p0.wf(),
            p1.wf(),
            p2.wf(),
            forall|k: int| 0 <= k < edges@.len() ==> edge_wf(#[trigger] edges@[k]),
            forall|j: int|
                0 <= j < i ==> triple4(p0, p1, p2, #[trigger] pt_at(edges@, j)) == 0,
        decreases 2 * edges@.len() - i,
    {
        let p = point_at(edges, i);
        proof {
            assert(edge_wf(edges@[i as int / 2]));
        }
        let s = triple_sign(p0, p1, p2, p);
        if s != 0 {
            return Some(i);
        }
        i = i + 1;
    }
    None
}

/// Drop the `axis` coordinate, executable.
fn project(p: Vector, axis: u8) -> (r: Point2d)
    requires
        axis <= 2,
    ensures
        r == spec_proj(p, axis as int),
{
    if axis == 0 {
        Point2d { x: p.y, y: p.z }
    } else if axis == 1 {
        Point2d { x: p.x, y: p.z }
    } else {
        Point2d { x: p.x, y: p.y }
    }
}

/// Whether two edges cross properly in the flattened soup.
fn check_proper_cross(e: SEdge, f: SEdge, axis: u8) -> (r: bool)
    requires
        edge_wf(e),
        edge_wf(f),
        axis <= 2,
    ensures
        r <==> proper_cross(e, f, axis as int),
{
    let a1 = project(e.a, axis);
    let b1 = project(e.b, axis);
    let a2 = project(f.a, axis);
    let b2 = project(f.b, axis);
    let o1 = orient2_sign(a1, b1, a2);
    let o2 = orient2_sign(a1, b1, b2);
    let o3 = orient2_sign(a2, b2, a1);
    let o4 = orient2_sign(a2, b2, b1);
    ((o1 == 1 && o2 == -1) || (o1 == -1 && o2 == 1)) && ((o3 == 1 && o4 == -1) || (o3 == -1 && o4
        == 1))
}

/// Find a properly crossing pair of edges, if any.
fn find_crossing(edges: &Vec<SEdge>, axis: u8) -> (r: Option<usize>)
    requires
        edges@.len() < 0x4000_0000,
        axis <= 2,
        axis as int == spec_plane_axis(edges@),
        forall|k: int| 0 <= k < edges@.len() ==> edge_wf(#[trigger] edges@[k]),
    ensures
        match r {
            None => !spec_self_intersects(edges@),
            Some(i) => i < edges@.len() && exists|j: int|
                (i as int) < j < edges@.len() && proper_cross(
                    edges@[i as int],
                    #[trigger] edges@[j],
                    spec_plane_axis(edges@),
                ),
        },
{
    let mut i: usize = 0;
    while i < edges.len()
        invariant
            0 <= i <= edges@.len(),
            edges@.len() < 0x4000_0000,
            axis <= 2,
            axis as int == spec_plane_axis(edges@),
            forall|k: int| 0 <= k < edges@.len() ==> edge_wf(#[trigger] edges@[k]),
            forall|a: int, b: int|
                0 <= a < i && a < b < edges@.len() ==> !proper_cross(
                    #[trigger] edges@[a],
                    #[trigger] edges@[b],
                    spec_plane_axis(edges@),
                ),
        decreases edges@.len() - i,
    {
        let mut j: usize = i + 1;
        while j < edges.len()
            invariant
                0 <= i < edges@.len(),
                i < j <= edges@.len(),
                edges@.len() < 0x4000_0000,
                axis <= 2,
                axis as int == spec_plane_axis(edges@),
                forall|k: int| 0 <= k < edges@.len() ==> edge_wf(#[trigger] edges@[k]),
                forall|b: int|
                    (i as int) < b < j ==> !proper_cross(
                        edges@[i as int],
                        #[trigger] edges@[b],
                        spec_plane_axis(edges@),
                    ),
            decreases edges@.len() - j,
        {
            if check_proper_cross(edges[i], edges[j], axis) {
                return Some(i);
            }
            j = j + 1;
        }
        i = i + 1;
    }
    None
}

/// Classify an edge soup: zero-length edges first, then closure, then
/// coplanarity, then self-intersection; only a soup passing all four
/// is `Good`.  The locating edge and representative point accompany
/// each diagnosis.
pub fn classify_edges(edges: &Vec<SEdge>) -> (r: GroupPolyError)
    requires
        edges@.len() < 0x4000_0000,
        forall|k: int| 0 <= k < edges@.len() ==> edge_wf(#[trigger] edges@[k]),
    ensures
        r.how == PolyError::ZeroLenEdge <==> spec_has_zero_len(edges@),
        r.how == PolyError::NotClosed <==> !spec_has_zero_len(edges@) && !spec_closed(edges@),
        r.how == PolyError::NotCoplaner <==> !spec_has_zero_len(edges@) && spec_closed(edges@)
            && !spec_coplanar(edges@),
        r.how == PolyError::SelfIntersecting <==> !spec_has_zero_len(edges@) && spec_closed(edges@)
            && spec_coplanar(edges@) && spec_self_intersects(edges@),
        r.how == PolyError::Good <==> !spec_has_zero_len(edges@) && spec_closed(edges@)
            && spec_coplanar(edges@) && !spec_self_intersects(edges@),
{
    let zero_edge = SEdge {
        tag: 0,
        auxA: 0,
        auxB: 0,
        a: Vector { x: 0, y: 0, z: 0 },
        b: Vector { x: 0, y: 0, z: 0 },
    };
    let mut i: usize = 0;
    while i < edges.len()
        invariant
            0 <= i <= edges@.len(),
            edges@.len() < 0x4000_0000,
            forall|k: int| 0 <= k < edges@.len() ==> edge_wf(#[trigger] edges@[k]),
            forall|j: int| 0 <= j < i ==> (#[trigger] edges@[j]).a != edges@[j].b,
        decreases edges@.len() - i,
    {
        if edges[i].a == edges[i].b {
            return GroupPolyError {
                how: PolyError::ZeroLenEdge,
                not_closed_at: edges[i],
                error_point_at: edges[i].a,
            };
        }
        i = i + 1;
    }
    match find_odd_endpoint(edges) {
        Some(k) => {
            return GroupPolyError {
                how: PolyError::NotClosed,
                not_closed_at: edges[k],
                error_point_at: edges[k].a,
            };
        },
        None => {},
    }
    if edges.len() == 0 {
        return GroupPolyError {
            how: PolyError::Good,
            not_closed_at: zero_edge,
            error_point_at: Vector { x: 0, y: 0, z: 0 },
        };
    }
    let p0 = point_at(edges, 0);
    proof {
        assert(edge_wf(edges@[0]));
    }
    let fd = match find_first_distinct(edges) {
        None => {
            return GroupPolyError {
                how: PolyError::Good,
                not_closed_at: zero_edge,
                error_point_at: Vector { x: 0, y: 0, z: 0 },
            };
        },
        Some(fd) => fd,
    };
    let p1 = point_at(edges, fd);
    proof {
        assert(edge_wf(edges@[fd as int / 2]));
    }
    let fi = match find_first_independent(edges, p0, p1) {
        None => {
            return GroupPolyError {
                how: PolyError::Good,
                not_closed_at: zero_edge,
                error_point_at: Vector { x: 0, y: 0, z: 0 },
            };
        },
        Some(fi) => fi,
    };
    let p2 = point_at(edges, fi);
    proof {
        assert(edge_wf(edges@[fi as int / 2]));
    }
    match find_noncoplanar(edges, p0, p1, p2) {
        Some(w) => {
            let pw = point_at(edges, w);
            let we = w / 2;
            return GroupPolyError {
                how: PolyError::NotCoplaner,
                not_closed_at: edges[we],
                error_point_at: pw,
            };
        },
        None => {},
    }
    let axis = plane_axis_of(edges, p0, p1, p2);
    match find_crossing(edges, axis) {
        Some(c) => {
            GroupPolyError {
                how: PolyError::SelfIntersecting,
                not_closed_at: edges[c],
                error_point_at: edges[c].a,
            }
        },
        None => {
            GroupPolyError {
                how: PolyError::Good,
                not_closed_at: zero_edge,
                error_point_at: Vector { x: 0, y: 0, z: 0 },
            }
        },
    }
}

/// Compute the dominant-normal axis of the soup's plane.
fn plane_axis_of(edges: &Vec<SEdge>, p0: Vector, p1: Vector, p2: Vector) -> (axis: u8)
    requires
        edges@.len() > 0,
        p0.wf(),
        p1.wf(),
        p2.wf(),
        p0 == pt_at(edges@, 0),
        first_distinct(edges@, 0) >= 0,
        p1 == pt_at(edges@, first_distinct(edges@, 0)),
        first_independent(edges@, p0, p1, 0) >= 0,
        p2 == pt_at(edges@, first_independent(edges@, p0, p1, 0)),
    ensures
        axis <= 2,
        axis as int == spec_plane_axis(edges@),
{
    let d1x: i64 = p1.x - p0.x;
    let d1y: i64 = p1.y - p0.y;
    let d1z: i64 = p1.z - p0.z;
    let dx: i64 = p2.x - p0.x;
    let dy: i64 = p2.y - p0.y;
    let dz: i64 = p2.z - p0.z;
    proof {
        crate::num::lemma_mul_abs_bound(d1y as int, dz as int, 2_000_000_000_000int, 2_000_000_000_000int);
        crate::num::lemma_mul_abs_bound(d1z as int, dy as int, 2_000_000_000_000int, 2_000_000_000_000int);
        crate::num::lemma_mul_abs_bound(d1z as int, dx as int, 2_000_000_000_000int, 2_000_000_000_000int);
        crate::num::lemma_mul_abs_bound(d1x as int, dz as int, 2_000_000_000_000int, 2_000_000_000_000int);
        crate::num::lemma_mul_abs_bound(d1x as int, dy as int, 2_000_000_000_000int, 2_000_000_000_000int);
        crate::num::lemma_mul_abs_bound(d1y as int, dx as int, 2_000_000_000_000int, 2_000_000_000_000int);
    }
    let cx: i128 = (d1y as i128) * (dz as i128) - (d1z as i128) * (dy as i128);
    let cy: i128 = (d1z as i128) * (dx as i128) - (d1x as i128) * (dz as i128);
    let cz: i128 = (d1x as i128) * (dy as i128) - (d1y as i128) * (dx as i128);
    let nx: i128 = if cx >= 0 { cx } else { -cx };
    let ny: i128 = if cy >= 0 { cy } else { -cy };
    let nz: i128 = if cz >= 0 { cz } else { -cz };
    if nx >= ny && nx >= nz {
        0
    } else if ny >= nz {
        1
    } else {
        2
    }
}

/// All three corners are admissible coordinates.
pub open spec fn tri_wf(t: STriangle) -> bool {
    t.a.wf() && t.b.wf() && t.c.wf()
}

/// Signed side of `p` against the triangle's plane, with the outward
/// normal `(b - a) x (c - a)`: positive outside, negative inside.
pub open spec fn tri_side(t: STriangle, p: Vector) -> int {
    triple4(t.a, t.b, t.c, p)
}

/// `p` lies inside or on the solid bounded by the mesh's outward-facing
/// triangles; the empty mesh bounds the empty solid and contains
/// nothing.  Exact for convex solids, which is how the combiner
/// classifies whole triangles.
pub open spec fn point_inside(m: Seq<STriangle>, p: Vector) -> bool {
    m.len() > 0 && forall|i: int| 0 <= i < m.len() ==> tri_side(#[trigger] m[i], p) <= 0
}

/// `p` lies strictly inside the solid.
pub open spec fn point_strictly_inside(m: Seq<STriangle>, p: Vector) -> bool {
    m.len() > 0 && forall|i: int| 0 <= i < m.len() ==> tri_side(#[trigger] m[i], p) < 0
}

/// All corners of `t` lie inside or on the solid.
pub open spec fn tri_inside(m: Seq<STriangle>, t: STriangle) -> bool {
    point_inside(m, t.a) && point_inside(m, t.b) && point_inside(m, t.c)
}

/// All corners of `t` lie strictly inside the solid.
pub open spec fn tri_strictly_inside(m: Seq<STriangle>, t: STriangle) -> bool {
    point_strictly_inside(m, t.a) && point_strictly_inside(m, t.b) && point_strictly_inside(
        m,
        t.c,
    )
}

/// A triangle with its orientation (and so its normal) reversed.
pub open spec fn tri_flipped(t: STriangle) -> STriangle {
    STriangle { a: t.a, b: t.c, c: t.b }
}

/// The triangles a boolean combination keeps.  `Union` keeps what is
/// not strictly swallowed by the other solid; `Difference` keeps the
/// running solid outside this one plus this one's wall inside the
/// running solid, reversed to face outward; `Intersection` keeps what
/// each solid admits of the other; `Assemble` keeps both untouched.
pub open spec fn spec_combine(
    run: Seq<STriangle>,
    this: Seq<STriangle>,
    how: crate::sketch::GroupCombineAs,
) -> Seq<STriangle> {
    match how {
        crate::sketch::GroupCombineAs::Union => run.filter(|t: STriangle| !tri_strictly_inside(this, t))
            + this.filter(|t: STriangle| !tri_strictly_inside(run, t)),
        crate::sketch::GroupCombineAs::Difference => run.filter(
            |t: STriangle| !tri_strictly_inside(this, t),
        ) + this.filter(|t: STriangle| tri_strictly_inside(run, t)).map_values(
            |t: STriangle| tri_flipped(t),
        ),
        crate::sketch::GroupCombineAs::Intersection => run.filter(
            |t: STriangle| tri_inside(this, t),
        ) + this.filter(|t: STriangle| tri_inside(run, t)),
        crate::sketch::GroupCombineAs::Assemble => run + this,
    }
}

/// Exact side classification of a point against a triangle's plane.
pub fn classify_point_plane(t: &STriangle, p: Vector) -> (r: BspClass)
    requires
        tri_wf(*t),
        p.wf(),
    ensures
        r == BspClass::Pos <==> tri_side(*t, p) > 0,
        r == BspClass::Neg <==> tri_side(*t, p) < 0,
        r == BspClass::Coplaner <==> tri_side(*t, p) == 0,
{
    let s = triple_sign(t.a, t.b, t.c, p);
    if s == 1 {
        BspClass::Pos
    } else if s == -1 {
        BspClass::Neg
    } else {
        BspClass::Coplaner
    }
}

/// Whether all of `t`'s corners lie (strictly, if asked) inside the
/// solid bounded by `m`.
fn check_tri_inside(m: &Vec<STriangle>, t: &STriangle, strict: bool) -> (r: bool)
    requires
        forall|i: int| 0 <= i < m@.len() ==> tri_wf(#[trigger] m@[i]),
        tri_wf(*t),
    ensures
        strict ==> (r <==> tri_strictly_inside(m@, *t)),
        !strict ==> (r <==> tri_inside(m@, *t)),
{
    if m.len() == 0 {
        return false;
    }
    let mut i: usize = 0;
    while i < m.len()
        invariant
            0 <= i <= m@.len(),
            m@.len() > 0,
            forall|k: int| 0 <= k < m@.len() ==> tri_wf(#[trigger] m@[k]),
            tri_wf(*t),
            strict ==> forall|k: int|
                0 <= k < i ==> tri_side(#[trigger] m@[k], t.a) < 0 && tri_side(m@[k], t.b) < 0
                    && tri_side(m@[k], t.c) < 0,
            !strict ==> forall|k: int|
                0 <= k < i ==> tri_side(#[trigger] m@[k], t.a) <= 0 && tri_side(m@[k], t.b) <= 0
                    && tri_side(m@[k], t.c) <= 0,
        decreases m@.len() - i,
    {
        let sa = triple_sign(m[i].a, m[i].b, m[i].c, t.a);
        let sb = triple_sign(m[i].a, m[i].b, m[i].c, t.b);
        let sc = triple_sign(m[i].a, m[i].b, m[i].c, t.c);
        if strict {
            if sa >= 0 || sb >= 0 || sc >= 0 {
                return false;
            }
        } else {
            if sa == 1 || sb == 1 || sc == 1 {
                return false;
            }
        }
        i = i + 1;
    }
    true
}

/// Append to `out` the triangles of `src` whose strict-insideness in
/// `other` matches `keep_inside`, flipping them if asked.
fn push_classified(
    out: &mut Vec<STriangle>,
    src: &Vec<STriangle>,
    other: &Vec<STriangle>,
    keep_inside: bool,
    strict: bool,
    flip: bool,
)
    requires
        forall|i: int| 0 <= i < src@.len() ==> tri_wf(#[trigger] src@[i]),
        forall|i: int| 0 <= i < other@.len() ==> tri_wf(#[trigger] other@[i]),
    ensures
        ({
            let kept = if strict {
                if keep_inside {
                    src@.filter(|t: STriangle| tri_strictly_inside(other@, t))
                } else {
                    src@.filter(|t: STriangle| !tri_strictly_inside(other@, t))
                }
            } else {
                if keep_inside {
                    src@.filter(|t: STriangle| tri_inside(other@, t))
                } else {
                    src@.filter(|t: STriangle| !tri_inside(other@, t))
                }
            };
            final(out)@ == old(out)@ + (if flip {
                kept.map_values(|t: STriangle| tri_flipped(t))
            } else {
                kept
            })
        }),
{
    broadcast use vstd::seq_lib::group_seq_properties;

    let ghost pred: spec_fn(STriangle) -> bool = if strict {
        if keep_inside {
            |t: STriangle| tri_strictly_inside(other@, t)
        } else {
            |t: STriangle| !tri_strictly_inside(other@, t)
        }
    } else {
        if keep_inside {
            |t: STriangle| tri_inside(other@, t)
        } else {
            |t: STriangle| !tri_inside(other@, t)
        }
    };
    let mut i: usize = 0;
    while i < src.len()
        invariant
            0 <= i <= src@.len(),
            forall|k: int| 0 <= k < src@.len() ==> tri_wf(#[trigger] src@[k]),
            forall|k: int| 0 <= k < other@.len() ==> tri_wf(#[trigger] other@[k]),
            pred == (if strict {
                if keep_inside {
                    |t: STriangle| tri_strictly_inside(other@, t)
                } else {
                    |t: STriangle| !tri_strictly_inside(other@, t)
                }
            } else {
                if keep_inside {
                    |t: STriangle| tri_inside(other@, t)
                } else {
                    |t: STriangle| !tri_inside(other@, t)
                }
            }),
            out@ == old(out)@ + (if flip {
                src@.subrange(0, i as int).filter(pred).map_values(|t: STriangle| tri_flipped(t))
            } else {
                src@.subrange(0, i as int).filter(pred)
            }),
        decreases src@.len() - i,
    {
        let t = src[i];
        let inside = check_tri_inside(other, &t, strict);
        let keep = if keep_inside {
            inside
        } else {
            !inside
        };
        proof {
            let pre = src@.subrange(0, i as int);
            let post = src@.subrange(0, i + 1);
            assert(post =~= pre + seq![src@[i as int]]);

            Seq::<STriangle>::filter_distributes_over_add(pre, seq![src@[i as int]], pred);
            reveal_with_fuel(Seq::filter, 3);
            assert(seq![src@[i as int]].drop_last() =~= Seq::<STriangle>::empty());
            if keep {
                assert(seq![src@[i as int]].filter(pred) =~= seq![src@[i as int]]);
            } else {
                assert(seq![src@[i as int]].filter(pred) =~= Seq::<STriangle>::empty());
            }
        }
        if keep {
            if flip {
                out.push(STriangle { a: t.a, b: t.c, c: t.b });
            } else {
                out.push(t);
            }
        }
        proof {
            let post = src@.subrange(0, i + 1);
            if flip {
                assert(out@ =~= old(out)@ + post.filter(pred).map_values(
                    |t: STriangle| tri_flipped(t),
                ));
            } else {
                assert(out@ =~= old(out)@ + post.filter(pred));
            }
        }
        i = i + 1;
    }
    proof {
        assert(src@.subrange(0, src@.len() as int) =~= src@);
    }
}

/// Combine this group's solid with the running solid.  Whole triangles
/// are kept or dropped by exact plane-side classification of their
/// corners, which decides containment exactly for convex solids; the
/// empty running solid behaves as the empty set under every operation.
pub fn combine_meshes(
    run: &SMesh,
    this: &SMesh,
    how: crate::sketch::GroupCombineAs,
) -> (r: SMesh)
    requires
        forall|i: int| 0 <= i < run.l@.len() ==> tri_wf(#[trigger] run.l@[i]),
        forall|i: int| 0 <= i < this.l@.len() ==> tri_wf(#[trigger] this.l@[i]),
    ensures
        r.l@ == spec_combine(run.l@, this.l@, how),
{
    let mut out: Vec<STriangle> = Vec::new();
    match how {
        crate::sketch::GroupCombineAs::Union => {
            push_classified(&mut out, &run.l, &this.l, false, true, false);
            push_classified(&mut out, &this.l, &run.l, false, true, false);
        },
        crate::sketch::GroupCombineAs::Difference => {
            push_classified(&mut out, &run.l, &this.l, false, true, false);
            push_classified(&mut out, &this.l, &run.l, true, true, true);
        },
        crate::sketch::GroupCombineAs::Intersection => {
            push_classified(&mut out, &run.l, &this.l, true, false, false);
            push_classified(&mut out, &this.l, &run.l, true, false, false);
        },
        crate::sketch::GroupCombineAs::Assemble => {
            let mut i: usize = 0;
            while i < run.l.len()
                invariant
                    0 <= i <= run.l@.len(),
                    out@ =~= run.l@.subrange(0, i as int),
                decreases run.l@.len() - i,
            {
                out.push(run.l[i]);
                proof {
                    assert(out@ =~= run.l@.subrange(0, i + 1));
                }
                i = i + 1;
            }
            proof {
                assert(out@ =~= run.l@);
            }
            let mut j: usize = 0;
            while j < this.l.len()
                invariant
                    0 <= j <= this.l@.len(),
                    out@ =~= run.l@ + this.l@.subrange(0, j as int),
                decreases this.l@.len() - j,
            {
                out.push(this.l[j]);
                proof {
                    assert(out@ =~= run.l@ + this.l@.subrange(0, j + 1));
                }
                j = j + 1;
            }
            proof {
                assert(this.l@.subrange(0, this.l@.len() as int) =~= this.l@);
            }
        },
    }
    proof {
        if out@ != spec_combine(run.l@, this.l@, how) {
            assert(out@ =~= spec_combine(run.l@, this.l@, how));
        }
    }
    SMesh { l: out }
}

/// A filter that keeps everything is the identity; one that keeps
/// nothing is empty.
proof fn lemma_filter_const<A>(s: Seq<A>, pred: spec_fn(A) -> bool)
    ensures
        (forall|i: int| 0 <= i < s.len() ==> pred(#[trigger] s[i])) ==> s.filter(pred) =~= s,
        (forall|i: int| 0 <= i < s.len() ==> !pred(#[trigger] s[i])) ==> s.filter(pred)
            =~= Seq::<A>::empty(),
    decreases s.len(),
{
    reveal_with_fuel(Seq::filter, 3);
    if s.len() > 0 {
        lemma_filter_const(s.drop_last(), pred);
        assert(forall|i: int| 0 <= i < s.len() - 1 ==> s.drop_last()[i] == #[trigger] s[i]);
        assert(s.last() == s[s.len() - 1]);
        if forall|i: int| 0 <= i < s.len() ==> pred(#[trigger] s[i]) {
            assert(s.drop_last().push(s.last()) =~= s);
        }
    }
}

/// Combining with an empty running solid: a union or assembly yields
/// this group's own mesh unchanged, and an intersection or difference
/// yields the empty mesh.
pub proof fn lemma_combine_with_empty_running(run: Seq<STriangle>, this: Seq<STriangle>)
    requires
        run.len() == 0,
    ensures
        spec_combine(run, this, crate::sketch::GroupCombineAs::Union) =~= this,
        spec_combine(run, this, crate::sketch::GroupCombineAs::Assemble) =~= this,
        spec_combine(run, this, crate::sketch::GroupCombineAs::Intersection)
            =~= Seq::<STriangle>::empty(),
        spec_combine(run, this, crate::sketch::GroupCombineAs::Difference)
            =~= Seq::<STriangle>::empty(),
{
    reveal_with_fuel(Seq::filter, 3);
    assert(run =~= Seq::<STriangle>::empty());
    lemma_filter_const(this, |t: STriangle| !tri_strictly_inside(run, t));
    lemma_filter_const(this, |t: STriangle| tri_strictly_inside(run, t));
    lemma_filter_const(this, |t: STriangle| tri_inside(run, t));
    lemma_filter_const(run, |t: STriangle| !tri_strictly_inside(this, t));
    lemma_filter_const(run, |t: STriangle| tri_inside(this, t));
}

/// A point translated by `t`.
pub open spec fn shifted(p: Vector, t: Vector) -> Vector {
    Vector { x: (p.x + t.x) as i64, y: (p.y + t.y) as i64, z: (p.z + t.z) as i64 }
}

/// Coordinates small enough that translating by an equally small
/// vector stays admissible.
pub open spec fn half_wf(p: Vector) -> bool {
    &&& -500_000_000_000 <= p.x <= 500_000_000_000
    &&& -500_000_000_000 <= p.y <= 500_000_000_000
    &&& -500_000_000_000 <= p.z <= 500_000_000_000
}

/// First side triangle of the extrusion over edge `i` of the profile.
pub open spec fn ext_side_a(pts: Seq<Vector>, t: Vector, i: int) -> STriangle {
    let p = pts[i];
    let q = pts[if i + 1 == pts.len() { 0int } else { i + 1 }];
    STriangle { a: p, b: q, c: shifted(q, t) }
}

/// Second side triangle of the extrusion over edge `i` of the profile.
pub open spec fn ext_side_b(pts: Seq<Vector>, t: Vector, i: int) -> STriangle {
    let p = pts[i];
    let q = pts[if i + 1 == pts.len() { 0int } else { i + 1 }];
    STriangle { a: p, b: shifted(q, t), c: shifted(p, t) }
}

/// Fan triangle `j` of the bottom cap, wound against the profile so
/// its normal faces away from the sweep.
pub open spec fn ext_cap_bottom(pts: Seq<Vector>, j: int) -> STriangle {
    STriangle { a: pts[0], b: pts[j + 2], c: pts[j + 1] }
}

/// Fan triangle `j` of the top cap.
pub open spec fn ext_cap_top(pts: Seq<Vector>, t: Vector, j: int) -> STriangle {
    STriangle { a: shifted(pts[0], t), b: shifted(pts[j + 1], t), c: shifted(pts[j + 2], t) }
}

/// Sweep a closed planar profile along `trans` into a triangulated
/// solid: two side triangles per profile edge, then both caps as
/// triangle fans from the first profile point.  A profile of fewer
/// than three points yields the empty mesh.
#[verifier::rlimit(50)]
pub fn build_extrusion(profile: &Vec<Vector>, trans: Vector) -> (r: SMesh)
    requires
        profile@.len() < 0x4000_0000,
        forall|i: int| 0 <= i < profile@.len() ==> half_wf(#[trigger] profile@[i]),
        half_wf(trans),
    ensures
        profile@.len() < 3 ==> r.l@.len() == 0,
        profile@.len() >= 3 ==> {
            let n = profile@.len() as int;
            &&& r.l@.len() == 2 * n + 2 * (n - 2)
            &&& forall|i: int|
                0 <= i < n ==> r.l@[2 * i] == ext_side_a(profile@, trans, i) && r.l@[2 * i + 1]
                    == ext_side_b(profile@, trans, i)
            &&& forall|j: int|
                0 <= j < n - 2 ==> r.l@[2 * n + 2 * j] == ext_cap_bottom(profile@, j) && r.l@[2 * n
                    + 2 * j + 1] == ext_cap_top(profile@, trans, j)
        },
{
    let n = profile.len();
    if n < 3 {
        return SMesh { l: Vec::new() };
    }
    let mut out: Vec<STriangle> = Vec::new();
    let mut i: usize = 0;
    while i < n
        invariant
            0 <= i <= n,
            n == profile@.len(),
            3 <= n < 0x4000_0000,
            forall|k: int| 0 <= k < profile@.len() ==> half_wf(#[trigger] profile@[k]),
            half_wf(trans),
            out@.len() == 2 * i,
            forall|k: int|
                0 <= k < i ==> out@[2 * k] == ext_side_a(profile@, trans, k) && out@[2 * k + 1]
                    == ext_side_b(profile@, trans, k),
        decreases n - i,
    {
        let p = profile[i];
        let q = if i + 1 == n {
            profile[0]
        } else {
            profile[i + 1]
        };
        let qs = Vector { x: q.x + trans.x, y: q.y + trans.y, z: q.z + trans.z };
        let ps = Vector { x: p.x + trans.x, y: p.y + trans.y, z: p.z + trans.z };
        out.push(STriangle { a: p, b: q, c: qs });
        out.push(STriangle { a: p, b: qs, c: ps });
        i = i + 1;
    }
    let mut j: usize = 0;
    while j < n - 2
        invariant
            0 <= j <= n - 2,
            n == profile@.len(),
            3 <= n < 0x4000_0000,
            forall|k: int| 0 <= k < profile@.len() ==> half_wf(#[trigger] profile@[k]),
            half_wf(trans),
            out@.len() == 2 * n + 2 * j,
            forall|k: int|
                0 <= k < n ==> out@[2 * k] == ext_side_a(profile@, trans, k) && out@[2 * k + 1]
                    == ext_side_b(profile@, trans, k),
            forall|k: int|
                0 <= k < j ==> out@[2 * n + 2 * k] == ext_cap_bottom(profile@, k) && out@[2 * n + 2
                    * k + 1] == ext_cap_top(profile@, trans, k),
        decreases n - 2 - j,
    {
        let p0 = profile[0];
        let pa = profile[j + 1];
        let pb = profile[j + 2];
        let ghost prev = out@;
        out.push(STriangle { a: p0, b: pb, c: pa });
        let p0s = Vector { x: p0.x + trans.x, y: p0.y + trans.y, z: p0.z + trans.z };
        let pas = Vector { x: pa.x + trans.x, y: pa.y + trans.y, z: pa.z + trans.z };
        let pbs = Vector { x: pb.x + trans.x, y: pb.y + trans.y, z: pb.z + trans.z };
        out.push(STriangle { a: p0s, b: pas, c: pbs });
        proof {
            assert(out@[2 * n + 2 * j] == ext_cap_bottom(profile@, j as int));
            assert(out@[2 * n + 2 * j + 1] == ext_cap_top(profile@, trans, j as int));
            assert forall|k: int|
                0 <= k < j implies out@[2 * n as int + 2 * k] == ext_cap_bottom(profile@, k)
                    && out@[2 * n as int + 2 * k + 1] == ext_cap_top(profile@, trans, k) by {
                assert(prev[2 * n as int + 2 * k] == ext_cap_bottom(profile@, k));
                assert(prev[2 * n as int + 2 * k + 1] == ext_cap_top(profile@, trans, k));
                assert(out@[2 * n as int + 2 * k] == prev[2 * n as int + 2 * k]);
                assert(out@[2 * n as int + 2 * k + 1] == prev[2 * n as int + 2 * k + 1]);
            }
            assert forall|k: int|
                0 <= k < n implies out@[2 * k] == ext_side_a(profile@, trans, k) && out@[2 * k + 1]
                    == ext_side_b(profile@, trans, k) by {
                assert(out@[2 * k] == prev[2 * k]);
                assert(out@[2 * k + 1] == prev[2 * k + 1]);
            }
        }
        j = j + 1;
    }
    SMesh { l: out }
}

/// Smallest unused edge index at or after `j` incident to `cur`;
/// `-1` when none is left.
pub open spec fn find_next(edges: Seq<SEdge>, used: Seq<bool>, cur: Vector, j: int) -> int
    decreases edges.len() - j
        when 0 <= j
{
    if j >= edges.len() {
        -1
    } else if !used[j] && (edges[j].a == cur || edges[j].b == cur) {
        j
    } else {
        find_next(edges, used, cur, j + 1)
    }
}

/// The greedy contour walk: from the current point, follow the first
/// unused incident edge, until the walk returns to its start (one
/// closed contour, the repeated start point dropped) or sticks.
pub open spec fn spec_walk(
    edges: Seq<SEdge>,
    used: Seq<bool>,
    pts: Seq<Vector>,
    cur: Vector,
    start: Vector,
    fuel: nat,
) -> Option<Seq<Vector>>
    decreases fuel,
{
    if cur == start {
        Some(pts.drop_last())
    } else if fuel == 0 {
        None
    } else {
        let j = find_next(edges, used, cur, 0);
        if j < 0 {
            None
        } else {
            let nxt = if edges[j].a == cur {
                edges[j].b
            } else {
                edges[j].a
            };
            spec_walk(
                edges,
                used.update(j, true),
                pts.push(nxt),
                nxt,
                start,
                (fuel - 1) as nat,
            )
        }
    }
}

/// What `assemble_loop` extracts from an edge soup.
pub open spec fn spec_assemble(edges: Seq<SEdge>) -> Option<Seq<Vector>> {
    if edges.len() == 0 {
        None
    } else {
        spec_walk(
            edges,
            Seq::new(edges.len(), |i: int| i == 0),
            seq![edges[0].a, edges[0].b],
            edges[0].b,
            edges[0].a,
            edges.len(),
        )
    }
}

/// Find the first unused edge incident to `cur`, executable.
fn find_next_edge(edges: &Vec<SEdge>, used: &Vec<bool>, cur: Vector) -> (r: Option<usize>)
    requires
        edges@.len() == used@.len(),
    ensures
        match r {
            None => find_next(edges@, used@, cur, 0) == -1,
            Some(j) => j as int == find_next(edges@, used@, cur, 0) && j < edges@.len(),
        },
{
    let mut j: usize = 0;
    while j < edges.len()
        invariant
            0 <= j <= edges@.len(),
            edges@.len() == used@.len(),
            find_next(edges@, used@, cur, 0) == find_next(edges@, used@, cur, j as int),
        decreases edges@.len() - j,
    {
        if !used[j] && (edges[j].a == cur || edges[j].b == cur) {
            return Some(j);
        }
        j = j + 1;
    }
    None
}

/// Assemble one closed contour from the soup by the greedy walk from
/// the first edge.  `None` means the soup is empty or the walk stuck
/// or ran out of edges before closing; a closed, even-degree soup
/// always closes its first contour.
pub fn assemble_loop(edges: &Vec<SEdge>) -> (r: Option<Vec<Vector>>)
    requires
        edges@.len() < 0x4000_0000,
    ensures
        match r {
            None => spec_assemble(edges@) is None,
            Some(pts) => spec_assemble(edges@) == Some(pts@),
        },
{
    if edges.len() == 0 {
        return None;
    }
    let n = edges.len();
    let mut used: Vec<bool> = Vec::new();
    let mut k: usize = 0;
    while k < n
        invariant
            0 <= k <= n,
            used@.len() == k,
            forall|i: int| 0 <= i < k ==> used@[i] == (i == 0),
        decreases n - k,
    {
        used.push(k == 0);
        k = k + 1;
    }
    proof {
        assert(used@ =~= Seq::new(edges@.len(), |i: int| i == 0));
    }
    let start = edges[0].a;
    let mut pts: Vec<Vector> = Vec::new();
    pts.push(start);
    pts.push(edges[0].b);
    let mut cur = edges[0].b;
    let mut fuel: usize = n;
    proof {
        assert(pts@ =~= seq![edges@[0].a, edges@[0].b]);
    }
    loop
        invariant
            edges@.len() == n,
            used@.len() == n,
            0 < n < 0x4000_0000,
            pts@.len() >= 2,
            start == edges@[0].a,
            spec_assemble(edges@) == spec_walk(
                edges@,
                used@,
                pts@,
                cur,
                start,
                fuel as nat,
            ),
        decreases fuel,
    {
        if cur == start {
            pts.pop();
            return Some(pts);
        }
        if fuel == 0 {
            return None;
        }
        match find_next_edge(edges, &used, cur) {
            None => {
                return None;
            },
            Some(j) => {
                let nxt = if edges[j].a == cur {
                    edges[j].b
                } else {
                    edges[j].a
                };
                used[j] = true;
                pts.push(nxt);
                cur = nxt;
                fuel = fuel - 1;
            },
        }
    }
}

/// Some edge of the soup joins `p` and `q`, in either direction.
pub open spec fn spans_edge(edges: Seq<SEdge>, p: Vector, q: Vector) -> bool {
    exists|j: int|
        0 <= j < edges.len() && (((#[trigger] edges[j]).a == p && edges[j].b == q) || (edges[j].b
            == p && edges[j].a == q))
}

/// A non-negative result of `find_next` is a real index incident to
/// the current point.
proof fn lemma_find_next_incident(edges: Seq<SEdge>, used: Seq<bool>, cur: Vector, i: int)
    requires
        0 <= i,
        find_next(edges, used, cur, i) >= 0,
    ensures
        find_next(edges, used, cur, i) < edges.len(),
        ({
            let j = find_next(edges, used, cur, i);
            edges[j].a == cur || edges[j].b == cur
        }),
    decreases edges.len() - i,
{
    if i < edges.len() && !(!used[i] && (edges[i].a == cur || edges[i].b == cur)) {
        lemma_find_next_incident(edges, used, cur, i + 1);
    }
}

/// Along a successful walk, consecutive contour points always span an
/// edge, and the contour wraps: its last point joins its first.
proof fn lemma_walk_adjacency(
    edges: Seq<SEdge>,
    used: Seq<bool>,
    pts: Seq<Vector>,
    cur: Vector,
    start: Vector,
    fuel: nat,
    r: Seq<Vector>,
)
    requires
        spec_walk(edges, used, pts, cur, start, fuel) == Some(r),
        pts.len() >= 2,
        pts.last() == cur,
        pts[0] == start,
        forall|i: int| 0 <= i < pts.len() - 1 ==> spans_edge(edges, #[trigger] pts[i], pts[i + 1]),
    ensures
        r.len() >= 1,
        r[0] == start,
        forall|i: int| 0 <= i < r.len() - 1 ==> spans_edge(edges, #[trigger] r[i], r[i + 1]),
        r.len() >= 2 ==> spans_edge(edges, r.last(), r[0]),
    decreases fuel,
{
    if cur == start {
        assert(r == pts.drop_last());
        assert(forall|i: int| 0 <= i < r.len() ==> r[i] == pts[i]);
        if r.len() >= 2 {
            assert(spans_edge(edges, pts[pts.len() - 2], pts[pts.len() - 1]));
            assert(pts[pts.len() - 1] == start);
            assert(r.last() == pts[pts.len() - 2]);
        }
    } else {
        let j = find_next(edges, used, cur, 0);
        lemma_find_next_incident(edges, used, cur, 0);
        let nxt = if edges[j].a == cur {
            edges[j].b
        } else {
            edges[j].a
        };
        assert(spans_edge(edges, cur, nxt));
        let pts2 = pts.push(nxt);
        assert(pts2.last() == nxt);
        assert(pts2[0] == start);
        assert(forall|i: int|
            0 <= i < pts.len() - 1 ==> #[trigger] pts2[i] == pts[i] && pts2[i + 1] == pts[i
                + 1]);
        assert(pts2[pts.len() - 1] == cur && pts2[pts.len() as int] == nxt);
        assert(forall|i: int|
            0 <= i < pts2.len() - 1 ==> spans_edge(edges, #[trigger] pts2[i], pts2[i + 1]));
        lemma_walk_adjacency(
            edges,
            used.update(j, true),
            pts2,
            nxt,
            start,
            (fuel - 1) as nat,
            r,
        );
    }
}

/// What an assembled contour means geometrically: it starts at the
/// first edge's first endpoint, every pair of consecutive points spans
/// an edge of the soup, and the contour closes back onto its start.
pub proof fn lemma_contour_adjacency(edges: Seq<SEdge>, pts: Seq<Vector>)
    requires
        spec_assemble(edges) == Some(pts),
    ensures
        edges.len() > 0,
        pts.len() >= 1,
        pts[0] == edges[0].a,
        forall|i: int| 0 <= i < pts.len() - 1 ==> spans_edge(edges, #[trigger] pts[i], pts[i + 1]),
        pts.len() >= 2 ==> spans_edge(edges, pts.last(), pts[0]),
{
    let pts0 = seq![edges[0].a, edges[0].b];
    assert(spans_edge(edges, edges[0].a, edges[0].b));
    assert(forall|i: int|
        0 <= i < pts0.len() - 1 ==> spans_edge(edges, #[trigger] pts0[i], pts0[i + 1]));
    lemma_walk_adjacency(
        edges,
        Seq::new(edges.len(), |i: int| i == 0),
        pts0,
        edges[0].b,
        edges[0].a,
        edges.len(),
        pts,
    );
}

} // verus!
