use vstd::prelude::*;

verus! {

/// A plane coordinate of a mesh vertex, given as a key: two coordinates
/// are equal exactly when their keys are equal.
pub type CoordKey = u32;

/// A face of the PLY mesh: three indices into its vertex list.
pub type Face = (i32, i32, i32);

/// A corner of a bottom triangle of the plate: `v` is the index of the
/// vertex in the list of triangulated points, `x`, `y`, `z` its coordinates.
#[derive(Clone, Copy, Debug, PartialEq, Eq, Structural)]
pub struct VertexIndex {
    pub v: i32,
    pub x: CoordKey,
    pub y: CoordKey,
    pub z: CoordKey,
}

/// A bottom triangle of the plate, as the three corners that the
/// triangulation gave it.
#[derive(Clone, Copy, Debug, PartialEq, Eq, Structural)]
pub struct TriangleIndex {
    pub a: VertexIndex,
    pub b: VertexIndex,
    pub c: VertexIndex,
}

/// Whether a corner lies at the plane point `(x, y)`.
pub open spec fn at_point(p: VertexIndex, x: CoordKey, y: CoordKey) -> bool {
    p.x == x && p.y == y
}

/// The index of the first corner of `t` (in the order `a`, `b`, `c`) that
/// lies at `(x, y)`, or `-1` when none does.
pub open spec fn spec_search(t: TriangleIndex, x: CoordKey, y: CoordKey) -> i32 {
    if at_point(t.a, x, y) {
        t.a.v
    } else if at_point(t.b, x, y) {
        t.b.v
    } else if at_point(t.c, x, y) {
        t.c.v
    } else {
        -1i32
    }
}

/// The vertex index that a search of the triangles, in order, finds for
/// `(x, y)`: the result of the first triangle whose search gives something
/// other than `-1`, or `-1` when there is none.
pub open spec fn spec_find(ts: Seq<TriangleIndex>, x: CoordKey, y: CoordKey) -> i32
    decreases ts.len(),
{
    if ts.len() == 0 {
        -1i32
    } else if spec_search(ts[0], x, y) != -1 {
        spec_search(ts[0], x, y)
    } else {
        spec_find(ts.drop_first(), x, y)
    }
}

/// Looking a plane point up among the corners of a triangle.
pub trait Find {
    fn search(self, x: CoordKey, y: CoordKey) -> i32;
}

impl Find for TriangleIndex {
    /// Returns the index of the first corner at `(x, y)`, or `-1`.
    fn search(self, x: CoordKey, y: CoordKey) -> (r: i32)
        ensures
            r == spec_search(self, x, y),
    {
        if self.a.x == x && self.a.y == y {
            return self.a.v;
        }
        if self.b.x == x && self.b.y == y {
            return self.b.v;
        }
        if self.c.x == x && self.c.y == y {
            return self.c.v;
        }
        return -1;
    }
}

/// Searches the triangles in order for a corner at `(x, y)` and returns
/// the vertex index found, or `-1`.
pub fn find_vertex(triangles: &Vec<TriangleIndex>, x: CoordKey, y: CoordKey) -> (r: i32)
    ensures
        r == spec_find(triangles@, x, y),
{
    let n = triangles.len();
    let mut i: usize = 0;
    assert(triangles@.subrange(0, n as int) =~= triangles@);
    while i < n
        invariant
            n == triangles@.len(),
            i <= n,
            spec_find(triangles@, x, y) == spec_find(triangles@.subrange(i as int, n as int), x, y),
        decreases n - i,
    {
        let rest = Ghost(triangles@.subrange(i as int, n as int));
        assert(rest@[0] == triangles@[i as int]);
        let found = triangles[i].search(x, y);
        if found != -1 {
            return found;
        }
        assert(rest@.drop_first() =~= triangles@.subrange(i + 1, n as int));
        i = i + 1;
    }
    assert(triangles@.subrange(n as int, n as int).len() == 0);
    -1
}

/// The bottom face of a triangle: its three vertex indices.
pub open spec fn bottom_face(t: TriangleIndex) -> Face {
    (t.a.v, t.b.v, t.c.v)
}

/// The top face of a triangle: the indices of the copies of its corners
/// `h` places further on in the vertex list.
pub open spec fn top_face(t: TriangleIndex, h: int) -> Face {
    ((t.a.v + h) as i32, (t.b.v + h) as i32, (t.c.v + h) as i32)
}

/// The faces of the bottom of the plate.
pub open spec fn bottom_faces(ts: Seq<TriangleIndex>) -> Seq<Face> {
    ts.map_values(|t: TriangleIndex| bottom_face(t))
}

/// The faces of the top of the plate.
pub open spec fn top_faces(ts: Seq<TriangleIndex>, h: int) -> Seq<Face> {
    ts.map_values(|t: TriangleIndex| top_face(t, h))
}

/// The two faces of the side wall along the outline edge from `p` to `q`:
/// when both end points are corners of some triangle, the quad between
/// the bottom edge `i, j` and its top copy `i + h, j + h`; else nothing.
pub open spec fn wall_faces(
    ts: Seq<TriangleIndex>,
    h: int,
    p: (CoordKey, CoordKey),
    q: (CoordKey, CoordKey),
) -> Seq<Face> {
    let i = spec_find(ts, p.0, p.1);
    let j = spec_find(ts, q.0, q.1);
    if i != -1 && j != -1 {
        seq![((i + h) as i32, i, j), ((i + h) as i32, j, (j + h) as i32)]
    } else {
        Seq::empty()
    }
}

/// The wall faces along the first `n` edges of an outline, edge `k`
/// running from point `k` to point `k + 1`.
pub open spec fn outline_walls_upto(
    ts: Seq<TriangleIndex>,
    h: int,
    pts: Seq<(CoordKey, CoordKey)>,
    n: int,
) -> Seq<Face>
    decreases n,
{
    if n <= 0 {
        Seq::empty()
    } else {
        outline_walls_upto(ts, h, pts, n - 1) + wall_faces(ts, h, pts[n - 1], pts[n])
    }
}

/// The wall faces along every edge of an outline.
pub open spec fn outline_walls(
    ts: Seq<TriangleIndex>,
    h: int,
    pts: Seq<(CoordKey, CoordKey)>,
) -> Seq<Face> {
    outline_walls_upto(ts, h, pts, pts.len() - 1)
}

/// The wall faces of the first `n` outlines, in order.
pub open spec fn walls_upto(
    ts: Seq<TriangleIndex>,
    h: int,
    outlines: Seq<Vec<(CoordKey, CoordKey)>>,
    n: int,
) -> Seq<Face>
    decreases n,
{
    if n <= 0 {
        Seq::empty()
    } else {
        walls_upto(ts, h, outlines, n - 1) + outline_walls(ts, h, outlines[n - 1]@)
    }
}

/// The wall faces of all outlines.
pub open spec fn all_walls(
    ts: Seq<TriangleIndex>,
    h: int,
    outlines: Seq<Vec<(CoordKey, CoordKey)>>,
) -> Seq<Face> {
    walls_upto(ts, h, outlines, outlines.len() as int)
}

/// All faces of the solid plate: bottom faces, then their top copies,
/// then the side walls.
pub open spec fn spec_solid_faces(
    ts: Seq<TriangleIndex>,
    h: int,
    outlines: Seq<Vec<(CoordKey, CoordKey)>>,
) -> Seq<Face> {
    bottom_faces(ts) + top_faces(ts, h) + all_walls(ts, h, outlines)
}

/// Every corner index of every triangle, shifted by `h`, is still an `i32`.
pub open spec fn lift_fits(ts: Seq<TriangleIndex>, h: int) -> bool {
    forall|k: int|
        0 <= k < ts.len() ==> {
            &&& #[trigger] ts[k].a.v + h <= i32::MAX
            &&& ts[k].b.v + h <= i32::MAX
            &&& ts[k].c.v + h <= i32::MAX
        }
}

/// What a search finds is `-1` or a corner index, so it can be shifted
/// like the corners.
proof fn lemma_find_fits(ts: Seq<TriangleIndex>, h: int, x: CoordKey, y: CoordKey)
    requires
        0 <= h <= i32::MAX,
        lift_fits(ts, h),
    ensures
        spec_find(ts, x, y) + h <= i32::MAX,
    decreases ts.len(),
{
    if ts.len() > 0 {
        assert(ts[0].a.v + h <= i32::MAX);
        if spec_search(ts[0], x, y) == -1 {
            assert forall|k: int| 0 <= k < ts.drop_first().len() implies {
                &&& #[trigger] ts.drop_first()[k].a.v + h <= i32::MAX
                &&& ts.drop_first()[k].b.v + h <= i32::MAX
                &&& ts.drop_first()[k].c.v + h <= i32::MAX
            } by {
                assert(ts.drop_first()[k] == ts[k + 1]);
            }
            lemma_find_fits(ts.drop_first(), h, x, y);
        }
    }
}

/// Appends the wall faces of one outline.
fn push_outline_walls(
    faces: &mut Vec<Face>,
    triangles: &Vec<TriangleIndex>,
    h: i32,
    pts: &Vec<(CoordKey, CoordKey)>,
)
    requires
        h >= 0,
        lift_fits(triangles@, h as int),
    ensures
        final(faces)@ == old(faces)@ + outline_walls(triangles@, h as int, pts@),
{
    let ghost start = faces@;
    let len = pts.len();
    for vtx in 0..len
        invariant
            len == pts@.len(),
            h >= 0,
            lift_fits(triangles@, h as int),
            vtx < len ==> faces@ == start + outline_walls_upto(triangles@, h as int, pts@, vtx as int),
            vtx == len && len > 0 ==> faces@ == start + outline_walls_upto(
                triangles@,
                h as int,
                pts@,
                vtx - 1,
            ),
            vtx == len && len == 0 ==> faces@ == start,
    {
        if vtx + 1 < len {
            let p = pts[vtx];
            let q = pts[vtx + 1];
            let find_first = find_vertex(triangles, p.0, p.1);
            let find_second = find_vertex(triangles, q.0, q.1);
            proof {
                lemma_find_fits(triangles@, h as int, p.0, p.1);
                lemma_find_fits(triangles@, h as int, q.0, q.1);
            }
            let ghost before = faces@;
            if find_first != -1 && find_second != -1 {
                faces.push((find_first + h, find_first, find_second));
                faces.push((find_first + h, find_second, find_second + h));
            }
            assert(faces@ =~= before + wall_faces(triangles@, h as int, pts@[vtx as int], pts@[vtx + 1]));
            assert(faces@ =~= start + outline_walls_upto(triangles@, h as int, pts@, vtx + 1));
        } else {
            assert(vtx + 1 == len);
        }
    }
    assert(faces@ =~= start + outline_walls(triangles@, h as int, pts@));
}

/// The faces of the plate that is the triangulated outline extruded to
/// a solid: `points_len` vertices, the first half on the bottom and the
/// second half their copies on the top, `triangles` the bottom triangles
/// kept, and `outlines` the polylines whose consecutive points bound the
/// side walls.
pub fn solid_faces(
    points_len: usize,
    triangles: &Vec<TriangleIndex>,
    outlines: &Vec<Vec<(CoordKey, CoordKey)>>,
) -> (faces: Vec<Face>)
    requires
        points_len / 2 <= i32::MAX,
        lift_fits(triangles@, (points_len / 2) as int),
    ensures
        faces@ == spec_solid_faces(triangles@, (points_len / 2) as int, outlines@),
        corners_nonneg(triangles@) ==> faces@.len() == 2 * triangles@.len() + 2
            * joined_outline_edges_upto(triangles@, outlines@, outlines@.len() as int),
        corners_nonneg(triangles@) ==> forall|m: int, k: int|
            0 <= m < outlines@.len() && 0 <= k < outlines@[m]@.len() - 1
                && #[trigger] edge_joined_at(triangles@, outlines@[m]@, k) ==> wall_at(
                faces@,
                2 * triangles@.len() + 2 * joined_outline_edges_upto(triangles@, outlines@, m) + 2
                    * joined_edges_upto(triangles@, outlines@[m]@, k),
                triangles@,
                (points_len / 2) as int,
                outlines@[m]@[k],
                outlines@[m]@[k + 1],
            ),
{
    let h: i32 = (points_len / 2) as i32;
    let mut faces: Vec<Face> = Vec::new();
    let n = triangles.len();
    for k in 0..n
        invariant
            n == triangles@.len(),
            faces@ == bottom_faces(triangles@.subrange(0, k as int)),
    {
        let t = triangles[k];
        faces.push((t.a.v, t.b.v, t.c.v));
        assert(triangles@.subrange(0, k + 1) =~= triangles@.subrange(0, k as int).push(t));
        assert(faces@ =~= bottom_faces(triangles@.subrange(0, k + 1)));
    }
    assert(triangles@.subrange(0, n as int) =~= triangles@);
    let ghost bottoms = faces@;
    for k in 0..n
        invariant
            n == triangles@.len(),
            h == points_len / 2,
            lift_fits(triangles@, h as int),
            bottoms == bottom_faces(triangles@),
            faces@ == bottoms + top_faces(triangles@.subrange(0, k as int), h as int),
    {
        let t = triangles[k];
        assert(triangles@[k as int] == t);
        assert(t.a.v + h <= i32::MAX);
        faces.push((t.a.v + h, t.b.v + h, t.c.v + h));
        assert(triangles@.subrange(0, k + 1) =~= triangles@.subrange(0, k as int).push(t));
        assert(faces@ =~= bottoms + top_faces(triangles@.subrange(0, k + 1), h as int));
    }
    assert(triangles@.subrange(0, n as int) =~= triangles@);
    let ghost roof = faces@;
    let m = outlines.len();
    for j in 0..m
        invariant
            m == outlines@.len(),
            h == points_len / 2,
            lift_fits(triangles@, h as int),
            faces@ == roof + walls_upto(triangles@, h as int, outlines@, j as int),
    {
        push_outline_walls(&mut faces, triangles, h, &outlines[j]);
        assert(faces@ =~= roof + walls_upto(triangles@, h as int, outlines@, j + 1));
    }
    assert(faces@ =~= spec_solid_faces(triangles@, h as int, outlines@));
    proof {
        if corners_nonneg(triangles@) {
            lemma_walls_cover_outlines(triangles@, h as int, outlines@);
        }
    }
    faces
}


/// Whether the corner indices of every triangle lie in `[0, h)`, the
/// bottom half of a vertex list of `2 * h` points.
pub open spec fn corners_below(ts: Seq<TriangleIndex>, h: int) -> bool {
    forall|k: int|
        0 <= k < ts.len() ==> {
            &&& 0 <= #[trigger] ts[k].a.v < h
            &&& 0 <= ts[k].b.v < h
            &&& 0 <= ts[k].c.v < h
        }
}

/// Whether every index of every face lies in `[0, n)`.
pub open spec fn faces_within(faces: Seq<Face>, n: int) -> bool {
    forall|k: int|
        0 <= k < faces.len() ==> {
            &&& 0 <= #[trigger] faces[k].0 < n
            &&& 0 <= faces[k].1 < n
            &&& 0 <= faces[k].2 < n
        }
}

/// Whether some corner of `t` lies at `(x, y)`.
pub open spec fn corner_at(t: TriangleIndex, x: CoordKey, y: CoordKey) -> bool {
    at_point(t.a, x, y) || at_point(t.b, x, y) || at_point(t.c, x, y)
}

/// Whether some corner of `t` lies at `(x, y)` and has index `v`.
pub open spec fn corner_at_with(t: TriangleIndex, x: CoordKey, y: CoordKey, v: i32) -> bool {
    (at_point(t.a, x, y) && t.a.v == v) || (at_point(t.b, x, y) && t.b.v == v) || (at_point(
        t.c,
        x,
        y,
    ) && t.c.v == v)
}

/// Whether some corner of some triangle lies at `(x, y)`.
pub open spec fn has_corner_at(ts: Seq<TriangleIndex>, x: CoordKey, y: CoordKey) -> bool {
    exists|k: int| 0 <= k < ts.len() && #[trigger] corner_at(ts[k], x, y)
}

/// Whether some corner of some triangle lies at `(x, y)` and has index `v`.
pub open spec fn corner_with_index(
    ts: Seq<TriangleIndex>,
    x: CoordKey,
    y: CoordKey,
    v: i32,
) -> bool {
    exists|k: int| 0 <= k < ts.len() && #[trigger] corner_at_with(ts[k], x, y, v)
}

/// Looking a point up among triangles whose corner indices are not
/// negative finds something exactly when some corner lies at the point,
/// and what it finds is the index of a corner at that point.
pub proof fn lemma_find_corner(ts: Seq<TriangleIndex>, x: CoordKey, y: CoordKey)
    requires
        forall|k: int|
            0 <= k < ts.len() ==> {
                &&& 0 <= #[trigger] ts[k].a.v
                &&& 0 <= ts[k].b.v
                &&& 0 <= ts[k].c.v
            },
    ensures
        (spec_find(ts, x, y) != -1) <==> has_corner_at(ts, x, y),
        spec_find(ts, x, y) != -1 ==> corner_with_index(ts, x, y, spec_find(ts, x, y)),
    decreases ts.len(),
{
    if ts.len() > 0 {
        let rest = ts.drop_first();
        assert(0 <= ts[0].a.v);
        assert forall|k: int| 0 <= k < rest.len() implies {
            &&& 0 <= #[trigger] rest[k].a.v
            &&& 0 <= rest[k].b.v
            &&& 0 <= rest[k].c.v
        } by {
            assert(rest[k] == ts[k + 1]);
            assert(0 <= ts[k + 1].a.v);
        }
        lemma_find_corner(rest, x, y);
        if spec_search(ts[0], x, y) != -1 {
            assert(corner_at(ts[0], x, y));
            assert(corner_at_with(ts[0], x, y, spec_find(ts, x, y)));
        } else {
            if has_corner_at(ts, x, y) {
                let k = choose|k: int| 0 <= k < ts.len() && #[trigger] corner_at(ts[k], x, y);
                if k == 0 {
                    assert(0 <= ts[0].b.v && 0 <= ts[0].c.v);
                }
                assert(rest[k - 1] == ts[k]);
                assert(corner_at(rest[k - 1], x, y));
            }
            if has_corner_at(rest, x, y) {
                let k = choose|k: int| 0 <= k < rest.len() && #[trigger] corner_at(rest[k], x, y);
                assert(ts[k + 1] == rest[k]);
                assert(corner_at(ts[k + 1], x, y));
            }
            if spec_find(ts, x, y) != -1 {
                let v = spec_find(ts, x, y);
                let k = choose|k: int|
                    0 <= k < rest.len() && #[trigger] corner_at_with(rest[k], x, y, v);
                assert(ts[k + 1] == rest[k]);
                assert(corner_at_with(ts[k + 1], x, y, v));
            }
        }
    }
}

/// A search among triangles whose corners lie in `[0, h)` finds `-1` or an
/// index in `[0, h)`.
proof fn lemma_find_below(ts: Seq<TriangleIndex>, h: int, x: CoordKey, y: CoordKey)
    requires
        corners_below(ts, h),
    ensures
        spec_find(ts, x, y) == -1 || 0 <= spec_find(ts, x, y) < h,
    decreases ts.len(),
{
    if ts.len() > 0 {
        assert(0 <= ts[0].a.v < h);
        let rest = ts.drop_first();
        assert forall|k: int| 0 <= k < rest.len() implies {
            &&& 0 <= #[trigger] rest[k].a.v < h
            &&& 0 <= rest[k].b.v < h
            &&& 0 <= rest[k].c.v < h
        } by {
            assert(rest[k] == ts[k + 1]);
            assert(0 <= ts[k + 1].a.v < h);
        }
        lemma_find_below(rest, h, x, y);
    }
}

proof fn lemma_outline_walls_within(
    ts: Seq<TriangleIndex>,
    h: int,
    pts: Seq<(CoordKey, CoordKey)>,
    n: int,
)
    requires
        0 <= h,
        2 * h <= i32::MAX + 1,
        corners_below(ts, h),
        n < pts.len(),
    ensures
        faces_within(outline_walls_upto(ts, h, pts, n), 2 * h),
    decreases n,
{
    if n > 0 {
        lemma_outline_walls_within(ts, h, pts, n - 1);
        let p = pts[n - 1];
        let q = pts[n];
        lemma_find_below(ts, h, p.0, p.1);
        lemma_find_below(ts, h, q.0, q.1);
        let a = outline_walls_upto(ts, h, pts, n - 1);
        let w = wall_faces(ts, h, p, q);
        assert(faces_within(w, 2 * h));
        assert(outline_walls_upto(ts, h, pts, n) == a + w);
        assert forall|k: int| 0 <= k < (a + w).len() implies {
            &&& 0 <= #[trigger] (a + w)[k].0 < 2 * h
            &&& 0 <= (a + w)[k].1 < 2 * h
            &&& 0 <= (a + w)[k].2 < 2 * h
        } by {
            if k < a.len() {
                assert((a + w)[k] == a[k]);
                assert(0 <= a[k].0 < 2 * h);
            } else {
                assert((a + w)[k] == w[k - a.len()]);
                assert(0 <= w[k - a.len()].0 < 2 * h);
            }
        }
    }
}

proof fn lemma_walls_within(
    ts: Seq<TriangleIndex>,
    h: int,
    outlines: Seq<Vec<(CoordKey, CoordKey)>>,
    n: int,
)
    requires
        0 <= h,
        2 * h <= i32::MAX + 1,
        corners_below(ts, h),
        n <= outlines.len(),
    ensures
        faces_within(walls_upto(ts, h, outlines, n), 2 * h),
    decreases n,
{
    if n > 0 {
        lemma_walls_within(ts, h, outlines, n - 1);
        let pts = outlines[n - 1]@;
        if pts.len() > 0 {
            lemma_outline_walls_within(ts, h, pts, pts.len() - 1);
        }
        let a = walls_upto(ts, h, outlines, n - 1);
        let w = outline_walls(ts, h, pts);
        assert(faces_within(w, 2 * h));
        assert forall|k: int| 0 <= k < (a + w).len() implies {
            &&& 0 <= #[trigger] (a + w)[k].0 < 2 * h
            &&& 0 <= (a + w)[k].1 < 2 * h
            &&& 0 <= (a + w)[k].2 < 2 * h
        } by {
            if k < a.len() {
                assert((a + w)[k] == a[k]);
                assert(0 <= a[k].0 < 2 * h);
            } else {
                assert((a + w)[k] == w[k - a.len()]);
                assert(0 <= w[k - a.len()].0 < 2 * h);
            }
        }
    }
}

/// The mesh is well formed: when the triangles' corners index the bottom
/// half of a list of `2 * h` vertices, every face indexes that list.
pub proof fn lemma_solid_faces_within(
    ts: Seq<TriangleIndex>,
    h: int,
    outlines: Seq<Vec<(CoordKey, CoordKey)>>,
)
    requires
        0 <= h,
        2 * h <= i32::MAX + 1,
        corners_below(ts, h),
    ensures
        faces_within(spec_solid_faces(ts, h, outlines), 2 * h),
{
    lemma_walls_within(ts, h, outlines, outlines.len() as int);
    let b = bottom_faces(ts);
    let t = top_faces(ts, h);
    let w = all_walls(ts, h, outlines);
    assert forall|k: int| 0 <= k < (b + t + w).len() implies {
        &&& 0 <= #[trigger] (b + t + w)[k].0 < 2 * h
        &&& 0 <= (b + t + w)[k].1 < 2 * h
        &&& 0 <= (b + t + w)[k].2 < 2 * h
    } by {
        if k < b.len() {
            assert((b + t + w)[k] == b[k]);
            assert(0 <= ts[k].a.v < h);
        } else if k < b.len() + t.len() {
            assert((b + t + w)[k] == t[k - b.len()]);
            assert(0 <= ts[k - b.len()].a.v < h);
        } else {
            assert((b + t + w)[k] == w[k - b.len() - t.len()]);
            assert(0 <= w[k - b.len() - t.len()].0 < 2 * h);
        }
    }
}

/// The top of the plate mirrors its bottom: face `k` of the top is face
/// `k` of the bottom with every index moved on by `h`, and the walls come
/// after both.
pub proof fn lemma_top_mirrors_bottom(
    ts: Seq<TriangleIndex>,
    h: int,
    outlines: Seq<Vec<(CoordKey, CoordKey)>>,
    k: int,
)
    requires
        0 <= k < ts.len(),
        lift_fits(ts, h),
        h >= 0,
    ensures
        spec_solid_faces(ts, h, outlines).len() == 2 * ts.len() + all_walls(ts, h, outlines).len(),
        spec_solid_faces(ts, h, outlines)[k] == bottom_face(ts[k]),
        spec_solid_faces(ts, h, outlines)[ts.len() + k].0 == spec_solid_faces(ts, h, outlines)[k].0
            + h,
        spec_solid_faces(ts, h, outlines)[ts.len() + k].1 == spec_solid_faces(ts, h, outlines)[k].1
            + h,
        spec_solid_faces(ts, h, outlines)[ts.len() + k].2 == spec_solid_faces(ts, h, outlines)[k].2
            + h,
{
    assert(ts[k].a.v + h <= i32::MAX);
    let b = bottom_faces(ts);
    let t = top_faces(ts, h);
    let w = all_walls(ts, h, outlines);
    assert((b + t + w)[k] == b[k]);
    assert((b + t + w)[ts.len() + k] == t[k]);
}


/// Each outline edge gets a wall exactly when both of its end points are
/// corners of kept triangles: then two faces that join the bottom corners
/// `i`, `j` at its end points to their top copies, else none.
pub proof fn lemma_wall_faces(
    ts: Seq<TriangleIndex>,
    h: int,
    p: (CoordKey, CoordKey),
    q: (CoordKey, CoordKey),
)
    requires
        forall|k: int|
            0 <= k < ts.len() ==> {
                &&& 0 <= #[trigger] ts[k].a.v
                &&& 0 <= ts[k].b.v
                &&& 0 <= ts[k].c.v
            },
        0 <= h <= i32::MAX,
        lift_fits(ts, h),
    ensures
        wall_faces(ts, h, p, q).len() == (if has_corner_at(ts, p.0, p.1) && has_corner_at(
            ts,
            q.0,
            q.1,
        ) {
            2int
        } else {
            0int
        }),
        wall_faces(ts, h, p, q).len() == 2 ==> {
            let i = wall_faces(ts, h, p, q)[0].1;
            let j = wall_faces(ts, h, p, q)[0].2;
            &&& corner_with_index(ts, p.0, p.1, i)
            &&& corner_with_index(ts, q.0, q.1, j)
            &&& wall_faces(ts, h, p, q)[0].0 == i + h
            &&& wall_faces(ts, h, p, q)[1].0 == i + h
            &&& wall_faces(ts, h, p, q)[1].1 == j
            &&& wall_faces(ts, h, p, q)[1].2 == j + h
        },
{
    lemma_find_corner(ts, p.0, p.1);
    lemma_find_corner(ts, q.0, q.1);
    lemma_find_fits(ts, h, p.0, p.1);
    lemma_find_fits(ts, h, q.0, q.1);
}


/// Whether no corner index of any triangle is negative.
pub open spec fn corners_nonneg(ts: Seq<TriangleIndex>) -> bool {
    forall|k: int|
        0 <= k < ts.len() ==> {
            &&& 0 <= #[trigger] ts[k].a.v
            &&& 0 <= ts[k].b.v
            &&& 0 <= ts[k].c.v
        }
}

/// Whether both end points of edge `k` of an outline (from point `k` to
/// point `k + 1`) are corners of some kept triangle.
pub open spec fn edge_joined_at(
    ts: Seq<TriangleIndex>,
    pts: Seq<(CoordKey, CoordKey)>,
    k: int,
) -> bool {
    has_corner_at(ts, pts[k].0, pts[k].1) && has_corner_at(ts, pts[k + 1].0, pts[k + 1].1)
}

/// How many of the first `n` edges of an outline have both end points at
/// corners of kept triangles.
pub open spec fn joined_edges_upto(
    ts: Seq<TriangleIndex>,
    pts: Seq<(CoordKey, CoordKey)>,
    n: int,
) -> int
    decreases n,
{
    if n <= 0 {
        0
    } else {
        joined_edges_upto(ts, pts, n - 1) + if edge_joined_at(ts, pts, n - 1) {
            1int
        } else {
            0int
        }
    }
}

/// How many edges of the first `n` outlines have both end points at
/// corners of kept triangles.
pub open spec fn joined_outline_edges_upto(
    ts: Seq<TriangleIndex>,
    outlines: Seq<Vec<(CoordKey, CoordKey)>>,
    n: int,
) -> int
    decreases n,
{
    if n <= 0 {
        0
    } else {
        joined_outline_edges_upto(ts, outlines, n - 1) + joined_edges_upto(
            ts,
            outlines[n - 1]@,
            outlines[n - 1]@.len() - 1,
        )
    }
}

/// Whether `faces` holds, at `pos` and `pos + 1`, the side wall of the
/// edge from `p` to `q`: the quad between the bottom corners `i` at `p`
/// and `j` at `q` and their top copies `i + h`, `j + h`, as the faces
/// `(i + h, i, j)` and `(i + h, j, j + h)`.
pub open spec fn wall_at(
    faces: Seq<Face>,
    pos: int,
    ts: Seq<TriangleIndex>,
    h: int,
    p: (CoordKey, CoordKey),
    q: (CoordKey, CoordKey),
) -> bool {
    &&& 0 <= pos
    &&& pos + 1 < faces.len()
    &&& corner_with_index(ts, p.0, p.1, faces[pos].1)
    &&& corner_with_index(ts, q.0, q.1, faces[pos].2)
    &&& faces[pos].0 == faces[pos].1 + h
    &&& faces[pos + 1].0 == faces[pos].0
    &&& faces[pos + 1].1 == faces[pos].2
    &&& faces[pos + 1].2 == faces[pos].2 + h
}

/// Shifting a wall quad that sits in `a` to the same place in `a + w`,
/// or one that sits in `w` to its place after `a`.
proof fn lemma_wall_at_concat(
    a: Seq<Face>,
    w: Seq<Face>,
    pos: int,
    ts: Seq<TriangleIndex>,
    h: int,
    p: (CoordKey, CoordKey),
    q: (CoordKey, CoordKey),
)
    ensures
        wall_at(a, pos, ts, h, p, q) ==> wall_at(a + w, pos, ts, h, p, q),
        wall_at(w, pos, ts, h, p, q) ==> wall_at(a + w, a.len() + pos, ts, h, p, q),
{
    if wall_at(a, pos, ts, h, p, q) {
        assert((a + w)[pos] == a[pos]);
        assert((a + w)[pos + 1] == a[pos + 1]);
    }
    if wall_at(w, pos, ts, h, p, q) {
        assert((a + w)[a.len() + pos] == w[pos]);
        assert((a + w)[a.len() + pos + 1] == w[pos + 1]);
    }
}

proof fn lemma_outline_walls_shape(
    ts: Seq<TriangleIndex>,
    h: int,
    pts: Seq<(CoordKey, CoordKey)>,
    n: int,
)
    requires
        corners_nonneg(ts),
        0 <= h <= i32::MAX,
        lift_fits(ts, h),
        n < pts.len(),
    ensures
        outline_walls_upto(ts, h, pts, n).len() == 2 * joined_edges_upto(ts, pts, n),
        forall|k: int|
            0 <= k < n && #[trigger] edge_joined_at(ts, pts, k) ==> wall_at(
                outline_walls_upto(ts, h, pts, n),
                2 * joined_edges_upto(ts, pts, k),
                ts,
                h,
                pts[k],
                pts[k + 1],
            ),
    decreases n,
{
    if n > 0 {
        lemma_outline_walls_shape(ts, h, pts, n - 1);
        let a = outline_walls_upto(ts, h, pts, n - 1);
        let w = wall_faces(ts, h, pts[n - 1], pts[n]);
        lemma_wall_faces(ts, h, pts[n - 1], pts[n]);
        assert(outline_walls_upto(ts, h, pts, n) == a + w);
        assert forall|k: int| 0 <= k < n && #[trigger] edge_joined_at(ts, pts, k) implies wall_at(
            a + w,
            2 * joined_edges_upto(ts, pts, k),
            ts,
            h,
            pts[k],
            pts[k + 1],
        ) by {
            if k < n - 1 {
                lemma_wall_at_concat(a, w, 2 * joined_edges_upto(ts, pts, k), ts, h, pts[k], pts[k + 1]);
            } else {
                assert(wall_at(w, 0, ts, h, pts[k], pts[k + 1]));
                lemma_wall_at_concat(a, w, 0, ts, h, pts[k], pts[k + 1]);
            }
        }
    }
}

proof fn lemma_walls_shape(
    ts: Seq<TriangleIndex>,
    h: int,
    outlines: Seq<Vec<(CoordKey, CoordKey)>>,
    n: int,
)
    requires
        corners_nonneg(ts),
        0 <= h <= i32::MAX,
        lift_fits(ts, h),
        n <= outlines.len(),
    ensures
        walls_upto(ts, h, outlines, n).len() == 2 * joined_outline_edges_upto(ts, outlines, n),
        forall|m: int, k: int|
            0 <= m < n && 0 <= k < outlines[m]@.len() - 1 && #[trigger] edge_joined_at(
                ts,
                outlines[m]@,
                k,
            ) ==> wall_at(
                walls_upto(ts, h, outlines, n),
                2 * joined_outline_edges_upto(ts, outlines, m) + 2 * joined_edges_upto(
                    ts,
                    outlines[m]@,
                    k,
                ),
                ts,
                h,
                outlines[m]@[k],
                outlines[m]@[k + 1],
            ),
    decreases n,
{
    if n > 0 {
        lemma_walls_shape(ts, h, outlines, n - 1);
        let pts = outlines[n - 1]@;
        let a = walls_upto(ts, h, outlines, n - 1);
        let w = outline_walls(ts, h, pts);
        if pts.len() > 0 {
            lemma_outline_walls_shape(ts, h, pts, pts.len() - 1);
        }
        assert(w.len() == 2 * joined_edges_upto(ts, pts, pts.len() - 1));
        assert(walls_upto(ts, h, outlines, n) == a + w);
        assert forall|m: int, k: int|
            0 <= m < n && 0 <= k < outlines[m]@.len() - 1 && #[trigger] edge_joined_at(
                ts,
                outlines[m]@,
                k,
            ) implies wall_at(
            a + w,
            2 * joined_outline_edges_upto(ts, outlines, m) + 2 * joined_edges_upto(
                ts,
                outlines[m]@,
                k,
            ),
            ts,
            h,
            outlines[m]@[k],
            outlines[m]@[k + 1],
        ) by {
            let pos = 2 * joined_outline_edges_upto(ts, outlines, m) + 2 * joined_edges_upto(
                ts,
                outlines[m]@,
                k,
            );
            if m < n - 1 {
                lemma_wall_at_concat(a, w, pos, ts, h, outlines[m]@[k], outlines[m]@[k + 1]);
            } else {
                let inner = 2 * joined_edges_upto(ts, pts, k);
                assert(wall_at(w, inner, ts, h, pts[k], pts[k + 1]));
                lemma_wall_at_concat(a, w, inner, ts, h, pts[k], pts[k + 1]);
            }
        }
    }
}

/// Every outline gets its side walls, whatever its length: the faces are
/// the bottom faces, their top copies, and then, outline by outline and
/// edge by edge, exactly two wall faces for each edge whose end points
/// are both corners of kept triangles. So there are `2 * |ts|` faces plus
/// two per such edge, and the wall of edge `k` of outline `m` sits right
/// after the walls of the joined edges before it.
pub proof fn lemma_walls_cover_outlines(
    ts: Seq<TriangleIndex>,
    h: int,
    outlines: Seq<Vec<(CoordKey, CoordKey)>>,
)
    requires
        corners_nonneg(ts),
        0 <= h <= i32::MAX,
        lift_fits(ts, h),
    ensures
        spec_solid_faces(ts, h, outlines).len() == 2 * ts.len() + 2 * joined_outline_edges_upto(
            ts,
            outlines,
            outlines.len() as int,
        ),
        forall|m: int, k: int|
            0 <= m < outlines.len() && 0 <= k < outlines[m]@.len() - 1
                && #[trigger] edge_joined_at(ts, outlines[m]@, k) ==> wall_at(
                spec_solid_faces(ts, h, outlines),
                2 * ts.len() + 2 * joined_outline_edges_upto(ts, outlines, m) + 2
                    * joined_edges_upto(ts, outlines[m]@, k),
                ts,
                h,
                outlines[m]@[k],
                outlines[m]@[k + 1],
            ),
{
    lemma_walls_shape(ts, h, outlines, outlines.len() as int);
    let bt = bottom_faces(ts) + top_faces(ts, h);
    let w = all_walls(ts, h, outlines);
    assert(spec_solid_faces(ts, h, outlines) == bt + w);
    assert(bt.len() == 2 * ts.len());
    assert forall|m: int, k: int|
        0 <= m < outlines.len() && 0 <= k < outlines[m]@.len() - 1
            && #[trigger] edge_joined_at(ts, outlines[m]@, k) implies wall_at(
            bt + w,
            2 * ts.len() + 2 * joined_outline_edges_upto(ts, outlines, m) + 2 * joined_edges_upto(
                ts,
                outlines[m]@,
                k,
            ),
            ts,
            h,
            outlines[m]@[k],
            outlines[m]@[k + 1],
        ) by {
        let pos = 2 * joined_outline_edges_upto(ts, outlines, m) + 2 * joined_edges_upto(
            ts,
            outlines[m]@,
            k,
        );
        lemma_wall_at_concat(bt, w, pos, ts, h, outlines[m]@[k], outlines[m]@[k + 1]);
    }
}

} // verus!
