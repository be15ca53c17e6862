//! The road backbone and its derived geometry: named locations joined by
//! roads (ordered control-point chains) and cross-sections (junction
//! connectors across three locations). Building the network turns every
//! road and cross-section into a pair of offset boundary Bezier chains, a
//! centerline chain, and a tessellated centerline polyline.

use vstd::prelude::*;
use vstd::arithmetic::div_mod::lemma_fundamental_div_mod_converse;
use crate::geom::{
    boundary_bezier, boundary_bezier_spec, bezier_ok, bezier_point, bezier_point_spec,
    control_point_ok, geo_ok, Bezier, ControlPoint, Vec2, DIR_LIMIT, POS_HI, POS_LO,
};

verus! {

/// Largest number of control points a single road or cross-section may
/// carry (keeps every tessellation index small).
pub const MAX_POINTS: usize = 500;

/// Largest number of roads, and of cross-sections, a backbone may carry.
pub const MAX_SEGMENTS: usize = 100_000;

/// A named node of the road graph; its name is its identity.
#[derive(Debug)]
pub struct Location {
    pub name: Vec<u8>,
}

/// A directed road between two locations, described by its ordered
/// interior control points.
#[derive(Debug)]
pub struct Road {
    pub from: usize,
    pub to: usize,
    pub points: Vec<ControlPoint>,
}

/// A junction connector: entered from the road arriving at `across` out
/// of `from`, leaving toward `to`.
#[derive(Debug)]
pub struct CrossSection {
    pub from: usize,
    pub across: usize,
    pub to: usize,
    pub points: Vec<ControlPoint>,
}

/// The sparse description of a road network, before any curve is built.
#[derive(Debug)]
pub struct Backbone {
    pub locations: Vec<Location>,
    pub roads: Vec<Road>,
    pub cross_sections: Vec<CrossSection>,
}

/// Construction-time failures: a malformed backbone never yields a
/// network.
#[derive(Clone, Copy, PartialEq, Eq, Structural, Debug)]
pub enum BuildError {
    /// Two locations carry the same name.
    DuplicateLocation,
    /// A road or cross-section endpoint is no location of this graph.
    UnknownLocation,
    /// A road or cross-section has fewer than two control points.
    TooFewControlPoints,
    /// A road or cross-section has more than `MAX_POINTS` control points.
    TooManyControlPoints,
    /// The backbone has more than `MAX_SEGMENTS` roads or cross-sections.
    TooManySegments,
    /// A control point leaves the allowed coordinate or tangent ranges.
    BadControlPoint,
}

pub open spec fn points_ok(pts: Seq<ControlPoint>) -> bool {
    &&& 2 <= pts.len() <= MAX_POINTS
    &&& forall|i: int| 0 <= i < pts.len() ==> control_point_ok(#[trigger] pts[i])
}

pub open spec fn locations_distinct(locs: Seq<Location>) -> bool {
    forall|i: int, j: int|
        0 <= i < j < locs.len() ==> (#[trigger] locs[i]).name@ != (#[trigger] locs[j]).name@
}

pub open spec fn endpoints_known(b: Backbone) -> bool {
    &&& forall|i: int|
        0 <= i < b.roads@.len() ==> (#[trigger] b.roads@[i]).from < b.locations@.len()
            && b.roads@[i].to < b.locations@.len()
    &&& forall|i: int|
        0 <= i < b.cross_sections@.len() ==> (#[trigger] b.cross_sections@[i]).from
            < b.locations@.len() && b.cross_sections@[i].across < b.locations@.len()
            && b.cross_sections@[i].to < b.locations@.len()
}

pub open spec fn point_counts_at_least(b: Backbone) -> bool {
    &&& forall|i: int| 0 <= i < b.roads@.len() ==> (#[trigger] b.roads@[i]).points@.len() >= 2
    &&& forall|i: int|
        0 <= i < b.cross_sections@.len() ==> (#[trigger] b.cross_sections@[i]).points@.len() >= 2
}

pub open spec fn point_counts_at_most(b: Backbone) -> bool {
    &&& forall|i: int| 0 <= i < b.roads@.len() ==> (#[trigger] b.roads@[i]).points@.len() <= MAX_POINTS
    &&& forall|i: int|
        0 <= i < b.cross_sections@.len() ==> (#[trigger] b.cross_sections@[i]).points@.len()
            <= MAX_POINTS
}

pub open spec fn points_in_range(b: Backbone) -> bool {
    &&& forall|i: int, j: int|
        0 <= i < b.roads@.len() && 0 <= j < (#[trigger] b.roads@[i]).points@.len()
            ==> control_point_ok(#[trigger] b.roads@[i].points@[j])
    &&& forall|i: int, j: int|
        0 <= i < b.cross_sections@.len() && 0 <= j < (#[trigger] b.cross_sections@[i]).points@.len()
            ==> control_point_ok(#[trigger] b.cross_sections@[i].points@[j])
}

pub open spec fn segment_counts_ok(b: Backbone) -> bool {
    b.roads@.len() <= MAX_SEGMENTS && b.cross_sections@.len() <= MAX_SEGMENTS
}

/// A backbone from which geometry can be built.
pub open spec fn backbone_wf(b: Backbone) -> bool {
    &&& segment_counts_ok(b)
    &&& locations_distinct(b.locations@)
    &&& endpoints_known(b)
    &&& point_counts_at_least(b)
    &&& point_counts_at_most(b)
    &&& points_in_range(b)
}

/// The chain of boundary Bezier segments of one side of a road.
pub open spec fn boundary_seq_spec(pts: Seq<ControlPoint>, left: bool) -> Seq<Bezier> {
    Seq::new((pts.len() - 1) as nat, |i: int| boundary_bezier_spec(pts[i], pts[i + 1], left))
}

/// The centerline Bezier between two consecutive control points.
pub open spec fn center_bezier_spec(c1: ControlPoint, c2: ControlPoint) -> Bezier {
    Bezier {
        p0: c1.position,
        p1: Vec2 {
            x: (c1.position.x + c1.direction.x) as i64,
            y: (c1.position.y + c1.direction.y) as i64,
        },
        p2: Vec2 {
            x: (c2.position.x - c2.direction.x) as i64,
            y: (c2.position.y - c2.direction.y) as i64,
        },
        p3: c2.position,
    }
}

pub open spec fn center_seq_spec(pts: Seq<ControlPoint>) -> Seq<Bezier> {
    Seq::new((pts.len() - 1) as nat, |i: int| center_bezier_spec(pts[i], pts[i + 1]))
}

/// The tessellated polyline of a Bezier chain: 16 steps per segment plus
/// the final endpoint.
pub open spec fn tess_spec(bz: Seq<Bezier>) -> Seq<Vec2> {
    Seq::new(
        (16 * bz.len() + 1) as nat,
        |j: int|
            if j == 16 * bz.len() {
                bezier_point_spec(bz[bz.len() - 1], 16)
            } else {
                bezier_point_spec(bz[j / 16], j % 16)
            },
    )
}

/// Derived geometry of one road or cross-section: the two boundary
/// chains, the centerline chain, and the tessellated centerline.
#[derive(Debug)]
pub struct SegmentGeometry {
    pub left: Vec<Bezier>,
    pub right: Vec<Bezier>,
    pub center: Vec<Bezier>,
    pub center_tess: Vec<Vec2>,
}

/// `g` is exactly the geometry derived from the control points `pts`.
pub open spec fn seg_matches(g: SegmentGeometry, pts: Seq<ControlPoint>) -> bool {
    &&& g.left@ == boundary_seq_spec(pts, true)
    &&& g.right@ == boundary_seq_spec(pts, false)
    &&& g.center@ == center_seq_spec(pts)
    &&& g.center_tess@ == tess_spec(center_seq_spec(pts))
}

/// Boundary symmetry: the left and right boundary chains of any segment
/// geometry built from a valid control-point chain have the same number
/// of Bezier segments, one per consecutive control-point pair.
pub proof fn lemma_boundary_symmetry(g: SegmentGeometry, pts: Seq<ControlPoint>)
    requires
        seg_matches(g, pts),
        points_ok(pts),
    ensures
        g.left@.len() == g.right@.len(),
        g.left@.len() == pts.len() - 1,
{
}

/// Geometric continuity: inside one boundary chain, each segment ends
/// exactly where the next begins — no gap and no snap.
pub proof fn lemma_boundary_continuity(pts: Seq<ControlPoint>, left: bool, i: int)
    requires
        points_ok(pts),
        0 <= i < pts.len() - 2,
    ensures
        boundary_seq_spec(pts, left)[i].p3 == boundary_seq_spec(pts, left)[i + 1].p0,
{
}

/// The same continuity holds of the tessellated centerline: the final
/// vertex of one segment's steps is the first vertex of the next's.
pub proof fn lemma_tess_continuity(pts: Seq<ControlPoint>, i: int)
    requires
        points_ok(pts),
        0 <= i < pts.len() - 2,
    ensures
        bezier_point_spec(center_seq_spec(pts)[i], 16) == bezier_point_spec(
            center_seq_spec(pts)[i + 1],
            0,
        ),
{
}

/// Determinism of geometry construction: two geometries built from the
/// same control points are identical in every chain and every vertex.
pub proof fn lemma_build_deterministic(
    g1: SegmentGeometry,
    g2: SegmentGeometry,
    pts: Seq<ControlPoint>,
)
    requires
        seg_matches(g1, pts),
        seg_matches(g2, pts),
    ensures
        g1.left@ == g2.left@,
        g1.right@ == g2.right@,
        g1.center@ == g2.center@,
        g1.center_tess@ == g2.center_tess@,
{
}

pub proof fn lemma_center_bezier_ok(c1: ControlPoint, c2: ControlPoint)
    requires
        control_point_ok(c1),
        control_point_ok(c2),
    ensures
        bezier_ok(center_bezier_spec(c1, c2)),
{
}

/// Executable centerline Bezier.
fn center_bezier(c1: ControlPoint, c2: ControlPoint) -> (b: Bezier)
    requires
        control_point_ok(c1),
        control_point_ok(c2),
    ensures
        b == center_bezier_spec(c1, c2),
        bezier_ok(b),
{
    Bezier {
        p0: c1.position,
        p1: Vec2 { x: c1.position.x + c1.direction.x, y: c1.position.y + c1.direction.y },
        p2: Vec2 { x: c2.position.x - c2.direction.x, y: c2.position.y - c2.direction.y },
        p3: c2.position,
    }
}

/// Builds one boundary chain of a segment.
fn build_boundary(points: &Vec<ControlPoint>, left: bool) -> (bz: Vec<Bezier>)
    requires
        points_ok(points@),
    ensures
        bz@ == boundary_seq_spec(points@, left),
        bz@.len() == points@.len() - 1,
        forall|i: int| 0 <= i < bz@.len() ==> bezier_ok(#[trigger] bz@[i]),
{
    let n = points.len();
    let mut bz: Vec<Bezier> = Vec::new();
    let mut i: usize = 0;
    while i < n - 1
        invariant
            points_ok(points@),
            n == points@.len(),
            i <= n - 1,
            bz@.len() == i,
            forall|j: int|
                0 <= j < i ==> #[trigger] bz@[j] == boundary_bezier_spec(
                    points@[j],
                    points@[j + 1],
                    left,
                ),
            forall|j: int| 0 <= j < i ==> bezier_ok(#[trigger] bz@[j]),
        decreases n - 1 - i,
    {
        let b = boundary_bezier(points[i], points[i + 1], left);
        bz.push(b);
        i = i + 1;
    }
    proof {
        assert(bz@ =~= boundary_seq_spec(points@, left));
    }
    bz
}

/// Builds the centerline chain of a segment.
fn build_center(points: &Vec<ControlPoint>) -> (bz: Vec<Bezier>)
    requires
        points_ok(points@),
    ensures
        bz@ == center_seq_spec(points@),
        bz@.len() == points@.len() - 1,
        forall|i: int| 0 <= i < bz@.len() ==> bezier_ok(#[trigger] bz@[i]),
{
    let n = points.len();
    let mut bz: Vec<Bezier> = Vec::new();
    let mut i: usize = 0;
    while i < n - 1
        invariant
            points_ok(points@),
            n == points@.len(),
            i <= n - 1,
            bz@.len() == i,
            forall|j: int|
                0 <= j < i ==> #[trigger] bz@[j] == center_bezier_spec(points@[j], points@[j + 1]),
            forall|j: int| 0 <= j < i ==> bezier_ok(#[trigger] bz@[j]),
        decreases n - 1 - i,
    {
        let b = center_bezier(points[i], points[i + 1]);
        bz.push(b);
        i = i + 1;
    }
    proof {
        assert(bz@ =~= center_seq_spec(points@));
    }
    bz
}

/// Tessellates a Bezier chain into its polyline.
fn tessellate(bz: &Vec<Bezier>) -> (vs: Vec<Vec2>)
    requires
        1 <= bz@.len() <= MAX_POINTS,
        forall|i: int| 0 <= i < bz@.len() ==> bezier_ok(#[trigger] bz@[i]),
    ensures
        vs@ == tess_spec(bz@),
        vs@.len() == 16 * bz@.len() + 1,
        forall|i: int| 0 <= i < vs@.len() ==> geo_ok(#[trigger] vs@[i]),
{
    let m = bz.len();
    let mut vs: Vec<Vec2> = Vec::new();
    let mut s: usize = 0;
    while s < m
        invariant
            1 <= m <= MAX_POINTS,
            m == bz@.len(),
            forall|i: int| 0 <= i < bz@.len() ==> bezier_ok(#[trigger] bz@[i]),
            s <= m,
            vs@.len() == 16 * s,
            forall|j: int|
                0 <= j < vs@.len() ==> #[trigger] vs@[j] == bezier_point_spec(
                    bz@[j / 16],
                    j % 16,
                ),
            forall|j: int| 0 <= j < vs@.len() ==> geo_ok(#[trigger] vs@[j]),
        decreases m - s,
    {
        let mut k: usize = 0;
        while k < 16
            invariant
                1 <= m <= MAX_POINTS,
                m == bz@.len(),
                forall|i: int| 0 <= i < bz@.len() ==> bezier_ok(#[trigger] bz@[i]),
                s < m,
                k <= 16,
                vs@.len() == 16 * s + k,
                forall|j: int|
                    0 <= j < vs@.len() ==> #[trigger] vs@[j] == bezier_point_spec(
                        bz@[j / 16],
                        j % 16,
                    ),
                forall|j: int| 0 <= j < vs@.len() ==> geo_ok(#[trigger] vs@[j]),
            decreases 16 - k,
        {
            let v = bezier_point(bz[s], k as i64);
            proof {
                lemma_fundamental_div_mod_converse(
                    (16 * s + k) as int,
                    16,
                    s as int,
                    k as int,
                );
            }
            vs.push(v);
            k = k + 1;
        }
        s = s + 1;
    }
    let last = bezier_point(bz[m - 1], 16);
    vs.push(last);
    proof {
        assert(vs@ =~= tess_spec(bz@));
    }
    vs
}

/// Builds the full derived geometry of one road or cross-section.
pub fn build_segment_geometry(points: &Vec<ControlPoint>) -> (g: SegmentGeometry)
    requires
        points_ok(points@),
    ensures
        seg_matches(g, points@),
        seg_tess_ok(g),
        g.left@.len() == g.right@.len(),
        g.center_tess@.len() == 16 * (points@.len() - 1) + 1,
{
    let left = build_boundary(points, true);
    let right = build_boundary(points, false);
    let center = build_center(points);
    let center_tess = tessellate(&center);
    SegmentGeometry { left, right, center, center_tess }
}


/// Byte-wise name equality.
fn bytes_eq(a: &Vec<u8>, b: &Vec<u8>) -> (r: bool)
    ensures
        r <==> a@ == b@,
{
    if a.len() != b.len() {
        assert(a@ !~= b@);
        return false;
    }
    let n = a.len();
    let mut i: usize = 0;
    while i < n
        invariant
            n == a@.len() == b@.len(),
            i <= n,
            forall|j: int| 0 <= j < i ==> a@[j] == b@[j],
        decreases n - i,
    {
        if a[i] != b[i] {
            assert(a@ !~= b@);
            return false;
        }
        i = i + 1;
    }
    proof {
        assert(a@ =~= b@);
    }
    true
}

/// The error that `validate` and `build` report for a malformed
/// backbone, in checking order.
pub open spec fn first_build_error(b: Backbone) -> BuildError {
    if !segment_counts_ok(b) {
        BuildError::TooManySegments
    } else if !locations_distinct(b.locations@) {
        BuildError::DuplicateLocation
    } else if !endpoints_known(b) {
        BuildError::UnknownLocation
    } else if !point_counts_at_least(b) {
        BuildError::TooFewControlPoints
    } else if !point_counts_at_most(b) {
        BuildError::TooManyControlPoints
    } else {
        BuildError::BadControlPoint
    }
}

impl Backbone {
    /// Checks every construction rule: distinct location names, known
    /// endpoints, and per-segment control point counts and ranges.
    #[verifier::loop_isolation(false)]
    pub fn validate(&self) -> (r: Result<(), BuildError>)
        ensures
            r is Ok <==> backbone_wf(*self),
            !backbone_wf(*self) ==> r == Result::<(), BuildError>::Err(first_build_error(*self)),
    {
        if self.roads.len() > MAX_SEGMENTS || self.cross_sections.len() > MAX_SEGMENTS {
            return Err(BuildError::TooManySegments);
        }
        let nl = self.locations.len();
        let mut i: usize = 0;
        while i < nl
            invariant
                nl == self.locations@.len(),
                i <= nl,
                forall|p: int, q: int|
                    0 <= p < q < self.locations@.len() && p < i ==> (#[trigger] self.locations@[p]).name@
                        != (#[trigger] self.locations@[q]).name@,
            decreases nl - i,
        {
            let mut j: usize = i + 1;
            while j < nl
                invariant
                    nl == self.locations@.len(),
                    i < j || i + 1 == j,
                    i < nl,
                    i + 1 <= j <= nl,
                    forall|q: int|
                        i < q < j ==> (#[trigger] self.locations@[q]).name@
                            != self.locations@[i as int].name@,
                decreases nl - j,
            {
                if bytes_eq(&self.locations[i].name, &self.locations[j].name) {
                    return Err(BuildError::DuplicateLocation);
                }
                j = j + 1;
            }
            i = i + 1;
        }
        assert(locations_distinct(self.locations@));
        let nr = self.roads.len();
        let nc = self.cross_sections.len();
        let mut i: usize = 0;
        while i < nr
            invariant
                nr == self.roads@.len(),
                nl == self.locations@.len(),
                i <= nr,
                forall|p: int|
                    0 <= p < i ==> (#[trigger] self.roads@[p]).from < nl && self.roads@[p].to < nl,
            decreases nr - i,
        {
            if self.roads[i].from >= nl || self.roads[i].to >= nl {
                return Err(BuildError::UnknownLocation);
            }
            i = i + 1;
        }
        let mut i: usize = 0;
        while i < nc
            invariant
                nc == self.cross_sections@.len(),
                nl == self.locations@.len(),
                i <= nc,
                forall|p: int|
                    0 <= p < i ==> (#[trigger] self.cross_sections@[p]).from < nl
                        && self.cross_sections@[p].across < nl && self.cross_sections@[p].to < nl,
            decreases nc - i,
        {
            let c = &self.cross_sections[i];
            if c.from >= nl || c.across >= nl || c.to >= nl {
                return Err(BuildError::UnknownLocation);
            }
            i = i + 1;
        }
        assert(endpoints_known(*self));
        let mut i: usize = 0;
        while i < nr
            invariant
                nr == self.roads@.len(),
                i <= nr,
                forall|p: int| 0 <= p < i ==> (#[trigger] self.roads@[p]).points@.len() >= 2,
            decreases nr - i,
        {
            if self.roads[i].points.len() < 2 {
                return Err(BuildError::TooFewControlPoints);
            }
            i = i + 1;
        }
        let mut i: usize = 0;
        while i < nc
            invariant
                nc == self.cross_sections@.len(),
                i <= nc,
                forall|p: int| 0 <= p < i ==> (#[trigger] self.cross_sections@[p]).points@.len() >= 2,
            decreases nc - i,
        {
            if self.cross_sections[i].points.len() < 2 {
                return Err(BuildError::TooFewControlPoints);
            }
            i = i + 1;
        }
        assert(point_counts_at_least(*self));
        let mut i: usize = 0;
        while i < nr
            invariant
                nr == self.roads@.len(),
                i <= nr,
                forall|p: int| 0 <= p < i ==> (#[trigger] self.roads@[p]).points@.len() <= MAX_POINTS,
            decreases nr - i,
        {
            if self.roads[i].points.len() > MAX_POINTS {
                return Err(BuildError::TooManyControlPoints);
            }
            i = i + 1;
        }
        let mut i: usize = 0;
        while i < nc
            invariant
                nc == self.cross_sections@.len(),
                i <= nc,
                forall|p: int|
                    0 <= p < i ==> (#[trigger] self.cross_sections@[p]).points@.len() <= MAX_POINTS,
            decreases nc - i,
        {
            if self.cross_sections[i].points.len() > MAX_POINTS {
                return Err(BuildError::TooManyControlPoints);
            }
            i = i + 1;
        }
        assert(point_counts_at_most(*self));
        let mut i: usize = 0;
        while i < nr
            invariant
                nr == self.roads@.len(),
                i <= nr,
                forall|p: int, q: int|
                    0 <= p < i && 0 <= q < (#[trigger] self.roads@[p]).points@.len()
                        ==> control_point_ok(#[trigger] self.roads@[p].points@[q]),
            decreases nr - i,
        {
            if !points_all_ok(&self.roads[i].points) {
                return Err(BuildError::BadControlPoint);
            }
            i = i + 1;
        }
        let mut i: usize = 0;
        while i < nc
            invariant
                nc == self.cross_sections@.len(),
                i <= nc,
                forall|p: int, q: int|
                    0 <= p < i && 0 <= q < (#[trigger] self.cross_sections@[p]).points@.len()
                        ==> control_point_ok(#[trigger] self.cross_sections@[p].points@[q]),
            decreases nc - i,
        {
            if !points_all_ok(&self.cross_sections[i].points) {
                return Err(BuildError::BadControlPoint);
            }
            i = i + 1;
        }
        assert(points_in_range(*self));
        Ok(())
    }
}

/// Checks one control point against the allowed ranges.
fn control_point_check(c: &ControlPoint) -> (r: bool)
    ensures
        r == control_point_ok(*c),
{
    POS_LO <= c.position.x && c.position.x <= POS_HI && POS_LO <= c.position.y && c.position.y
        <= POS_HI && -DIR_LIMIT <= c.direction.x && c.direction.x <= DIR_LIMIT && -DIR_LIMIT
        <= c.direction.y && c.direction.y <= DIR_LIMIT && !(c.direction.x == 0 && c.direction.y
        == 0)
}

/// Checks every control point of one chain.
fn points_all_ok(pts: &Vec<ControlPoint>) -> (r: bool)
    ensures
        r <==> forall|q: int| 0 <= q < pts@.len() ==> control_point_ok(#[trigger] pts@[q]),
{
    let n = pts.len();
    let mut i: usize = 0;
    while i < n
        invariant
            n == pts@.len(),
            i <= n,
            forall|q: int| 0 <= q < i ==> control_point_ok(#[trigger] pts@[q]),
        decreases n - i,
    {
        if !control_point_check(&pts[i]) {
            return false;
        }
        i = i + 1;
    }
    true
}

/// The full derived road network: the backbone it was built from, one
/// lane geometry per road, and one connector geometry per cross-section.
#[derive(Debug)]
pub struct RoadNetwork {
    pub backbone: Backbone,
    pub lanes: Vec<SegmentGeometry>,
    pub cross_geometries: Vec<SegmentGeometry>,
}

/// Every tessellation vertex of `g` lies in the derived coordinate range.
pub open spec fn seg_tess_ok(g: SegmentGeometry) -> bool {
    &&& g.center_tess@.len() >= 1
    &&& forall|j: int| 0 <= j < g.center_tess@.len() ==> geo_ok(#[trigger] g.center_tess@[j])
}

pub open spec fn network_wf(n: RoadNetwork) -> bool {
    &&& backbone_wf(n.backbone)
    &&& n.lanes@.len() == n.backbone.roads@.len()
    &&& forall|i: int|
        0 <= i < n.lanes@.len() ==> seg_matches(
            #[trigger] n.lanes@[i],
            n.backbone.roads@[i].points@,
        ) && seg_tess_ok(n.lanes@[i])
    &&& n.cross_geometries@.len() == n.backbone.cross_sections@.len()
    &&& forall|i: int|
        0 <= i < n.cross_geometries@.len() ==> seg_matches(
            #[trigger] n.cross_geometries@[i],
            n.backbone.cross_sections@[i].points@,
        ) && seg_tess_ok(n.cross_geometries@[i])
}

impl RoadNetwork {
    /// Builds every lane and cross-section geometry of a backbone, or
    /// reports exactly why the backbone is malformed.
    #[verifier::loop_isolation(false)]
    pub fn build(backbone: Backbone) -> (r: Result<RoadNetwork, BuildError>)
        ensures
            r is Ok <==> backbone_wf(backbone),
            !backbone_wf(backbone) ==> r == Result::<RoadNetwork, BuildError>::Err(
                first_build_error(backbone),
            ),
            r matches Ok(n) ==> network_wf(n) && n.backbone == backbone,
    {
        if let Err(e) = backbone.validate() {
            return Err(e);
        }
        let nr = backbone.roads.len();
        let mut lanes: Vec<SegmentGeometry> = Vec::new();
        let mut i: usize = 0;
        while i < nr
            invariant
                backbone_wf(backbone),
                nr == backbone.roads@.len(),
                i <= nr,
                lanes@.len() == i,
                forall|p: int|
                    0 <= p < i ==> seg_matches(#[trigger] lanes@[p], backbone.roads@[p].points@)
                        && seg_tess_ok(lanes@[p]),
            decreases nr - i,
        {
            let g = build_segment_geometry(&backbone.roads[i].points);
            lanes.push(g);
            i = i + 1;
        }
        let nc = backbone.cross_sections.len();
        let mut cross_geometries: Vec<SegmentGeometry> = Vec::new();
        let mut i: usize = 0;
        while i < nc
            invariant
                backbone_wf(backbone),
                nc == backbone.cross_sections@.len(),
                i <= nc,
                cross_geometries@.len() == i,
                forall|p: int|
                    0 <= p < i ==> seg_matches(
                        #[trigger] cross_geometries@[p],
                        backbone.cross_sections@[p].points@,
                    ) && seg_tess_ok(cross_geometries@[p]),
            decreases nc - i,
        {
            let g = build_segment_geometry(&backbone.cross_sections[i].points);
            cross_geometries.push(g);
            i = i + 1;
        }
        Ok(RoadNetwork { backbone, lanes, cross_geometries })
    }
}

/// Network-level determinism: two networks built from one backbone hold
/// identical geometry, chain by chain and vertex by vertex.
pub proof fn lemma_network_deterministic(b: Backbone, n1: RoadNetwork, n2: RoadNetwork)
    requires
        network_wf(n1),
        network_wf(n2),
        n1.backbone == b,
        n2.backbone == b,
    ensures
        n1.lanes@.len() == n2.lanes@.len(),
        forall|i: int|
            0 <= i < n1.lanes@.len() ==> (#[trigger] n1.lanes@[i]).center_tess@
                == n2.lanes@[i].center_tess@ && n1.lanes@[i].left@ == n2.lanes@[i].left@
                && n1.lanes@[i].right@ == n2.lanes@[i].right@ && n1.lanes@[i].center@
                == n2.lanes@[i].center@,
        n1.cross_geometries@.len() == n2.cross_geometries@.len(),
        forall|i: int|
            0 <= i < n1.cross_geometries@.len() ==> (#[trigger] n1.cross_geometries@[i]).center_tess@
                == n2.cross_geometries@[i].center_tess@ && n1.cross_geometries@[i].left@
                == n2.cross_geometries@[i].left@ && n1.cross_geometries@[i].right@
                == n2.cross_geometries@[i].right@ && n1.cross_geometries@[i].center@
                == n2.cross_geometries@[i].center@,
{
}

} // verus!
