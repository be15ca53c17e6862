//! The render-facing mesh of the network: one shared vertex buffer of
//! tessellated boundary points, with index sequences for the filled road
//! triangles, the boundary lines, and each segment's right border (used
//! to highlight a chosen path). Only plain data is built here; uploading
//! it to a graphics device is a presentation concern.

use vstd::prelude::*;
use vstd::arithmetic::div_mod::lemma_fundamental_div_mod_converse;
use crate::geom::{bezier_ok, bezier_point, bezier_point_spec, lemma_boundary_bezier_ok, Bezier, Vec2};
use crate::network::{
    boundary_seq_spec, network_wf, points_ok, seg_matches, tess_spec, RoadNetwork, SegmentGeometry,
};

verus! {

/// Left and right tessellation vertices of one segment, interleaved.
pub open spec fn interleave(a: Seq<Vec2>, b: Seq<Vec2>) -> Seq<Vec2> {
    Seq::new(2 * a.len(), |j: int| if j % 2 == 0 { a[j / 2] } else { b[j / 2] })
}

/// The vertices one segment contributes to the mesh.
pub open spec fn seg_vertices(g: SegmentGeometry) -> Seq<Vec2> {
    interleave(tess_spec(boundary_seq_spec_of(g, true)), tess_spec(boundary_seq_spec_of(g, false)))
}

/// The stored boundary chain of one side.
pub open spec fn boundary_seq_spec_of(g: SegmentGeometry, left: bool) -> Seq<Bezier> {
    if left {
        g.left@
    } else {
        g.right@
    }
}

/// Tessellation steps of one segment.
pub open spec fn steps_of(g: SegmentGeometry) -> int {
    16 * g.left@.len() as int
}

pub open spec fn tri_pat(r: int) -> int {
    if r == 0 {
        0
    } else if r == 1 {
        1
    } else if r == 2 {
        2
    } else if r == 3 {
        2
    } else if r == 4 {
        1
    } else {
        3
    }
}

/// The two triangles of quad step `u / 6`, offset into the segment's
/// vertex block.
pub open spec fn seg_triangles(base: int, steps: int) -> Seq<usize> {
    Seq::new((6 * steps) as nat, |u: int| (base + 2 * (u / 6) + tri_pat(u % 6)) as usize)
}

pub open spec fn bord_pat(r: int) -> int {
    if r == 0 {
        0
    } else if r == 1 {
        2
    } else if r == 2 {
        1
    } else {
        3
    }
}

/// The left and right boundary line pieces of each step, framed by the
/// segment's opening and closing cross lines.
pub open spec fn seg_borders(base: int, steps: int) -> Seq<usize> {
    seq![base as usize, (base + 1) as usize] + Seq::new(
        (4 * steps) as nat,
        |u: int| (base + 2 * (u / 4) + bord_pat(u % 4)) as usize,
    ) + seq![(base + 2 * steps) as usize, (base + 2 * steps + 1) as usize]
}

/// The right-boundary line pieces of each step.
pub open spec fn seg_right_border(base: int, steps: int) -> Seq<usize> {
    Seq::new(
        (2 * steps) as nat,
        |u: int|
            (base + 2 * (u / 2) + if u % 2 == 0 {
                1int
            } else {
                3int
            }) as usize,
    )
}

/// All segments of the network, lanes first.
pub open spec fn all_segs(n: RoadNetwork) -> Seq<SegmentGeometry> {
    n.lanes@ + n.cross_geometries@
}

pub open spec fn mesh_vertices_of(segs: Seq<SegmentGeometry>) -> Seq<Vec2>
    decreases segs.len(),
{
    if segs.len() == 0 {
        Seq::empty()
    } else {
        mesh_vertices_of(segs.drop_last()) + seg_vertices(segs.last())
    }
}

pub open spec fn mesh_triangles_of(segs: Seq<SegmentGeometry>) -> Seq<usize>
    decreases segs.len(),
{
    if segs.len() == 0 {
        Seq::empty()
    } else {
        mesh_triangles_of(segs.drop_last()) + seg_triangles(
            mesh_vertices_of(segs.drop_last()).len() as int,
            steps_of(segs.last()),
        )
    }
}

pub open spec fn mesh_borders_of(segs: Seq<SegmentGeometry>) -> Seq<usize>
    decreases segs.len(),
{
    if segs.len() == 0 {
        Seq::empty()
    } else {
        mesh_borders_of(segs.drop_last()) + seg_borders(
            mesh_vertices_of(segs.drop_last()).len() as int,
            steps_of(segs.last()),
        )
    }
}

/// The mesh of the whole network.
pub struct RoadMesh {
    pub vertices: Vec<Vec2>,
    pub triangles: Vec<usize>,
    pub borders: Vec<usize>,
    pub right_borders: Vec<Vec<usize>>,
}

/// Every index of the mesh points into its vertex buffer.
pub open spec fn mesh_indices_ok(m: RoadMesh) -> bool {
    &&& forall|u: int|
        0 <= u < m.triangles@.len() ==> (#[trigger] m.triangles@[u]) < m.vertices@.len()
    &&& forall|u: int| 0 <= u < m.borders@.len() ==> (#[trigger] m.borders@[u]) < m.vertices@.len()
    &&& forall|s: int, u: int|
        0 <= s < m.right_borders@.len() && 0 <= u < m.right_borders@[s]@.len() ==> #[trigger] (
        m.right_borders@[s]@[u]) < m.vertices@.len()
}

/// `m` is exactly the mesh of the network's segments.
pub open spec fn mesh_matches(m: RoadMesh, n: RoadNetwork) -> bool {
    &&& m.vertices@ == mesh_vertices_of(all_segs(n))
    &&& m.triangles@ == mesh_triangles_of(all_segs(n))
    &&& m.borders@ == mesh_borders_of(all_segs(n))
    &&& m.right_borders@.len() == all_segs(n).len()
    &&& forall|s: int|
        0 <= s < all_segs(n).len() ==> (#[trigger] m.right_borders@[s])@ == seg_right_border(
            mesh_vertices_of(all_segs(n).subrange(0, s)).len() as int,
            steps_of(all_segs(n)[s]),
        )
}

/// Mesh determinism: two meshes of one network are identical — rebuilding
/// on an unchanged graph re-produces the same vertex data.
pub proof fn lemma_mesh_deterministic(m1: RoadMesh, m2: RoadMesh, n: RoadNetwork)
    requires
        mesh_matches(m1, n),
        mesh_matches(m2, n),
    ensures
        m1.vertices@ == m2.vertices@,
        m1.triangles@ == m2.triangles@,
        m1.borders@ == m2.borders@,
        forall|s: int|
            0 <= s < m1.right_borders@.len() ==> (#[trigger] m1.right_borders@[s])@
                == m2.right_borders@[s]@,
{
}

/// Appends one segment's interleaved boundary vertices, triangles, border
/// lines and right-border lines to the mesh buffers.
#[verifier::loop_isolation(false)]
#[verifier::rlimit(100)]
fn extend_from_boundaries(
    vertices: &mut Vec<Vec2>,
    triangles: &mut Vec<usize>,
    borders: &mut Vec<usize>,
    g: &SegmentGeometry,
) -> (right_border: Vec<usize>)
    requires
        1 <= g.left@.len() <= 499,
        g.right@.len() == g.left@.len(),
        forall|i: int| 0 <= i < g.left@.len() ==> bezier_ok(#[trigger] g.left@[i]),
        forall|i: int| 0 <= i < g.right@.len() ==> bezier_ok(#[trigger] g.right@[i]),
        forall|i: int| 0 <= i < g.left@.len() - 1 ==> (#[trigger] g.left@[i]).p3 == g.left@[i + 1].p0,
        forall|i: int|
            0 <= i < g.right@.len() - 1 ==> (#[trigger] g.right@[i]).p3 == g.right@[i + 1].p0,
        old(vertices)@.len() <= 0xc000_0000,
    ensures
        final(vertices)@ == old(vertices)@ + seg_vertices(*g),
        final(triangles)@ == old(triangles)@ + seg_triangles(
            old(vertices)@.len() as int,
            steps_of(*g),
        ),
        final(borders)@ == old(borders)@ + seg_borders(old(vertices)@.len() as int, steps_of(*g)),
        right_border@ == seg_right_border(old(vertices)@.len() as int, steps_of(*g)),
        final(vertices)@.len() == old(vertices)@.len() + 2 * (steps_of(*g) + 1),
{
    let base = vertices.len();
    let nbz = g.left.len();
    let steps: usize = 16 * nbz;
    let ghost ltess = tess_spec(g.left@);
    let ghost rtess = tess_spec(g.right@);
    let mut right_border: Vec<usize> = Vec::new();
    let v0 = bezier_point(g.left[0], 0);
    let v1 = bezier_point(g.right[0], 0);
    vertices.push(v0);
    vertices.push(v1);
    borders.push(base);
    borders.push(base + 1);
    let mut j: usize = 1;
    while j <= steps
        invariant
            1 <= j <= steps + 1,
            steps == 16 * nbz,
            nbz == g.left@.len(),
            vertices@.len() == base + 2 * j,
            vertices@.subrange(0, base as int) == old(vertices)@,
            forall|j2: int|
                0 <= j2 < 2 * j ==> #[trigger] vertices@[base + j2] == (if j2 % 2 == 0 {
                    ltess[j2 / 2]
                } else {
                    rtess[j2 / 2]
                }),
            triangles@ == old(triangles)@ + seg_triangles(base as int, (j - 1) as int),
            borders@ == old(borders)@ + seq![base, (base + 1) as usize] + Seq::new(
                (4 * (j - 1)) as nat,
                |u: int| (base + 2 * (u / 4) + bord_pat(u % 4)) as usize,
            ),
            right_border@ == seg_right_border(base as int, (j - 1) as int),
        decreases steps + 1 - j,
    {
        let bz: usize = (j - 1) / 16;
        let k: usize = (j - 1) % 16 + 1;
        proof {
            lemma_fundamental_div_mod_converse((j - 1) as int, 16, bz as int, (k - 1) as int);
            assert(bz < nbz && 1 <= k <= 16);
            if k < 16 {
                lemma_fundamental_div_mod_converse(j as int, 16, bz as int, k as int);
            } else {
                lemma_fundamental_div_mod_converse(j as int, 16, bz as int + 1, 0);
                if j < steps {
                    assert(ltess[j as int] == bezier_point_spec(g.left@[bz as int + 1], 0));
                    assert(bezier_point_spec(g.left@[bz as int + 1], 0) == g.left@[bz as int + 1].p0);
                    assert(bezier_point_spec(g.left@[bz as int], 16) == g.left@[bz as int].p3);
                    assert(rtess[j as int] == bezier_point_spec(g.right@[bz as int + 1], 0));
                    assert(bezier_point_spec(g.right@[bz as int + 1], 0) == g.right@[bz as int
                        + 1].p0);
                    assert(bezier_point_spec(g.right@[bz as int], 16) == g.right@[bz as int].p3);
                }
            }
            assert(ltess[j as int] == bezier_point_spec(g.left@[bz as int], k as int));
            assert(rtess[j as int] == bezier_point_spec(g.right@[bz as int], k as int));
        }
        let a = bezier_point(g.left[bz], k as i64);
        let b = bezier_point(g.right[bz], k as i64);
        let i1p: usize = base + 2 * (j - 1);
        let i2p: usize = i1p + 1;
        let i1: usize = i1p + 2;
        let i2: usize = i1p + 3;
        vertices.push(a);
        vertices.push(b);
        triangles.push(i1p);
        triangles.push(i2p);
        triangles.push(i1);
        triangles.push(i1);
        triangles.push(i2p);
        triangles.push(i2);
        borders.push(i1p);
        borders.push(i1);
        borders.push(i2p);
        borders.push(i2);
        right_border.push(i2p);
        right_border.push(i2);
        proof {
            let t = j - 1;
            assert forall|u: int| 0 <= u < 6 * j implies #[trigger] (old(triangles)@ + seg_triangles(
                base as int,
                j as int,
            ))[old(triangles)@.len() + u] == (base + 2 * (u / 6) + tri_pat(u % 6)) as usize by {
                if u < 6 * t {
                } else {
                    lemma_fundamental_div_mod_converse(u, 6, t as int, u - 6 * t);
                }
            }
            assert(triangles@ =~= old(triangles)@ + seg_triangles(base as int, j as int));
            assert forall|u: int| 4 * t <= u < 4 * j implies #[trigger] (u / 4) == t && u % 4 == u - 4 * t by {
                lemma_fundamental_div_mod_converse(u, 4, t as int, u - 4 * t);
            }
            assert(borders@ =~= old(borders)@ + seq![base, (base + 1) as usize] + Seq::new(
                (4 * j) as nat,
                |u: int| (base + 2 * (u / 4) + bord_pat(u % 4)) as usize,
            ));
            assert forall|u: int| 2 * t <= u < 2 * j implies #[trigger] (u / 2) == t && u % 2 == u - 2 * t by {
                lemma_fundamental_div_mod_converse(u, 2, t as int, u - 2 * t);
            }
            assert(right_border@ =~= seg_right_border(base as int, j as int));
        }
        j = j + 1;
    }
    borders.push(base + 2 * steps);
    borders.push(base + 2 * steps + 1);
    proof {
        assert forall|i: int| 0 <= i < vertices@.len() implies vertices@[i] == (old(vertices)@
            + seg_vertices(*g))[i] by {
            if i >= base {
                let j2 = i - base;
                assert(vertices@[base + j2] == (if j2 % 2 == 0 {
                    ltess[j2 / 2]
                } else {
                    rtess[j2 / 2]
                }));
            }
        }
        assert(vertices@ =~= old(vertices)@ + seg_vertices(*g));
        assert(borders@ =~= old(borders)@ + seg_borders(base as int, steps as int));
    }
    right_border
}

impl RoadMesh {
    /// Builds the mesh of every lane and cross-section of the network.
    #[verifier::loop_isolation(false)]
    pub fn build(n: &RoadNetwork) -> (m: RoadMesh)
        requires
            network_wf(*n),
        ensures
            mesh_matches(m, *n),
            mesh_indices_ok(m),
    {
        let nr = n.backbone.roads.len();
        let nc = n.backbone.cross_sections.len();
        let total = nr + nc;
        let mut vertices: Vec<Vec2> = Vec::new();
        let mut triangles: Vec<usize> = Vec::new();
        let mut borders: Vec<usize> = Vec::new();
        let mut right_borders: Vec<Vec<usize>> = Vec::new();
        let mut s: usize = 0;
        while s < total
            invariant
                s <= total,
                total == all_segs(*n).len(),
                vertices@ == mesh_vertices_of(all_segs(*n).subrange(0, s as int)),
                triangles@ == mesh_triangles_of(all_segs(*n).subrange(0, s as int)),
                borders@ == mesh_borders_of(all_segs(*n).subrange(0, s as int)),
                right_borders@.len() == s,
                forall|s2: int|
                    0 <= s2 < s ==> (#[trigger] right_borders@[s2])@ == seg_right_border(
                        mesh_vertices_of(all_segs(*n).subrange(0, s2)).len() as int,
                        steps_of(all_segs(*n)[s2]),
                    ),
                vertices@.len() <= 15970 * s,
                forall|u: int| 0 <= u < triangles@.len() ==> (#[trigger] triangles@[u])
                    < vertices@.len(),
                forall|u: int| 0 <= u < borders@.len() ==> (#[trigger] borders@[u])
                    < vertices@.len(),
                forall|s2: int, u: int|
                    0 <= s2 < s && 0 <= u < right_borders@[s2]@.len() ==> #[trigger] (
                    right_borders@[s2]@[u]) < vertices@.len(),
            decreases total - s,
        {
            let g: &SegmentGeometry = if s < nr {
                &n.lanes[s]
            } else {
                &n.cross_geometries[s - nr]
            };
            proof {
                assert(*g == all_segs(*n)[s as int]);
                if s < nr {
                    lemma_seg_beziers_ok(*n, n.lanes@[s as int], n.backbone.roads@[s as int].points@);
                } else {
                    lemma_seg_beziers_ok(
                        *n,
                        n.cross_geometries@[s as int - nr as int],
                        n.backbone.cross_sections@[s as int - nr as int].points@,
                    );
                }
            }
            let ghost vlen0 = vertices@.len() as int;
            let rb = extend_from_boundaries(&mut vertices, &mut triangles, &mut borders, g);
            right_borders.push(rb);
            proof {
                let pre = all_segs(*n).subrange(0, s as int);
                let post = all_segs(*n).subrange(0, s as int + 1);
                assert(post.drop_last() =~= pre);
                assert(post.last() == *g);
                lemma_seg_index_bounds(*g, vlen0);
            }
            s = s + 1;
        }
        proof {
            assert(all_segs(*n).subrange(0, total as int) =~= all_segs(*n));
        }
        RoadMesh { vertices, triangles, borders, right_borders }
    }
}

/// Index values a segment contributes stay below the vertex count it
/// leaves behind.
proof fn lemma_seg_index_bounds(g: SegmentGeometry, base: int)
    requires
        base >= 0,
        g.left@.len() >= 1,
    ensures
        forall|u: int|
            0 <= u < seg_triangles(base, steps_of(g)).len() ==> (#[trigger] seg_triangles(
                base,
                steps_of(g),
            )[u]) < base + 2 * (steps_of(g) + 1),
        forall|u: int|
            0 <= u < seg_borders(base, steps_of(g)).len() ==> (#[trigger] seg_borders(
                base,
                steps_of(g),
            )[u]) < base + 2 * (steps_of(g) + 1),
        forall|u: int|
            0 <= u < seg_right_border(base, steps_of(g)).len() ==> (#[trigger] seg_right_border(
                base,
                steps_of(g),
            )[u]) < base + 2 * (steps_of(g) + 1),
{
    let steps = steps_of(g);
    assert forall|u: int| 0 <= u < 6 * steps implies base + 2 * #[trigger] (u / 6) + tri_pat(u % 6) < base
        + 2 * (steps + 1) by {
        assert(u / 6 <= (6 * steps - 1) / 6 < steps) by (nonlinear_arith)
            requires
                0 <= u < 6 * steps,
                steps >= 1,
        ;
        assert(0 <= u % 6 < 6);
    }
    assert forall|u: int| 0 <= u < 4 * steps implies base + 2 * #[trigger] (u / 4) + bord_pat(u % 4) < base
        + 2 * (steps + 1) by {
        assert(u / 4 < steps) by (nonlinear_arith)
            requires
                0 <= u < 4 * steps,
                steps >= 1,
        ;
        assert(0 <= u % 4 < 4);
    }
    assert forall|u: int| 0 <= u < 2 * steps implies base + 2 * #[trigger] (u / 2) + (if u % 2 == 0 {
        1int
    } else {
        3int
    }) < base + 2 * (steps + 1) by {
        assert(u / 2 < steps) by (nonlinear_arith)
            requires
                0 <= u < 2 * steps,
                steps >= 1,
        ;
        assert(0 <= u % 2 < 2);
    }
}

/// The boundary chains a well-formed network stores are made of in-range
/// Bezier segments.
proof fn lemma_seg_beziers_ok(n: RoadNetwork, g: SegmentGeometry, pts: Seq<crate::geom::ControlPoint>)
    requires
        seg_matches(g, pts),
        points_ok(pts),
    ensures
        1 <= g.left@.len() <= 499,
        g.right@.len() == g.left@.len(),
        forall|i: int| 0 <= i < g.left@.len() ==> bezier_ok(#[trigger] g.left@[i]),
        forall|i: int| 0 <= i < g.right@.len() ==> bezier_ok(#[trigger] g.right@[i]),
        forall|i: int| 0 <= i < g.left@.len() - 1 ==> (#[trigger] g.left@[i]).p3 == g.left@[i + 1].p0,
        forall|i: int|
            0 <= i < g.right@.len() - 1 ==> (#[trigger] g.right@[i]).p3 == g.right@[i + 1].p0,
{
    assert forall|i: int| 0 <= i < g.left@.len() implies bezier_ok(#[trigger] g.left@[i]) by {
        lemma_boundary_bezier_ok(pts[i], pts[i + 1], true);
        assert(g.left@[i] == boundary_seq_spec(pts, true)[i]);
    }
    assert forall|i: int| 0 <= i < g.right@.len() implies bezier_ok(#[trigger] g.right@[i]) by {
        lemma_boundary_bezier_ok(pts[i], pts[i + 1], false);
        assert(g.right@[i] == boundary_seq_spec(pts, false)[i]);
    }
    assert forall|i: int| 0 <= i < g.left@.len() - 1 implies (#[trigger] g.left@[i]).p3 == g.left@[
        i + 1].p0 by {
        assert(g.left@[i] == boundary_seq_spec(pts, true)[i]);
        assert(g.left@[i + 1] == boundary_seq_spec(pts, true)[i + 1]);
    }
    assert forall|i: int| 0 <= i < g.right@.len() - 1 implies (#[trigger] g.right@[i]).p3
        == g.right@[i + 1].p0 by {
        assert(g.right@[i] == boundary_seq_spec(pts, false)[i]);
        assert(g.right@[i + 1] == boundary_seq_spec(pts, false)[i + 1]);
    }
}

} // verus!
