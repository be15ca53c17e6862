//! The path planner: resolves a world position to the nearest segment of
//! the network, and searches the segment graph for a drivable route.
//!
//! The segment graph's nodes are the network's lanes (one per road) and
//! its cross-section connectors; a lane feeds the connectors that leave
//! its far end, and each connector feeds the lane it merges into.

use vstd::prelude::*;
use crate::geom::{geo_ok, Vec2};
use crate::network::{network_wf, seg_tess_ok, RoadNetwork};

verus! {

/// Largest coordinate magnitude `find_path` accepts before clamping.
pub const QUERY_LIMIT: i64 = 1_100_000_000;

/// Number of segments (lanes, then cross-section connectors) of the
/// network's segment graph.
pub open spec fn seg_count(n: RoadNetwork) -> int {
    n.backbone.roads@.len() as int + n.backbone.cross_sections@.len() as int
}

/// Segment `s2` can be driven directly after segment `s1`: a lane feeds a
/// cross-section that crosses its far location coming from its near one,
/// and a cross-section feeds the lane that leaves its junction toward its
/// own target.
pub open spec fn linked(n: RoadNetwork, s1: int, s2: int) -> bool {
    let nr = n.backbone.roads@.len() as int;
    &&& 0 <= s1 < seg_count(n)
    &&& 0 <= s2 < seg_count(n)
    &&& if s1 < nr {
        &&& s2 >= nr
        &&& n.backbone.cross_sections@[s2 - nr].from == n.backbone.roads@[s1].from
        &&& n.backbone.cross_sections@[s2 - nr].across == n.backbone.roads@[s1].to
    } else {
        &&& s2 < nr
        &&& n.backbone.roads@[s2].from == n.backbone.cross_sections@[s1 - nr].across
        &&& n.backbone.roads@[s2].to == n.backbone.cross_sections@[s1 - nr].to
    }
}

/// `p` is a drivable route from segment `s` to segment `t`.
pub open spec fn is_route(n: RoadNetwork, p: Seq<usize>, s: int, t: int) -> bool {
    &&& p.len() >= 1
    &&& p[0] == s
    &&& p[p.len() - 1] == t
    &&& forall|i: int| 0 <= i < p.len() ==> (#[trigger] p[i]) < seg_count(n)
    &&& forall|i: int| 0 <= i < p.len() - 1 ==> linked(n, #[trigger] p[i] as int, p[i + 1] as int)
}

/// The set of visited segments is closed under the link relation.
pub open spec fn link_closed(n: RoadNetwork, visited: Seq<bool>) -> bool {
    forall|v: int, w: int|
        0 <= v < seg_count(n) && 0 <= w < seg_count(n) && visited[v] && #[trigger] linked(n, v, w)
            ==> visited[w]
}

/// Some entry of `queue` at or after `head` still ends at segment `v`.
pub open spec fn pending(queue: Seq<Vec<usize>>, head: int, v: int) -> bool {
    exists|k: int|
        head <= k < queue.len() && 0 < (#[trigger] queue[k])@.len() && queue[k]@[queue[k]@.len()
            - 1] == v
}

/// Number of `true` entries of a boolean sequence.
pub open spec fn count_true(s: Seq<bool>) -> int
    decreases s.len(),
{
    if s.len() == 0 {
        0
    } else {
        count_true(s.drop_last()) + if s.last() {
            1int
        } else {
            0int
        }
    }
}

proof fn lemma_count_true_bounds(s: Seq<bool>)
    ensures
        0 <= count_true(s) <= s.len(),
    decreases s.len(),
{
    if s.len() > 0 {
        lemma_count_true_bounds(s.drop_last());
    }
}

proof fn lemma_count_true_update(s: Seq<bool>, i: int)
    requires
        0 <= i < s.len(),
        !s[i],
    ensures
        count_true(s.update(i, true)) == count_true(s) + 1,
    decreases s.len(),
{
    let u = s.update(i, true);
    if i == s.len() - 1 {
        assert(u.drop_last() =~= s.drop_last());
    } else {
        assert(u.drop_last() =~= s.drop_last().update(i, true));
        lemma_count_true_update(s.drop_last(), i);
    }
}

/// A set of segments that contains `p`'s start and is closed under the
/// link relation contains `p`'s end.
proof fn lemma_closed_reaches(n: RoadNetwork, visited: Seq<bool>, p: Seq<usize>, s: int, t: int)
    requires
        visited.len() == seg_count(n),
        is_route(n, p, s, t),
        0 <= s < seg_count(n),
        visited[s],
        link_closed(n, visited),
    ensures
        0 <= t < seg_count(n) && visited[t],
    decreases p.len(),
{
    if p.len() == 1 {
    } else {
        assert(linked(n, p[0] as int, p[1] as int));
        let q = p.subrange(1, p.len() as int);
        assert(is_route(n, q, p[1] as int, t));
        lemma_closed_reaches(n, visited, q, p[1] as int, t);
    }
}

/// Executable test of the link relation.
fn linked_ex(n: &RoadNetwork, a: usize, b: usize) -> (r: bool)
    requires
        network_wf(*n),
        a < seg_count(*n),
        b < seg_count(*n),
    ensures
        r == linked(*n, a as int, b as int),
{
    let nr = n.backbone.roads.len();
    if a < nr {
        if b < nr {
            false
        } else {
            let c = &n.backbone.cross_sections[b - nr];
            let rd = &n.backbone.roads[a];
            c.from == rd.from && c.across == rd.to
        }
    } else {
        if b >= nr {
            false
        } else {
            let c = &n.backbone.cross_sections[a - nr];
            let rd = &n.backbone.roads[b];
            rd.from == c.across && rd.to == c.to
        }
    }
}

/// A copy of a route.
fn clone_route(p: &Vec<usize>) -> (q: Vec<usize>)
    ensures
        q@ == p@,
{
    let mut q: Vec<usize> = Vec::new();
    let mut i: usize = 0;
    while i < p.len()
        invariant
            i <= p@.len(),
            q@ == p@.subrange(0, i as int),
        decreases p@.len() - i,
    {
        q.push(p[i]);
        proof {
            assert(q@ =~= p@.subrange(0, i + 1));
        }
        i = i + 1;
    }
    proof {
        assert(q@ =~= p@);
    }
    q
}

/// Arc length of one segment's tessellated centerline, capped so sums
/// stay well inside `u64`. A search heuristic only: no caller's contract
/// depends on its value.
#[verifier::loop_isolation(false)]
fn seg_arc_length(n: &RoadNetwork, s: usize) -> (c: u64)
    requires
        network_wf(*n),
        s < seg_count(*n),
    ensures
        c <= 4_000_000_002_000_000_000,
{
    let nr = n.backbone.roads.len();
    let tess: &Vec<Vec2> = if s < nr {
        &n.lanes[s].center_tess
    } else {
        &n.cross_geometries[s - nr].center_tess
    };
    proof {
        if s < nr {
            assert(seg_tess_ok(n.lanes@[s as int]));
        } else {
            assert(seg_tess_ok(n.cross_geometries@[s as int - nr as int]));
        }
    }
    let mut total: u64 = 0;
    let mut k: usize = 1;
    while k < tess.len()
        invariant
            1 <= k,
            total <= 4_000_000_002_000_000_000,
        decreases tess@.len() - k,
    {
        let a = tess[k - 1];
        let b = tess[k];
        let d2 = dist2_ex(a, b);
        let d = crate::geom::isqrt(d2 as u64);
        total = if total >= 4_000_000_000_000_000_000 {
            total
        } else {
            total + d
        };
        k = k + 1;
    }
    total
}

/// Total arc length of a route, capped. A search heuristic only.
#[verifier::loop_isolation(false)]
fn route_cost(n: &RoadNetwork, p: &Vec<usize>) -> (c: u64)
    requires
        network_wf(*n),
        forall|i: int| 0 <= i < p@.len() ==> (#[trigger] p@[i]) < seg_count(*n),
{
    let mut c: u64 = 0;
    let mut i: usize = 0;
    while i < p.len()
        invariant
            i <= p@.len(),
            c <= 8_000_000_004_000_000_000,
        decreases p@.len() - i,
    {
        let l = seg_arc_length(n, p[i]);
        c = if c >= 4_000_000_002_000_000_000 {
            c
        } else {
            c + l
        };
        i = i + 1;
    }
    c
}

/// Search over the segment graph, expanding the frontier route of
/// smallest total arc length first. Returns a drivable route from `s` to
/// `t`, and returns none exactly when no such route exists.
#[verifier::loop_isolation(false)]
#[verifier::rlimit(100)]
pub fn find_route(n: &RoadNetwork, s: usize, t: usize) -> (r: Option<Vec<usize>>)
    requires
        network_wf(*n),
        s < seg_count(*n),
        t < seg_count(*n),
    ensures
        r matches Some(p) ==> is_route(*n, p@, s as int, t as int),
        r is None ==> forall|p: Seq<usize>| !is_route(*n, p, s as int, t as int),
{
    let nr = n.backbone.roads.len();
    let nc = n.backbone.cross_sections.len();
    let total = nr + nc;
    if s == t {
        let mut p: Vec<usize> = Vec::new();
        p.push(s);
        return Some(p);
    }
    let mut visited: Vec<bool> = Vec::new();
    let mut i: usize = 0;
    while i < total
        invariant
            i <= total,
            visited@.len() == i,
            forall|j: int| 0 <= j < i ==> !(#[trigger] visited@[j]),
        decreases total - i,
    {
        visited.push(false);
        i = i + 1;
    }
    proof {
        lemma_count_true_update(visited@, s as int);
        lemma_count_true_bounds(visited@);
    }
    visited.set(s, true);
    proof {
        lemma_count_true_bounds(visited@);
    }
    let mut first: Vec<usize> = Vec::new();
    first.push(s);
    let mut queue: Vec<Vec<usize>> = Vec::new();
    queue.push(first);
    let mut head: usize = 0;
    proof {
        assert(queue@[0]@.len() == 1 && queue@[0]@[0] == s);
        assert(pending(queue@, 0, s as int)) by {
            assert(0 <= 0 < queue@.len() && 0 < queue@[0]@.len() && queue@[0]@[queue@[0]@.len() - 1]
                == s);
        }
        assert(forall|v: int| visited@[v] && 0 <= v < seg_count(*n) ==> v == s);
    }
    while head < queue.len()
        invariant
            visited@.len() == total,
            head <= queue@.len(),
            queue@.len() <= count_true(visited@),
            count_true(visited@) <= total,
            visited@[s as int],
            !visited@[t as int],
            forall|k: int|
                0 <= k < queue@.len() ==> {
                    let q = (#[trigger] queue@[k])@;
                    q.len() >= 1 && q[0] == s && (forall|i2: int|
                        0 <= i2 < q.len() ==> (#[trigger] q[i2]) < seg_count(*n)) && (forall|
                        i2: int,
                    |
                        0 <= i2 < q.len() - 1 ==> linked(*n, #[trigger] q[i2] as int, q[i2
                            + 1] as int)) && visited@[q[q.len() - 1] as int]
                },
            forall|v: int, w: int|
                0 <= v < seg_count(*n) && 0 <= w < seg_count(*n) && visited@[v] && !pending(
                    queue@,
                    head as int,
                    v,
                ) && #[trigger] linked(*n, v, w) ==> visited@[w],
        decreases total - count_true(visited@), queue@.len() - head,
    {
        let ghost count0 = count_true(visited@);
        let ghost qlen0 = queue@.len() as int;
        if head + 1 < queue.len() {
            let mut m: usize = head;
            let mut best: u64 = route_cost(n, &queue[head]);
            let mut k2: usize = head + 1;
            while k2 < queue.len()
                invariant
                    head <= m < queue@.len(),
                    head + 1 <= k2 <= queue@.len(),
                decreases queue@.len() - k2,
            {
                let ck = route_cost(n, &queue[k2]);
                if ck < best {
                    m = k2;
                    best = ck;
                }
                k2 = k2 + 1;
            }
            if m != head {
                let ghost q0 = queue@;
                let chosen = clone_route(&queue[m]);
                let hq = clone_route(&queue[head]);
                queue.set(m, hq);
                queue.set(head, chosen);
                proof {
                    assert(queue@.len() == q0.len());
                    assert(queue@[head as int]@ == q0[m as int]@);
                    assert(queue@[m as int]@ == q0[head as int]@);
                    assert(forall|k: int|
                        0 <= k < q0.len() && k != head && k != m ==> (#[trigger] queue@[k])@
                            == q0[k]@);
                    assert forall|k: int| 0 <= k < queue@.len() implies {
                        let q = (#[trigger] queue@[k])@;
                        q.len() >= 1 && q[0] == s && (forall|i2: int|
                            0 <= i2 < q.len() ==> (#[trigger] q[i2]) < seg_count(*n)) && (forall|
                            i2: int,
                        |
                            0 <= i2 < q.len() - 1 ==> linked(*n, #[trigger] q[i2] as int, q[i2
                                + 1] as int)) && visited@[q[q.len() - 1] as int]
                    } by {
                        if k == head as int {
                            assert(queue@[k]@ == q0[m as int]@);
                        } else if k == m as int {
                            assert(queue@[k]@ == q0[head as int]@);
                        }
                    }
                    assert forall|v: int|
                        pending(queue@, head as int, v) implies pending(q0, head as int, v) by {
                        let k = choose|k: int|
                            head <= k < queue@.len() && 0 < (#[trigger] queue@[k])@.len()
                                && queue@[k]@[queue@[k]@.len() - 1] == v;
                        if k == head as int {
                            assert(head <= m < q0.len() && 0 < q0[m as int]@.len() && q0[m as int]@[
                                q0[m as int]@.len() - 1] == v);
                        } else if k == m as int {
                            assert(0 < q0[head as int]@.len() && q0[head as int]@[q0[
                                head as int]@.len() - 1] == v);
                        } else {
                            assert(head <= k < q0.len() && 0 < q0[k]@.len() && q0[k]@[q0[k]@.len()
                                - 1] == v);
                        }
                    }
                    assert forall|v: int|
                        pending(q0, head as int, v) implies pending(queue@, head as int, v) by {
                        let k = choose|k: int|
                            head <= k < q0.len() && 0 < (#[trigger] q0[k])@.len() && q0[k]@[
                                q0[k]@.len() - 1] == v;
                        if k == head as int {
                            assert(head <= m < queue@.len() && 0 < queue@[m as int]@.len()
                                && queue@[m as int]@[queue@[m as int]@.len() - 1] == v);
                        } else if k == m as int {
                            assert(0 < queue@[head as int]@.len() && queue@[head as int]@[queue@[
                                head as int]@.len() - 1] == v);
                        } else {
                            assert(head <= k < queue@.len() && 0 < queue@[k]@.len() && queue@[k]@[
                                queue@[k]@.len() - 1] == v);
                        }
                    }
                }
            }
        }
        let path = clone_route(&queue[head]);
        let e = path[path.len() - 1];
        let mut w: usize = 0;
        while w < total
            invariant
                count_true(visited@) - count0 == queue@.len() - qlen0,
                count_true(visited@) >= count0,
                w <= total,
                visited@.len() == total,
                head < queue@.len(),
                queue@.len() <= count_true(visited@),
                count_true(visited@) <= total,
                visited@[s as int],
                !visited@[t as int],
                path@.len() >= 1,
                path@ == queue@[head as int]@,
                e == path@[path@.len() - 1],
                e < seg_count(*n),
                visited@[e as int],
                forall|w2: int| 0 <= w2 < w && linked(*n, e as int, w2) ==> visited@[w2],
                forall|k: int|
                    0 <= k < queue@.len() ==> {
                        let q = (#[trigger] queue@[k])@;
                        q.len() >= 1 && q[0] == s && (forall|i2: int|
                            0 <= i2 < q.len() ==> (#[trigger] q[i2]) < seg_count(*n)) && (forall|
                            i2: int,
                        |
                            0 <= i2 < q.len() - 1 ==> linked(*n, #[trigger] q[i2] as int, q[i2
                                + 1] as int)) && visited@[q[q.len() - 1] as int]
                    },
                forall|v: int, w2: int|
                    0 <= v < seg_count(*n) && 0 <= w2 < seg_count(*n) && visited@[v] && !pending(
                        queue@,
                        head as int,
                        v,
                    ) && #[trigger] linked(*n, v, w2) ==> visited@[w2],
            decreases total - w,
        {
            if linked_ex(n, e, w) && !visited[w] {
                let mut next = clone_route(&path);
                next.push(w);
                proof {
                    assert(next@[next@.len() - 1] == w);
                    assert(forall|i2: int|
                        0 <= i2 < next@.len() - 1 ==> linked(
                            *n,
                            #[trigger] next@[i2] as int,
                            next@[i2 + 1] as int,
                        ));
                }
                if w == t {
                    return Some(next);
                }
                proof {
                    lemma_count_true_update(visited@, w as int);
                }
                visited.set(w, true);
                proof {
                    lemma_count_true_bounds(visited@);
                }
                let ghost queue0 = queue@;
                queue.push(next);
                proof {
                    assert(pending(queue@, head as int, w as int)) by {
                        let k = queue@.len() - 1;
                        assert(head <= k < queue@.len() && 0 < queue@[k]@.len());
                        assert(queue@[k]@[queue@[k]@.len() - 1] == w);
                    }
                    assert forall|v: int|
                        pending(queue0, head as int, v) implies pending(
                        queue@,
                        head as int,
                        v,
                    ) by {
                        let k = choose|k: int|
                            head <= k < queue0.len() && 0 < (#[trigger] queue0[k])@.len()
                                && queue0[k]@[queue0[k]@.len() - 1] == v;
                        assert(queue@[k] == queue0[k]);
                        assert(head <= k < queue@.len() && 0 < queue@[k]@.len() && queue@[k]@[queue@[k]@.len() - 1] == v);
                    }
                }
            }
            w = w + 1;
        }
        proof {
            assert(forall|v: int|
                0 <= v < seg_count(*n) && v != e && pending(queue@, head as int, v) ==> pending(
                    queue@,
                    head as int + 1,
                    v,
                )) by {
                assert forall|v: int|
                    0 <= v < seg_count(*n) && v != e && pending(
                        queue@,
                        head as int,
                        v,
                    ) implies pending(queue@, head as int + 1, v) by {
                    let k = choose|k: int|
                        head <= k < queue@.len() && 0 < (#[trigger] queue@[k])@.len() && queue@[k]@[
                            queue@[k]@.len() - 1] == v;
                    assert(k != head);
                    assert(head + 1 <= k < queue@.len() && 0 < queue@[k]@.len());
                    assert(queue@[k]@[queue@[k]@.len() - 1] == v);
                }
            }
        }
        head = head + 1;
    }
    proof {
        assert forall|p: Seq<usize>| !is_route(*n, p, s as int, t as int) by {
            if is_route(*n, p, s as int, t as int) {
                assert(link_closed(*n, visited@)) by {
                    assert(forall|v: int|
                        0 <= v < seg_count(*n) ==> !pending(queue@, head as int, v));
                }
                lemma_closed_reaches(*n, visited@, p, s as int, t as int);
            }
        }
    }
    None
}


/// Squared Euclidean distance.
pub open spec fn dist2(a: Vec2, b: Vec2) -> int {
    (a.x - b.x) * (a.x - b.x) + (a.y - b.y) * (a.y - b.y)
}

/// A query point accepted by the distance computations.
pub open spec fn query_ok(p: Vec2) -> bool {
    0 <= p.x <= QUERY_LIMIT && 0 <= p.y <= QUERY_LIMIT
}

/// The tessellated centerline of segment `s`.
pub open spec fn tess_of(n: RoadNetwork, s: int) -> Seq<Vec2> {
    let nr = n.backbone.roads@.len() as int;
    if s < nr {
        n.lanes@[s].center_tess@
    } else {
        n.cross_geometries@[s - nr].center_tess@
    }
}

/// Smallest squared distance from `p` to the first `k` vertices of `vs`.
pub open spec fn min_dist2_prefix(vs: Seq<Vec2>, p: Vec2, k: int) -> int
    decreases k,
{
    if k <= 1 {
        dist2(vs[0], p)
    } else {
        let m = min_dist2_prefix(vs, p, k - 1);
        if dist2(vs[k - 1], p) < m {
            dist2(vs[k - 1], p)
        } else {
            m
        }
    }
}

/// Smallest squared distance from `p` to segment `s`'s centerline
/// vertices.
pub open spec fn seg_dist2(n: RoadNetwork, s: int, p: Vec2) -> int {
    min_dist2_prefix(tess_of(n, s), p, tess_of(n, s).len() as int)
}

/// The first segment among the first `k` whose centerline comes closest
/// to `p`.
pub open spec fn nearest_prefix(n: RoadNetwork, p: Vec2, k: int) -> int
    decreases k,
{
    if k <= 1 {
        0
    } else {
        let b = nearest_prefix(n, p, k - 1);
        if seg_dist2(n, k - 1, p) < seg_dist2(n, b, p) {
            k - 1
        } else {
            b
        }
    }
}

/// The segment a query point resolves to: the first one at the smallest
/// centerline distance.
pub open spec fn nearest_segment_spec(n: RoadNetwork, p: Vec2) -> int {
    nearest_prefix(n, p, seg_count(n))
}

/// Executable squared distance.
pub fn dist2_ex(a: Vec2, b: Vec2) -> (d: i64)
    requires
        geo_ok(a),
        query_ok(b),
    ensures
        d == dist2(a, b),
        0 <= d <= 2_420_000_000_000_000_000,
{
    let dx: i64 = a.x - b.x;
    let dy: i64 = a.y - b.y;
    proof {
        assert(0 <= dx * dx <= 1_210_000_000_000_000_000 && 0 <= dy * dy
            <= 1_210_000_000_000_000_000) by (nonlinear_arith)
            requires
                -1_100_000_000 <= dx <= 1_100_000_000,
                -1_100_000_000 <= dy <= 1_100_000_000,
        ;
    }
    dx * dx + dy * dy
}

/// Smallest squared distance from `p` to one segment's centerline.
#[verifier::loop_isolation(false)]
fn seg_min_dist2(n: &RoadNetwork, s: usize, p: Vec2) -> (d: i64)
    requires
        network_wf(*n),
        s < seg_count(*n),
        query_ok(p),
    ensures
        d == seg_dist2(*n, s as int, p),
{
    let nr = n.backbone.roads.len();
    let tess: &Vec<Vec2> = if s < nr {
        &n.lanes[s].center_tess
    } else {
        &n.cross_geometries[s - nr].center_tess
    };
    proof {
        assert(tess@ == tess_of(*n, s as int));
        if s < nr {
            assert(seg_tess_ok(n.lanes@[s as int]));
        } else {
            assert(seg_tess_ok(n.cross_geometries@[s as int - nr]));
        }
    }
    let m = tess.len();
    let mut best: i64 = dist2_ex(tess[0], p);
    let mut k: usize = 1;
    while k < m
        invariant
            1 <= k <= m,
            best == min_dist2_prefix(tess@, p, k as int),
        decreases m - k,
    {
        let d = dist2_ex(tess[k], p);
        if d < best {
            best = d;
        }
        k = k + 1;
    }
    best
}

/// The first segment whose centerline comes closest to `p`, or none when
/// the network has no segments at all.
#[verifier::loop_isolation(false)]
pub fn nearest_segment(n: &RoadNetwork, p: Vec2) -> (r: Option<usize>)
    requires
        network_wf(*n),
        query_ok(p),
    ensures
        r is None <==> seg_count(*n) == 0,
        r matches Some(s) ==> s < seg_count(*n) && s == nearest_segment_spec(*n, p),
{
    let nr = n.backbone.roads.len();
    let nc = n.backbone.cross_sections.len();
    let total = nr + nc;
    if total == 0 {
        return None;
    }
    let mut best: usize = 0;
    let mut bestd: i64 = seg_min_dist2(n, 0, p);
    let mut k: usize = 1;
    while k < total
        invariant
            1 <= k <= total,
            best == nearest_prefix(*n, p, k as int),
            best < k,
            bestd == seg_dist2(*n, best as int, p),
        decreases total - k,
    {
        let d = seg_min_dist2(n, k, p);
        if d < bestd {
            best = k;
            bestd = d;
        }
        k = k + 1;
    }
    Some(best)
}

/// `v` clamped into the query range.
pub open spec fn clamp_coord(v: int) -> int {
    if v < 0 {
        0
    } else if v > QUERY_LIMIT {
        QUERY_LIMIT as int
    } else {
        v
    }
}

pub open spec fn clamp_query(p: Vec2) -> Vec2 {
    Vec2 { x: clamp_coord(p.x as int) as i64, y: clamp_coord(p.y as int) as i64 }
}

pub fn clamp_query_ex(p: Vec2) -> (q: Vec2)
    ensures
        q == clamp_query(p),
        query_ok(q),
{
    let x: i64 = if p.x < 0 {
        0
    } else if p.x > QUERY_LIMIT {
        QUERY_LIMIT
    } else {
        p.x
    };
    let y: i64 = if p.y < 0 {
        0
    } else if p.y > QUERY_LIMIT {
        QUERY_LIMIT
    } else {
        p.y
    };
    Vec2 { x, y }
}

/// Resolves two world positions to their nearest segments and searches
/// for a drivable route between them. Returns none exactly when the
/// network is empty or the two resolved segments are not connected. The
/// search expands frontier routes in order of accumulated arc length, so
/// it prefers short routes, but the returned route is not proved to be
/// of minimal total arc length: the length-ordered expansion is a
/// heuristic, not part of the contract.
pub fn find_path(n: &RoadNetwork, from: Vec2, to: Vec2) -> (r: Option<Vec<usize>>)
    requires
        network_wf(*n),
    ensures
        seg_count(*n) == 0 ==> r is None,
        seg_count(*n) > 0 ==> {
            let s = nearest_segment_spec(*n, clamp_query(from));
            let t = nearest_segment_spec(*n, clamp_query(to));
            &&& (r matches Some(p) ==> is_route(*n, p@, s, t))
            &&& (r is None ==> forall|p: Seq<usize>| !is_route(*n, p, s, t))
        },
{
    let a = clamp_query_ex(from);
    let b = clamp_query_ex(to);
    let s = match nearest_segment(n, a) {
        Some(s) => s,
        None => {
            return None;
        },
    };
    let t = match nearest_segment(n, b) {
        Some(t) => t,
        None => {
            return None;
        },
    };
    proof {
        lemma_nearest_in_range(*n, a);
        lemma_nearest_in_range(*n, b);
    }
    find_route(n, s, t)
}

/// The resolved nearest segment is a segment of the network.
proof fn lemma_nearest_in_range(n: RoadNetwork, p: Vec2)
    requires
        seg_count(n) >= 1,
    ensures
        0 <= nearest_segment_spec(n, p) < seg_count(n),
{
    lemma_nearest_prefix_in_range(n, p, seg_count(n));
}

proof fn lemma_nearest_prefix_in_range(n: RoadNetwork, p: Vec2, k: int)
    requires
        k >= 1,
    ensures
        0 <= nearest_prefix(n, p, k) < k,
    decreases k,
{
    if k > 1 {
        lemma_nearest_prefix_in_range(n, p, k - 1);
    }
}

} // verus!
