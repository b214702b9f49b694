//! Corridor search: best-first graph search over the triangle-adjacency
//! graph, from a start triangle to a goal triangle. Frontier entries are
//! ordered by accumulated centroid-to-centroid distance plus a straight-line
//! heuristic to the goal centroid; ties break to the earliest-discovered
//! entry, so the search is deterministic. A triangle is marked visited when
//! first discovered and never re-opened.
//!
//! In Accuracy mode the search runs until the frontier is exhausted, so it
//! fails exactly when the goal is unreachable. In Performance mode the number
//! of expansions is bounded by a fixed multiple of the triangle count, and
//! hitting the bound fails the query.

use crate::geom::{bounded, dist};
use crate::mesh::{lemma_adjacency_symmetric, mesh_wf, nbr, tri_wf, Mesh, MeshView, QueryMode};
use vstd::prelude::*;

verus! {

/// Triangle `b` is a neighbor of triangle `a` across one of its edges.
pub open spec fn adjacent(v: MeshView, a: int, b: int) -> bool {
    &&& 0 <= a < v.tris.len()
    &&& 0 <= b < v.tris.len()
    &&& exists|e: int|
        0 <= e < 3 && ((#[trigger] nbr(v.tris[a], e)) matches Some(u) && u as int == b)
}

/// A corridor: every element is a triangle of the mesh, and every consecutive
/// pair shares an edge.
pub open spec fn is_chain(v: MeshView, c: Seq<usize>) -> bool {
    &&& forall|k: int| 0 <= k < c.len() ==> ((#[trigger] c[k]) as int) < v.tris.len()
    &&& forall|k: int| 0 <= k < c.len() - 1 ==> adjacent(v, (#[trigger] c[k]) as int, c[k + 1] as int)
}

/// Triangles `s` and `t` are connected through the adjacency graph.
pub open spec fn connected(v: MeshView, s: int, t: int) -> bool {
    exists|c: Seq<usize>|
        #[trigger] is_chain(v, c) && c.len() > 0 && c.first() as int == s && c.last() as int == t
}

/// Node `x` has an entry on the frontier.
spec fn in_open(open: Seq<(usize, u64)>, x: int) -> bool {
    exists|k: int| 0 <= k < open.len() && ((#[trigger] open[k]).0 as int) == x
}

/// A set of flags that contains a chain's start and is closed under adjacency
/// contains the chain's end.
proof fn lemma_chain_stays(v: MeshView, vis: Seq<bool>, c: Seq<usize>)
    requires
        vis.len() == v.tris.len(),
        is_chain(v, c),
        c.len() > 0,
        vis[c.first() as int],
        forall|a: int, b: int|
            0 <= a < v.tris.len() && vis[a] && #[trigger] adjacent(v, a, b) ==> vis[b],
    ensures
        vis[c.last() as int],
    decreases c.len(),
{
    if c.len() > 1 {
        assert(adjacent(v, c[0] as int, c[1] as int));
        assert(vis[c[1] as int]);
        let c2 = c.subrange(1, c.len() as int);
        assert forall|k: int| 0 <= k < c2.len() - 1 implies adjacent(
            v,
            (#[trigger] c2[k]) as int,
            c2[k + 1] as int,
        ) by {
            assert(c2[k] == c[k + 1] && c2[k + 1] == c[k + 2]);
        }
        lemma_chain_stays(v, vis, c2);
        assert(c2.last() == c.last());
    }
}

/// Everything the search loop keeps true between iterations.
spec fn search_inv(
    v: MeshView,
    n: int,
    start: int,
    goal: int,
    visited: Seq<bool>,
    parent: Seq<usize>,
    open: Seq<(usize, u64)>,
    gdepth: Seq<int>,
) -> bool {
    &&& n == v.tris.len()
    &&& visited.len() == n
    &&& parent.len() == n
    &&& 0 <= start < n
    &&& 0 <= goal < n
    &&& visited[start]
    &&& gdepth.len() == n
    &&& gdepth[start] == 0
    &&& forall|k: int|
        0 <= k < open.len() ==> (((#[trigger] open[k]).0 as int) < n && visited[open[k].0 as int])
    &&& forall|k1: int, k2: int|
        0 <= k1 < k2 < open.len() ==> (#[trigger] open[k1]).0 != (#[trigger] open[k2]).0
    &&& visited[goal] ==> in_open(open, goal)
    &&& forall|a: int| 0 <= a < n && visited[a] ==> #[trigger] gdepth[a] >= 0
    &&& forall|a: int|
        0 <= a < n && #[trigger] visited[a] && a != start ==> {
            let pa = parent[a] as int;
            &&& pa < n
            &&& visited[pa]
            &&& adjacent(v, pa, a)
            &&& gdepth[a] == gdepth[pa] + 1
        }
}

/// How many flags are still unset.
spec fn count_unvisited(s: Seq<bool>) -> nat
    decreases s.len(),
{
    if s.len() == 0 {
        0
    } else {
        (if s.last() {
            0nat
        } else {
            1nat
        }) + count_unvisited(s.drop_last())
    }
}

/// Setting an unset flag lowers the count of unset flags by one.
proof fn lemma_count_update(s: Seq<bool>, k: int)
    requires
        0 <= k < s.len(),
        !s[k],
    ensures
        count_unvisited(s.update(k, true)) == count_unvisited(s) - 1,
    decreases s.len(),
{
    let s2 = s.update(k, true);
    if k == s.len() - 1 {
        assert(s2.drop_last() =~= s.drop_last());
    } else {
        assert(s2.drop_last() =~= s.drop_last().update(k, true));
        assert(s2.last() == s.last());
        lemma_count_update(s.drop_last(), k);
    }
}

/// Addition that stops at the largest representable value.
fn sat_add(a: u64, b: u64) -> (r: u64)
    ensures
        a + b <= u64::MAX ==> r == a + b,
        a + b > u64::MAX ==> r == u64::MAX,
{
    if a > u64::MAX - b {
        u64::MAX
    } else {
        a + b
    }
}

impl Mesh {
    /// The rounded Euclidean distance between the centroids of triangles `a`
    /// and `b`, the cost measure of the corridor search.
    fn edge_cost(&self, a: usize, b: usize) -> (r: u64)
        requires
            a < self@.tris.len(),
            b < self@.tris.len(),
    {
        self.wf_facts();
        assert(tri_wf(self@, a as int));
        assert(tri_wf(self@, b as int));
        let ta = self.triangle(a);
        let tb = self.triangle(b);
        assert(bounded(ta.centroid3, 4_000_000) && bounded(tb.centroid3, 4_000_000));
        dist(&ta.centroid3, &tb.centroid3)
    }

    /// Finds an ordered sequence of adjacent triangles from `start` to
    /// `goal`. On success the result is a corridor: it begins at `start`,
    /// ends at `goal`, and every consecutive pair shares an edge. In
    /// Accuracy mode failure is definitive: `None` means `start` and `goal`
    /// are not connected through adjacency. In Performance mode the search
    /// also gives up once its expansion budget (ten times the triangle
    /// count) is spent.
    #[verifier::rlimit(60)]
    pub fn find_corridor(&self, start: usize, goal: usize, mode: QueryMode) -> (r: Option<
        Vec<usize>,
    >)
        requires
            (start as int) < self@.tris.len(),
            (goal as int) < self@.tris.len(),
        ensures
            r matches Some(c) ==> {
                &&& is_chain(self@, c@)
                &&& c@.len() >= 1
                &&& c@.first() == start
                &&& c@.last() == goal
                &&& connected(self@, start as int, goal as int)
            },
            r is None && mode == QueryMode::Accuracy ==> !connected(
                self@,
                start as int,
                goal as int,
            ),
    {
        self.wf_facts();
        let n: usize = self.triangle_count();
        let budget: u64 = if (n as u64) > u64::MAX / 10 {
            u64::MAX
        } else {
            10 * (n as u64)
        };
        let mut visited: Vec<bool> = Vec::new();
        let mut parent: Vec<usize> = Vec::new();
        let mut gscore: Vec<u64> = Vec::new();
        let mut i: usize = 0;
        while i < n
            invariant
                i <= n,
                visited@.len() == i,
                parent@.len() == i,
                gscore@.len() == i,
                forall|k: int| 0 <= k < i ==> !(#[trigger] visited@[k]),
            decreases n - i,
        {
            visited.push(false);
            parent.push(0);
            gscore.push(0);
            i += 1;
        }
        let mut open: Vec<(usize, u64)> = Vec::new();
        visited.set(start, true);
        open.push((start, 0));
        assert(open@[0].0 == start);
        assert(in_open(open@, start as int));
        let ghost mut gdepth: Seq<int> = Seq::new(n as nat, |x: int| 0);
        let mut expansions: u64 = 0;
        while open.len() > 0
            invariant
                mesh_wf(self@),
                n == self@.tris.len(),
                gscore@.len() == n,
                (start as int) < n,
                (goal as int) < n,
                search_inv(self@, n as int, start as int, goal as int, visited@, parent@, open@, gdepth),
                forall|a: int, b: int|
                    0 <= a < n && visited@[a] && !in_open(open@, a) && #[trigger] adjacent(
                        self@,
                        a,
                        b,
                    ) ==> visited@[b],
            decreases open@.len() + count_unvisited(visited@),
        {
            if mode == QueryMode::Performance && expansions >= budget {
                return None;
            }
            expansions = sat_add(expansions, 1);
            let mut bj: usize = 0;
            let mut bf: u64 = open[0].1;
            let mut j: usize = 1;
            while j < open.len()
                invariant
                    open@.len() > 0,
                    bj < j,
                    j <= open@.len(),
                    bf == open@[bj as int].1,
                decreases open@.len() - j,
            {
                if open[j].1 < bf {
                    bj = j;
                    bf = open[j].1;
                }
                j += 1;
            }
            let ghost old_open = open@;
            let entry = open.remove(bj);
            let u: usize = entry.0;
            proof {
                assert forall|x: int| in_open(old_open, x) && x != u as int implies in_open(
                    open@,
                    x,
                ) by {
                    let k = choose|k: int| 0 <= k < old_open.len() && (old_open[k].0 as int) == x;
                    if k < bj {
                        assert(open@[k] == old_open[k]);
                    } else {
                        assert(open@[k - 1] == old_open[k]);
                    }
                }
                assert forall|k: int| 0 <= k < open@.len() implies (#[trigger] open@[k]).0 != u by {
                    if k < bj {
                        assert(open@[k] == old_open[k]);
                    } else {
                        assert(open@[k] == old_open[k + 1]);
                    }
                }
            }
            if u == goal {
                let mut rev: Vec<usize> = Vec::new();
                rev.push(goal);
                let mut cur: usize = goal;
                while cur != start
                    invariant
                        mesh_wf(self@),
                        n == self@.tris.len(),
                        (start as int) < n,
                        (goal as int) < n,
                        visited@.len() == n,
                        parent@.len() == n,
                        (cur as int) < n,
                        visited@[cur as int],
                        gdepth.len() == n,
                        gdepth[start as int] == 0,
                        forall|a: int| 0 <= a < n && visited@[a] ==> #[trigger] gdepth[a] >= 0,
                        forall|a: int|
                            0 <= a < n && #[trigger] visited@[a] && a != start as int ==> {
                                let pa = parent@[a] as int;
                                &&& pa < n
                                &&& visited@[pa]
                                &&& adjacent(self@, pa, a)
                                &&& gdepth[a] == gdepth[pa] + 1
                            },
                        rev@.len() >= 1,
                        rev@[0] == goal,
                        rev@.last() == cur,
                        forall|k: int| 0 <= k < rev@.len() ==> ((#[trigger] rev@[k]) as int) < n,
                        forall|k: int|
                            0 <= k < rev@.len() - 1 ==> adjacent(
                                self@,
                                rev@[k + 1] as int,
                                (#[trigger] rev@[k]) as int,
                            ),
                    decreases gdepth[cur as int],
                {
                    let pr: usize = parent[cur];
                    rev.push(pr);
                    cur = pr;
                }
                let mut corridor: Vec<usize> = Vec::new();
                let rl: usize = rev.len();
                let mut k: usize = 0;
                while k < rl
                    invariant
                        rl == rev@.len(),
                        k <= rl,
                        corridor@.len() == k,
                        forall|m: int|
                            0 <= m < k ==> (#[trigger] corridor@[m]) == rev@[rl - 1 - m],
                    decreases rl - k,
                {
                    corridor.push(rev[rl - 1 - k]);
                    k += 1;
                }
                proof {
                    assert forall|m: int| 0 <= m < corridor@.len() - 1 implies adjacent(
                        self@,
                        (#[trigger] corridor@[m]) as int,
                        corridor@[m + 1] as int,
                    ) by {
                        assert(corridor@[m] == rev@[rl - 1 - m]);
                        assert(corridor@[m + 1] == rev@[rl - 2 - m]);
                        assert(adjacent(self@, rev@[rl - 1 - m] as int, rev@[rl - 2 - m] as int));
                    }
                    assert(corridor@.first() == rev@[rl - 1] && rev@.last() == start);
                    assert(corridor@.last() == rev@[0]);
                    assert(is_chain(self@, corridor@));
                    assert(connected(self@, start as int, goal as int));
                }
                return Some(corridor);
            }
            let ghost open_before = open@;
            let ghost visited_before = visited@;
            let t = self.triangle(u);
            let gu: u64 = gscore[u];
            let mut e: usize = 0;
            while e < 3
                invariant
                    mesh_wf(self@),
                    n == self@.tris.len(),
                    gscore@.len() == n,
                    (start as int) < n,
                    (goal as int) < n,
                    (u as int) < n,
                    t == self@.tris[u as int],
                    u != goal,
                    e <= 3,
                    visited@[u as int],
                    !in_open(open@, u as int),
                    search_inv(self@, n as int, start as int, goal as int, visited@, parent@, open@, gdepth),
                    forall|a: int, b: int|
                        0 <= a < n && visited@[a] && a != u as int && !in_open(open@, a)
                            && #[trigger] adjacent(self@, a, b) ==> visited@[b],
                    forall|ee: int|
                        0 <= ee < e ==> ((#[trigger] nbr(self@.tris[u as int], ee)) matches Some(w)
                            ==> (w as int) < n && visited@[w as int]),
                    open@.len() + count_unvisited(visited@) <= open_before.len()
                        + count_unvisited(visited_before),
                decreases 3 - e,
            {
                let w_opt: Option<usize> = if e == 0 {
                    t.nab
                } else if e == 1 {
                    t.nbc
                } else {
                    t.nca
                };
                proof {
                    assert(tri_wf(self@, u as int));
                    assert(nbr(self@.tris[u as int], e as int) == w_opt);
                }
                match w_opt {
                    Some(w) => {
                        proof {
                            lemma_neighbor_in_range(self@, u as int, e as int);
                        }
                        if !visited[w] {
                            let ghost ob = open@;
                            let ghost vb = visited@;
                            visited.set(w, true);
                            parent.set(w, u);
                            let gw: u64 = sat_add(gu, self.edge_cost(u, w));
                            gscore.set(w, gw);
                            let h: u64 = self.edge_cost(w, goal);
                            open.push((w, sat_add(gw, h)));
                            proof {
                                let ghost gold = gdepth;
                                gdepth = gdepth.update(w as int, gold[u as int] + 1);
                                assert(gdepth[w as int] == gold[u as int] + 1);
                                lemma_count_update(vb, w as int);
                                assert forall|x: int| in_open(ob, x) implies in_open(open@, x) by {
                                    let k = choose|k: int|
                                        0 <= k < ob.len() && (ob[k].0 as int) == x;
                                    assert(open@[k] == ob[k]);
                                }
                                assert(open@[open@.len() - 1].0 == w);
                                assert(in_open(open@, w as int));
                                assert forall|x: int| in_open(open@, x) && x != w as int implies
                                    in_open(ob, x) by {
                                    let k = choose|k: int|
                                        0 <= k < open@.len() && (open@[k].0 as int) == x;
                                    assert(k < ob.len());
                                    assert(open@[k] == ob[k]);
                                }
                                assert(adjacent(self@, u as int, w as int));
                                assert(visited@[w as int]);
                            }
                        }
                    },
                    None => {},
                }
                e += 1;
            }
            proof {
                assert forall|b: int| #[trigger] adjacent(self@, u as int, b) implies visited@[b] by {
                    let ee = choose|ee: int|
                        0 <= ee < 3 && ((#[trigger] nbr(self@.tris[u as int], ee)) matches Some(
                        x) && x as int == b);
                    assert(nbr(self@.tris[u as int], ee) matches Some(x) && x as int == b);
                }
            }
        }
        proof {
            assert(!visited@[goal as int]);
            if connected(self@, start as int, goal as int) {
                let c = choose|c: Seq<usize>|
                    #[trigger] is_chain(self@, c) && c.len() > 0 && c.first() as int == start as int
                        && c.last() as int == goal as int;
                assert forall|a: int, b: int|
                    0 <= a < self@.tris.len() && visited@[a] && #[trigger] adjacent(self@, a, b)
                        implies visited@[b] by {
                    assert(!in_open(open@, a));
                }
                lemma_chain_stays(self@, visited@, c);
                assert(false);
            }
        }
        None
    }
}

/// A stored neighbor index references a triangle of the mesh.
proof fn lemma_neighbor_in_range(v: MeshView, i: int, e: int)
    requires
        mesh_wf(v),
        0 <= i < v.tris.len(),
        0 <= e < 3,
        nbr(v.tris[i], e) is Some,
    ensures
        (nbr(v.tris[i], e)->Some_0 as int) < v.tris.len(),
        adjacent(v, i, nbr(v.tris[i], e)->Some_0 as int),
{
    lemma_adjacency_symmetric(v, i, e);
}

} // verus!
