//! Breadth-first shortest-path search over the grid graph.

use vstd::prelude::*;
use crate::grid::GameMap;
use crate::position::{spec_adjacent, MapPosition};

verus! {

/// A valid path from `start` (exclusive) to `goal` (inclusive): the
/// steps are consecutive 4-adjacent, in-bounds, non-solid tiles.
pub open spec fn spec_path_ok(
    m: GameMap,
    start: MapPosition,
    goal: MapPosition,
    p: Seq<MapPosition>,
) -> bool {
    &&& p.len() >= 1
    &&& p[p.len() - 1] == goal
    &&& spec_adjacent(start, p[0])
    &&& forall|i: int|
        #![trigger p[i], p[i + 1]]
        0 <= i < p.len() - 1 ==> spec_adjacent(p[i], p[i + 1])
    &&& forall|i: int|
        0 <= i < p.len() ==> m.spec_in_bounds(#[trigger] p[i]) && !m.tile_at(p[i]).spec_is_solid()
}

/// How many entries of `s` are set.
pub open spec fn count_true(s: Seq<bool>) -> int
    decreases s.len(),
{
    if s.len() == 0 {
        0
    } else {
        count_true(s.drop_last()) + if s.last() {
            1int
        } else {
            0int
        }
    }
}

proof fn lemma_count_true_bounds(s: Seq<bool>)
    ensures
        0 <= count_true(s) <= s.len(),
    decreases s.len(),
{
    if s.len() > 0 {
        lemma_count_true_bounds(s.drop_last());
    }
}

proof fn lemma_count_true_set(s: Seq<bool>, i: int)
    requires
        0 <= i < s.len(),
        !s[i],
    ensures
        count_true(s.update(i, true)) == count_true(s) + 1,
    decreases s.len(),
{
    let t = s.update(i, true);
    if i == s.len() - 1 {
        assert(t.drop_last() =~= s.drop_last());
    } else {
        assert(t.drop_last() =~= s.drop_last().update(i, true));
        lemma_count_true_set(s.drop_last(), i);
        assert(t.last() == s.last());
    }
}

proof fn lemma_count_true_zeros(s: Seq<bool>)
    requires
        forall|i: int| 0 <= i < s.len() ==> !s[i],
    ensures
        count_true(s) == 0,
    decreases s.len(),
{
    if s.len() > 0 {
        lemma_count_true_zeros(s.drop_last());
    }
}

/// Per-node search invariant: a visited node sits strictly below the
/// visited count in depth and, unless it is the root, hangs off an
/// adjacent visited node one step closer to the root and is non-solid.
pub open spec fn node_ok(
    m: GameMap,
    start: MapPosition,
    visited: Seq<bool>,
    parent: Seq<MapPosition>,
    dist: Seq<usize>,
    p: MapPosition,
) -> bool {
    visited[m.spec_index(p)] ==> {
        &&& dist[m.spec_index(p)] < count_true(visited)
        &&& p != start ==> {
            let pp = parent[m.spec_index(p)];
            &&& m.spec_in_bounds(pp)
            &&& visited[m.spec_index(pp)]
            &&& spec_adjacent(pp, p)
            &&& !m.tile_at(p).spec_is_solid()
            &&& dist[m.spec_index(p)] == dist[m.spec_index(pp)] + 1
        }
    }
}

/// The breadth-first-search bookkeeping invariant: `visited`, `parent`
/// and `dist` describe a forest rooted at `start`.
pub open spec fn bfs_inv(
    m: GameMap,
    start: MapPosition,
    visited: Seq<bool>,
    parent: Seq<MapPosition>,
    dist: Seq<usize>,
) -> bool {
    &&& visited.len() == m.spec_tiles().len()
    &&& parent.len() == m.spec_tiles().len()
    &&& dist.len() == m.spec_tiles().len()
    &&& m.spec_in_bounds(start)
    &&& visited[m.spec_index(start)]
    &&& dist[m.spec_index(start)] == 0
    &&& forall|p: MapPosition|
        m.spec_in_bounds(p) ==> #[trigger] node_ok(m, start, visited, parent, dist, p)
}

/// Every queued position is in bounds and already visited.
pub open spec fn queue_inv(m: GameMap, visited: Seq<bool>, queue: Seq<MapPosition>) -> bool {
    forall|qi: int|
        0 <= qi < queue.len() ==> m.spec_in_bounds(#[trigger] queue[qi]) && visited[m.spec_index(
            queue[qi],
        )]
}

/// Every in-bounds, non-solid neighbour of `u` has been visited.
pub open spec fn node_expanded(m: GameMap, visited: Seq<bool>, u: MapPosition) -> bool {
    forall|q: MapPosition|
        m.spec_in_bounds(q) && !m.tile_at(q).spec_is_solid() && spec_adjacent(u, q)
            ==> #[trigger] visited[m.spec_index(q)]
}

/// Every visited position sits somewhere in the queue.
pub open spec fn queue_complete(m: GameMap, visited: Seq<bool>, queue: Seq<MapPosition>) -> bool {
    forall|p: MapPosition|
        m.spec_in_bounds(p) && (#[trigger] visited[m.spec_index(p)]) ==> exists|qi: int|
            0 <= qi < queue.len() && #[trigger] queue[qi] == p
}

/// Every in-bounds, non-solid neighbour of `u` is visited at a depth at
/// most one beyond `u`'s.
pub open spec fn node_expanded_b(
    m: GameMap,
    visited: Seq<bool>,
    dist: Seq<usize>,
    u: MapPosition,
) -> bool {
    forall|q: MapPosition|
        m.spec_in_bounds(q) && !m.tile_at(q).spec_is_solid() && spec_adjacent(u, q)
            ==> (#[trigger] visited[m.spec_index(q)]) && dist[m.spec_index(q)] <= dist[m.spec_index(
            u,
        )] + 1
}

/// Along any valid path into a visited set closed under bounded
/// expansion, recorded depths grow at most one per step; so the goal's
/// recorded depth is at most the path's length.
#[verifier::rlimit(100)]
proof fn lemma_path_bounds_dist(
    m: GameMap,
    start: MapPosition,
    goal: MapPosition,
    visited: Seq<bool>,
    dist: Seq<usize>,
    p: Seq<MapPosition>,
    k: int,
)
    requires
        m.wf(),
        m.spec_in_bounds(start),
        visited.len() == m.spec_tiles().len(),
        dist.len() == m.spec_tiles().len(),
        visited[m.spec_index(start)],
        dist[m.spec_index(start)] == 0,
        start != goal,
        forall|v: MapPosition|
            m.spec_in_bounds(v) && visited[m.spec_index(v)] && v != goal
                ==> #[trigger] node_expanded_b(m, visited, dist, v),
        spec_path_ok(m, start, goal, p),
        0 <= k < p.len(),
    ensures
        (visited[m.spec_index(p[k])] && dist[m.spec_index(p[k])] <= k + 1) || (visited[m.spec_index(
            goal,
        )] && dist[m.spec_index(goal)] <= k + 1),
    decreases k,
{
    m.lemma_index_in_range(p[k]);
    m.lemma_index_in_range(goal);
    if k == 0 {
        assert(m.spec_in_bounds(p[0]) && !m.tile_at(p[0]).spec_is_solid());
        assert(node_expanded_b(m, visited, dist, start));
        assert(visited[m.spec_index(p[0])] && dist[m.spec_index(p[0])] <= 1);
    } else {
        lemma_path_bounds_dist(m, start, goal, visited, dist, p, k - 1);
        if visited[m.spec_index(goal)] && dist[m.spec_index(goal)] <= k {
        } else {
            assert(visited[m.spec_index(p[k - 1])] && dist[m.spec_index(p[k - 1])] <= k);
            m.lemma_index_in_range(p[k - 1]);
            if p[k - 1] == goal {
            } else {
                assert(node_expanded_b(m, visited, dist, p[k - 1]));
                assert(p[(k - 1) + 1] == p[k]);
                assert(spec_adjacent(p[k - 1], p[k]));
                assert(m.spec_in_bounds(p[k]) && !m.tile_at(p[k]).spec_is_solid());
                assert(visited[m.spec_index(p[k])]);
                assert(dist[m.spec_index(p[k])] <= dist[m.spec_index(p[k - 1])] + 1);
                assert(dist[m.spec_index(p[k])] <= k + 1);
            }
        }
    }
}

/// Walking a valid path through a visited set that is closed under
/// expansion (except possibly at the goal) reaches every prefix node,
/// unless the goal was already reached.
proof fn lemma_path_prefix_visited(
    m: GameMap,
    start: MapPosition,
    goal: MapPosition,
    visited: Seq<bool>,
    p: Seq<MapPosition>,
    k: int,
)
    requires
        m.wf(),
        m.spec_in_bounds(start),
        visited.len() == m.spec_tiles().len(),
        visited[m.spec_index(start)],
        start != goal,
        forall|v: MapPosition|
            m.spec_in_bounds(v) && visited[m.spec_index(v)] && v != goal ==> #[trigger] node_expanded(
                m,
                visited,
                v,
            ),
        spec_path_ok(m, start, goal, p),
        0 <= k < p.len(),
    ensures
        visited[m.spec_index(p[k])] || visited[m.spec_index(goal)],
    decreases k,
{
    m.lemma_index_in_range(p[k]);
    if k == 0 {
        assert(m.spec_in_bounds(p[0]) && !m.tile_at(p[0]).spec_is_solid());
        assert(node_expanded(m, visited, start));
        assert(visited[m.spec_index(p[0])]);
    } else {
        lemma_path_prefix_visited(m, start, goal, visited, p, k - 1);
        m.lemma_index_in_range(goal);
        if !visited[m.spec_index(goal)] {
            assert(visited[m.spec_index(p[k - 1])]);
            m.lemma_index_in_range(p[k - 1]);
            if p[k - 1] == goal {
                assert(visited[m.spec_index(goal)]);
            } else {
                assert(node_expanded(m, visited, p[k - 1]));
                assert(p[(k - 1) + 1] == p[k]);
                assert(spec_adjacent(p[k - 1], p[k]));
                assert(m.spec_in_bounds(p[k]) && !m.tile_at(p[k]).spec_is_solid());
                assert(visited[m.spec_index(p[k])]);
            }
        }
    }
}

/// A valid path into a visited set closed under expansion puts the goal
/// in the set.
proof fn lemma_path_reaches_goal(
    m: GameMap,
    start: MapPosition,
    goal: MapPosition,
    visited: Seq<bool>,
    p: Seq<MapPosition>,
)
    requires
        m.wf(),
        m.spec_in_bounds(start),
        visited.len() == m.spec_tiles().len(),
        visited[m.spec_index(start)],
        start != goal,
        forall|v: MapPosition|
            m.spec_in_bounds(v) && visited[m.spec_index(v)] && v != goal ==> #[trigger] node_expanded(
                m,
                visited,
                v,
            ),
        spec_path_ok(m, start, goal, p),
    ensures
        visited[m.spec_index(goal)],
{
    lemma_path_prefix_visited(m, start, goal, visited, p, p.len() - 1);
}

pub struct Pathfinding;

impl Pathfinding {
    /// Tries to visit `nb` from `current`: when it is a fresh, in-bounds,
    /// non-solid tile it is marked visited, recorded as a child of
    /// `current` and enqueued; otherwise nothing changes.
    fn bfs_visit(
        map: &GameMap,
        start: MapPosition,
        current: MapPosition,
        nb: MapPosition,
        visited: &mut Vec<bool>,
        parent: &mut Vec<MapPosition>,
        dist: &mut Vec<usize>,
        queue: &mut Vec<MapPosition>,
    )
        requires
            map.wf(),
            bfs_inv(*map, start, old(visited)@, old(parent)@, old(dist)@),
            queue_inv(*map, old(visited)@, old(queue)@),
            queue_complete(*map, old(visited)@, old(queue)@),
            old(queue)@.len() <= count_true(old(visited)@),
            map.spec_in_bounds(current),
            old(visited)@[map.spec_index(current)],
            spec_adjacent(current, nb),
            forall|v: MapPosition|
                map.spec_in_bounds(v) && (#[trigger] old(visited)@[map.spec_index(v)]) ==> old(dist)@[map.spec_index(v)] <= old(dist)@[map.spec_index(current)] + 1,
        ensures
            bfs_inv(*map, start, final(visited)@, final(parent)@, final(dist)@),
            queue_inv(*map, final(visited)@, final(queue)@),
            queue_complete(*map, final(visited)@, final(queue)@),
            final(queue)@.len() <= count_true(final(visited)@),
            final(visited)@.len() == old(visited)@.len(),
            final(queue)@.len() >= old(queue)@.len(),
            forall|i: int| 0 <= i < old(queue)@.len() ==> final(queue)@[i] == old(queue)@[i],
            forall|k: int|
                0 <= k < old(visited)@.len() && old(visited)@[k] ==> final(visited)@[k],
            (map.spec_in_bounds(nb) && !map.tile_at(nb).spec_is_solid()) ==> final(visited)@[map.spec_index(nb)],
            forall|k: int|
                0 <= k < old(visited)@.len() && old(visited)@[k] ==> final(dist)@[k] == old(dist)@[k],
            (map.spec_in_bounds(nb) && !map.tile_at(nb).spec_is_solid()) ==> final(dist)@[map.spec_index(nb)] <= old(dist)@[map.spec_index(current)] + 1,
            forall|k: int|
                0 <= k < old(visited)@.len() && !old(visited)@[k] && (#[trigger] final(visited)@[k]) ==> final(dist)@[k] == old(dist)@[map.spec_index(current)] + 1,
            final(queue)@.len() <= old(queue)@.len() + 1,
            final(dist)@[map.spec_index(current)] == old(dist)@[map.spec_index(current)],
            forall|qi: int|
                old(queue)@.len() <= qi < final(queue)@.len() ==> map.spec_in_bounds(
                    #[trigger] final(queue)@[qi],
                ) && final(visited)@[map.spec_index(final(queue)@[qi])] && final(dist)@[map.spec_index(
                    final(queue)@[qi],
                )] == old(dist)@[map.spec_index(current)] + 1,
    {
        if !map.in_bounds(nb) {
            return ;
        }
        let solid = match map.get_tile(nb) {
            Some(t) => t.is_solid(),
            None => true,
        };
        if solid {
            return ;
        }
        let ni = map.index_of(nb);
        if visited[ni] {
            return ;
        }
        let ci = map.index_of(current);
        proof {
            assert(current != nb);
            map.lemma_index_distinct(current, nb);
            lemma_count_true_bounds(old(visited)@);
            assert(node_ok(*map, start, old(visited)@, old(parent)@, old(dist)@, current));
        }
        let d = dist[ci];
        let vlen = visited.len();
        proof {
            assert(d < vlen);
        }
        let ghost oldv = visited@;
        visited[ni] = true;
        parent[ni] = current;
        dist[ni] = d + 1;
        queue.push(nb);
        proof {
            lemma_count_true_set(oldv, ni as int);
            assert(start != nb);
            map.lemma_index_in_range(start);
            map.lemma_index_distinct(start, nb);
            assert(visited@[map.spec_index(start)]);
            assert(dist@[map.spec_index(start)] == 0);
            assert forall|p: MapPosition| map.spec_in_bounds(p) implies #[trigger] node_ok(
                *map,
                start,
                visited@,
                parent@,
                dist@,
                p,
            ) by {
                map.lemma_index_in_range(p);
                assert(node_ok(*map, start, oldv, old(parent)@, old(dist)@, p));
                if p == nb {
                    assert(map.spec_index(p) == ni);
                    assert(node_ok(*map, start, oldv, old(parent)@, old(dist)@, current));
                } else {
                    map.lemma_index_distinct(p, nb);
                    if visited@[map.spec_index(p)] && p != start {
                        let pp = old(parent)@[map.spec_index(p)];
                        map.lemma_index_in_range(pp);
                        if pp == nb {
                            // `nb` was unvisited, so it is nobody's parent
                            assert(oldv[map.spec_index(pp)]);
                            assert(false);
                        } else {
                            map.lemma_index_distinct(pp, nb);
                        }
                    }
                }
            }
            assert forall|qi: int| 0 <= qi < queue@.len() implies map.spec_in_bounds(
                #[trigger] queue@[qi],
            ) && visited@[map.spec_index(queue@[qi])] by {
                map.lemma_index_in_range(queue@[qi]);
                if qi < old(queue)@.len() {
                    assert(old(queue)@[qi] == queue@[qi]);
                    assert(oldv[map.spec_index(queue@[qi])]);
                }
            }
            assert forall|p: MapPosition|
                map.spec_in_bounds(p) && (#[trigger] visited@[map.spec_index(p)]) implies exists|
                    qi: int,
                | 0 <= qi < queue@.len() && #[trigger] queue@[qi] == p by {
                map.lemma_index_in_range(p);
                if p == nb {
                    assert(queue@[queue@.len() - 1] == nb);
                } else {
                    map.lemma_index_distinct(p, nb);
                    assert(oldv[map.spec_index(p)]);
                    let qi = choose|qi: int|
                        0 <= qi < old(queue)@.len() && #[trigger] old(queue)@[qi] == p;
                    assert(queue@[qi] == p);
                }
            }
        }
    }

    /// Breadth-first search for a shortest path from `start` to `goal`
    /// over 4-adjacent, non-solid tiles (occupancy is ignored; callers
    /// re-check standability before committing to a step).
    ///
    /// Returns an empty path when `start == goal`, the ordered steps from
    /// `start` (exclusive) to `goal` (inclusive) when the goal is
    /// reachable, and nothing otherwise. A returned path consists of
    /// consecutive adjacent walkable tiles ending at `goal`, and no
    /// valid path is shorter; when the search from an in-bounds start
    /// finds nothing, no valid path exists at all. A start outside the
    /// map reaches nothing.
    #[verifier::rlimit(100)]
    pub fn find_path(map: &GameMap, start: MapPosition, goal: MapPosition) -> (r: Option<
        Vec<MapPosition>,
    >)
        requires
            map.wf(),
        ensures
            start == goal ==> (r matches Some(v) && v@.len() == 0),
            start != goal ==> (r matches Some(v) ==> spec_path_ok(*map, start, goal, v@)),
            start != goal && !map.spec_in_bounds(start) ==> r is None,
            (start != goal && map.spec_in_bounds(start) && r is None) ==> (forall|
                p: Seq<MapPosition>,
            | !spec_path_ok(*map, start, goal, p)),
            start != goal ==> (r matches Some(v) ==> (forall|q: Seq<MapPosition>|
                spec_path_ok(*map, start, goal, q) ==> v@.len() <= q.len())),
    {
        if start == goal {
            return Some(Vec::new());
        }
        if !map.in_bounds(start) || !map.in_bounds(goal) {
            proof {
                if map.spec_in_bounds(start) {
                    // a valid path would end on an in-bounds goal tile
                    assert forall|p: Seq<MapPosition>| !spec_path_ok(*map, start, goal, p) by {
                        if spec_path_ok(*map, start, goal, p) {
                            assert(map.spec_in_bounds(p[p.len() - 1]));
                        }
                    }
                }
            }
            return None;
        }
        let n = map.raw_tiles().len();
        let mut visited: Vec<bool> = vec![false; n];
        let mut parent: Vec<MapPosition> = vec![start; n];
        let mut dist: Vec<usize> = vec![0; n];
        let mut queue: Vec<MapPosition> = Vec::new();
        let mut head: usize = 0;
        let si = map.index_of(start);
        let ghost v0 = visited@;
        visited[si] = true;
        queue.push(start);
        proof {
            assert(forall|k: int| 0 <= k < n ==> !(#[trigger] v0[k]));
            lemma_count_true_zeros(v0);
            lemma_count_true_set(v0, si as int);
            assert(count_true(visited@) == 1);
            assert forall|p: MapPosition| map.spec_in_bounds(p) implies #[trigger] node_ok(
                *map,
                start,
                visited@,
                parent@,
                dist@,
                p,
            ) by {
                map.lemma_index_in_range(p);
                if p != start {
                    map.lemma_index_distinct(p, start);
                    assert(!v0[map.spec_index(p)]);
                }
            }
            assert forall|p: MapPosition|
                map.spec_in_bounds(p) && (#[trigger] visited@[map.spec_index(p)]) implies exists|
                    qi: int,
                | 0 <= qi < queue@.len() && #[trigger] queue@[qi] == p by {
                map.lemma_index_in_range(p);
                if p != start {
                    map.lemma_index_distinct(p, start);
                    assert(!v0[map.spec_index(p)]);
                }
                assert(queue@[0] == start);
            }
            assert forall|p: MapPosition|
                map.spec_in_bounds(p) && (#[trigger] visited@[map.spec_index(p)]) implies
                dist@[map.spec_index(p)] == 0 by {
                map.lemma_index_in_range(p);
                if p != start {
                    map.lemma_index_distinct(p, start);
                    assert(!v0[map.spec_index(p)]);
                }
            }
        }
        let mut found = false;
        while head < queue.len()
            invariant
                map.wf(),
                map.spec_in_bounds(start),
                map.spec_in_bounds(goal),
                start != goal,
                n == map.spec_tiles().len(),
                bfs_inv(*map, start, visited@, parent@, dist@),
                queue_inv(*map, visited@, queue@),
                queue_complete(*map, visited@, queue@),
                head <= queue@.len(),
                queue@.len() <= count_true(visited@),
                count_true(visited@) <= n,
                found ==> visited@[map.spec_index(goal)],
                !found ==> (forall|qi: int| 0 <= qi < head ==> queue@[qi] != goal),
                forall|qi: int|
                    0 <= qi < head && queue@[qi] != goal ==> #[trigger] node_expanded(
                        *map,
                        visited@,
                        queue@[qi],
                    ),
                head == 0 ==> queue@.len() == 1,
                forall|qi: int, qj: int|
                    0 <= qi <= qj < queue@.len() ==> dist@[map.spec_index(#[trigger] queue@[qi])]
                        <= dist@[map.spec_index(#[trigger] queue@[qj])],
                head > 0 ==> (forall|qi: int|
                    0 <= qi < queue@.len() ==> dist@[map.spec_index(#[trigger] queue@[qi])]
                        <= dist@[map.spec_index(queue@[head - 1])] + 1),
                forall|v: MapPosition|
                    map.spec_in_bounds(v) && (#[trigger] visited@[map.spec_index(v)])
                        ==> dist@[map.spec_index(v)] <= (if head > 0 {
                        dist@[map.spec_index(queue@[head - 1])] + 1
                    } else {
                        0int
                    }),
                forall|qi: int|
                    0 <= qi < head && queue@[qi] != goal ==> #[trigger] node_expanded_b(
                        *map,
                        visited@,
                        dist@,
                        queue@[qi],
                    ),
            decreases n - head,
        {
            let ghost pre_visited = visited@;
            let ghost pre_queue = queue@;
            let ghost pre_head = head as int;
            let current = queue[head];
            head = head + 1;
            proof {
                map.lemma_index_in_range(current);
                // every queued and every visited node lies within one step
                // of the node just popped
                if pre_head > 0 {
                    assert(dist@[map.spec_index(pre_queue[pre_head - 1])] <= dist@[map.spec_index(
                        current,
                    )]);
                }
                assert forall|v: MapPosition|
                    map.spec_in_bounds(v) && (#[trigger] visited@[map.spec_index(v)]) implies
                    dist@[map.spec_index(v)] <= dist@[map.spec_index(current)] + 1 by {
                    map.lemma_index_in_range(v);
                }
                assert forall|qi: int| 0 <= qi < queue@.len() implies dist@[map.spec_index(
                    #[trigger] queue@[qi],
                )] <= dist@[map.spec_index(current)] + 1 by {
                    if pre_head == 0 {
                        assert(queue@[qi] == current);
                    }
                }
            }
            if current == goal {
                found = true;
                proof {
                    assert forall|qi: int|
                        0 <= qi < head && queue@[qi] != goal implies #[trigger] node_expanded(
                            *map,
                            visited@,
                            queue@[qi],
                        ) by {
                        if qi < pre_head {
                        } else {
                            assert(queue@[qi] == current);
                        }
                    }
                    assert forall|qi: int|
                        0 <= qi < head && queue@[qi] != goal implies #[trigger] node_expanded_b(
                            *map,
                            visited@,
                            dist@,
                            queue@[qi],
                        ) by {
                        if qi < pre_head {
                        } else {
                            assert(queue@[qi] == current);
                        }
                    }
                }
            } else {
                let ghost pre_dist = dist@;
                Self::bfs_visit(
                    map,
                    start,
                    current,
                    current.up(1),
                    &mut visited,
                    &mut parent,
                    &mut dist,
                    &mut queue,
                );
                let ghost vis1 = visited@;
                let ghost dist1 = dist@;
                let ghost qu1 = queue@;
                proof {
                    assert forall|v: MapPosition|
                        map.spec_in_bounds(v) && (#[trigger] visited@[map.spec_index(v)]) implies
                        dist@[map.spec_index(v)] <= dist@[map.spec_index(current)] + 1 by {
                        map.lemma_index_in_range(v);
                        let k = map.spec_index(v);
                        if pre_visited[k] {
                            assert(dist@[k] == pre_dist[k]);
                        }
                    }
                }
                Self::bfs_visit(
                    map,
                    start,
                    current,
                    current.down(1),
                    &mut visited,
                    &mut parent,
                    &mut dist,
                    &mut queue,
                );
                let ghost vis2 = visited@;
                let ghost dist2 = dist@;
                let ghost qu2 = queue@;
                proof {
                    assert forall|v: MapPosition|
                        map.spec_in_bounds(v) && (#[trigger] visited@[map.spec_index(v)]) implies
                        dist@[map.spec_index(v)] <= dist@[map.spec_index(current)] + 1 by {
                        map.lemma_index_in_range(v);
                        let k = map.spec_index(v);
                        if pre_visited[k] {
                            assert(dist@[k] == pre_dist[k]);
                        } else if vis1[k] {
                            assert(dist1[k] == pre_dist[map.spec_index(current)] + 1);
                        }
                    }
                }
                Self::bfs_visit(
                    map,
                    start,
                    current,
                    current.left(1),
                    &mut visited,
                    &mut parent,
                    &mut dist,
                    &mut queue,
                );
                let ghost vis3 = visited@;
                let ghost dist3 = dist@;
                let ghost qu3 = queue@;
                proof {
                    assert forall|v: MapPosition|
                        map.spec_in_bounds(v) && (#[trigger] visited@[map.spec_index(v)]) implies
                        dist@[map.spec_index(v)] <= dist@[map.spec_index(current)] + 1 by {
                        map.lemma_index_in_range(v);
                        let k = map.spec_index(v);
                        if pre_visited[k] {
                            assert(dist@[k] == pre_dist[k]);
                        } else if vis1[k] {
                            assert(dist1[k] == pre_dist[map.spec_index(current)] + 1);
                        } else if vis2[k] {
                            assert(dist2[k] == pre_dist[map.spec_index(current)] + 1);
                        }
                    }
                }
                Self::bfs_visit(
                    map,
                    start,
                    current,
                    current.right(1),
                    &mut visited,
                    &mut parent,
                    &mut dist,
                    &mut queue,
                );
                proof {
                    lemma_count_true_bounds(visited@);
                    assert forall|k: int|
                        0 <= k < pre_visited.len() && pre_visited[k] implies visited@[k] by {}
                    // the four calls covered every neighbour of the
                    // popped node, so it is now expanded
                    assert(node_expanded(*map, visited@, current)) by {
                        assert forall|q: MapPosition|
                            map.spec_in_bounds(q) && !map.tile_at(q).spec_is_solid()
                                && spec_adjacent(current, q) implies #[trigger] visited@[map.spec_index(
                            q,
                        )] by {
                            assert(q.x == current.x && q.y == current.y - 1 || q.x == current.x
                                && q.y == current.y + 1 || q.x == current.x - 1 && q.y == current.y
                                || q.x == current.x + 1 && q.y == current.y);
                        }
                    }
                    assert forall|qi: int|
                        0 <= qi < head && queue@[qi] != goal implies #[trigger] node_expanded(
                            *map,
                            visited@,
                            queue@[qi],
                        ) by {
                        assert(queue@[qi] == pre_queue[qi]);
                        if qi < pre_head {
                            assert(node_expanded(*map, pre_visited, pre_queue[qi]));
                            assert forall|q: MapPosition|
                                map.spec_in_bounds(q) && !map.tile_at(q).spec_is_solid()
                                    && spec_adjacent(queue@[qi], q) implies
                                #[trigger] visited@[map.spec_index(q)] by {
                                map.lemma_index_in_range(q);
                                assert(pre_visited[map.spec_index(q)]);
                            }
                        } else {
                            assert(queue@[qi] == current);
                        }
                    }
                    // depths: old nodes keep theirs, fresh ones sit one
                    // step beyond the popped node
                    let ghost d0 = pre_dist[map.spec_index(current)];
                    assert(dist@[map.spec_index(current)] == d0);
                    assert forall|k: int|
                        0 <= k < pre_visited.len() && pre_visited[k] implies dist@[k]
                            == pre_dist[k] by {}
                    assert forall|v: MapPosition|
                        map.spec_in_bounds(v) && (#[trigger] visited@[map.spec_index(v)]) implies
                        dist@[map.spec_index(v)] <= d0 + 1 by {
                        map.lemma_index_in_range(v);
                        let k = map.spec_index(v);
                        if pre_visited[k] {
                            assert(pre_dist[k] <= d0 + 1);
                        } else if vis1[k] {
                            assert(dist1[k] == d0 + 1);
                        } else if vis2[k] {
                            assert(dist2[k] == d0 + 1);
                        } else if vis3[k] {
                            assert(dist3[k] == d0 + 1);
                        } else {
                            assert(dist@[k] == d0 + 1);
                        }
                    }
                    assert forall|qi: int| 0 <= qi < queue@.len() implies dist@[map.spec_index(
                        #[trigger] queue@[qi],
                    )] <= d0 + 1 by {
                        map.lemma_index_in_range(queue@[qi]);
                    }
                    assert forall|qi: int| pre_queue.len() <= qi < queue@.len() implies
                        dist@[map.spec_index(#[trigger] queue@[qi])] == d0 + 1 by {
                        map.lemma_index_in_range(queue@[qi]);
                        let k = map.spec_index(queue@[qi]);
                        if qi < qu1.len() {
                            assert(queue@[qi] == qu1[qi]);
                            assert(vis1[k] && dist1[k] == d0 + 1);
                        } else if qi < qu2.len() {
                            assert(queue@[qi] == qu2[qi]);
                            assert(vis2[k] && dist2[k] == d0 + 1);
                        } else if qi < qu3.len() {
                            assert(queue@[qi] == qu3[qi]);
                            assert(vis3[k] && dist3[k] == d0 + 1);
                        } else {
                            assert(visited@[k] && dist@[k] == d0 + 1);
                        }
                    }
                    assert forall|qi: int, qj: int| 0 <= qi <= qj < queue@.len() implies
                        dist@[map.spec_index(#[trigger] queue@[qi])] <= dist@[map.spec_index(
                        #[trigger] queue@[qj],
                    )] by {
                        map.lemma_index_in_range(queue@[qi]);
                        map.lemma_index_in_range(queue@[qj]);
                        if qj < pre_queue.len() {
                            assert(pre_dist[map.spec_index(pre_queue[qi])] <= pre_dist[map.spec_index(
                                pre_queue[qj],
                            )]);
                            assert(pre_visited[map.spec_index(pre_queue[qi])]);
                            assert(pre_visited[map.spec_index(pre_queue[qj])]);
                        } else {
                            assert(dist@[map.spec_index(queue@[qj])] == d0 + 1);
                            if qi < pre_queue.len() {
                                assert(pre_visited[map.spec_index(pre_queue[qi])]);
                                assert(dist@[map.spec_index(queue@[qi])] == pre_dist[map.spec_index(
                                    pre_queue[qi],
                                )]);
                                assert(pre_dist[map.spec_index(pre_queue[qi])] <= d0 + 1);
                            }
                        }
                    }
                    assert(node_expanded_b(*map, visited@, dist@, current)) by {
                        assert forall|q: MapPosition|
                            map.spec_in_bounds(q) && !map.tile_at(q).spec_is_solid()
                                && spec_adjacent(current, q) implies (#[trigger] visited@[map.spec_index(
                            q,
                        )]) && dist@[map.spec_index(q)] <= dist@[map.spec_index(current)] + 1 by {
                            map.lemma_index_in_range(q);
                            assert(q.x == current.x && q.y == current.y - 1 || q.x == current.x
                                && q.y == current.y + 1 || q.x == current.x - 1 && q.y == current.y
                                || q.x == current.x + 1 && q.y == current.y);
                        }
                    }
                    assert forall|qi: int|
                        0 <= qi < head && queue@[qi] != goal implies #[trigger] node_expanded_b(
                            *map,
                            visited@,
                            dist@,
                            queue@[qi],
                        ) by {
                        assert(queue@[qi] == pre_queue[qi]);
                        if qi < pre_head {
                            assert(node_expanded_b(*map, pre_visited, pre_dist, pre_queue[qi]));
                            map.lemma_index_in_range(pre_queue[qi]);
                            assert(pre_visited[map.spec_index(pre_queue[qi])]);
                            assert(dist@[map.spec_index(queue@[qi])] == pre_dist[map.spec_index(
                                pre_queue[qi],
                            )]);
                            assert forall|q: MapPosition|
                                map.spec_in_bounds(q) && !map.tile_at(q).spec_is_solid()
                                    && spec_adjacent(queue@[qi], q) implies (
                            #[trigger] visited@[map.spec_index(q)]) && dist@[map.spec_index(q)]
                                <= dist@[map.spec_index(queue@[qi])] + 1 by {
                                map.lemma_index_in_range(q);
                                assert(pre_visited[map.spec_index(q)]);
                                assert(pre_dist[map.spec_index(q)] <= pre_dist[map.spec_index(
                                    pre_queue[qi],
                                )] + 1);
                                assert(dist@[map.spec_index(q)] == pre_dist[map.spec_index(q)]);
                            }
                        } else {
                            assert(queue@[qi] == current);
                        }
                    }
                }
            }
        }
        if !found {
            proof {
                map.lemma_index_in_range(goal);
                // the goal was never reached: it is unvisited, and the
                // visited set is closed under expansion
                assert(!visited@[map.spec_index(goal)]) by {
                    if visited@[map.spec_index(goal)] {
                        let qi = choose|qi: int|
                            0 <= qi < queue@.len() && #[trigger] queue@[qi] == goal;
                        assert(queue@[qi] != goal);
                    }
                }
                assert forall|v: MapPosition|
                    map.spec_in_bounds(v) && visited@[map.spec_index(v)] && v != goal implies
                    #[trigger] node_expanded(*map, visited@, v) by {
                    map.lemma_index_in_range(v);
                    let qi = choose|qi: int| 0 <= qi < queue@.len() && #[trigger] queue@[qi] == v;
                    assert(node_expanded(*map, visited@, queue@[qi]));
                }
                assert forall|p: Seq<MapPosition>| !spec_path_ok(*map, start, goal, p) by {
                    if spec_path_ok(*map, start, goal, p) {
                        lemma_path_reaches_goal(*map, start, goal, visited@, p);
                    }
                }
            }
            return None;
        }
        // walk the parent links back from the goal
        let mut rev: Vec<MapPosition> = Vec::new();
        let mut curr = goal;
        while curr != start
            invariant
                map.wf(),
                map.spec_in_bounds(start),
                start != goal,
                bfs_inv(*map, start, visited@, parent@, dist@),
                map.spec_in_bounds(curr),
                visited@[map.spec_index(curr)],
                rev@.len() == 0 ==> curr == goal,
                rev@.len() > 0 ==> rev@[0] == goal && spec_adjacent(curr, rev@[rev@.len() - 1]),
                map.spec_in_bounds(goal),
                rev@.len() + dist@[map.spec_index(curr)] == dist@[map.spec_index(goal)],
                forall|i: int|
                    0 <= i < rev@.len() - 1 ==> spec_adjacent(#[trigger] rev@[i + 1], rev@[i]),
                forall|i: int|
                    0 <= i < rev@.len() ==> map.spec_in_bounds(#[trigger] rev@[i]) && !map.tile_at(
                        rev@[i],
                    ).spec_is_solid(),
            decreases dist@[map.spec_index(curr)],
        {
            proof {
                map.lemma_index_in_range(curr);
                assert(node_ok(*map, start, visited@, parent@, dist@, curr));
            }
            rev.push(curr);
            let ci = map.index_of(curr);
            curr = parent[ci];
        }
        let mut path: Vec<MapPosition> = Vec::new();
        let rn = rev.len();
        let mut j = rn;
        while j > 0
            invariant
                rn == rev@.len(),
                j <= rn,
                path@.len() + j == rn,
                forall|i: int| 0 <= i < path@.len() ==> #[trigger] path@[i] == rev@[rn - 1 - i],
            decreases j,
        {
            j = j - 1;
            path.push(rev[j]);
        }
        proof {
            assert(rev@.len() >= 1);
            assert(path@[path@.len() - 1] == rev@[0]);
            assert(spec_adjacent(start, path@[0]));
            map.lemma_index_in_range(goal);
            map.lemma_index_in_range(start);
            // the search ran to exhaustion, so away from the goal the
            // visited set is closed under bounded expansion; hence no
            // valid path is shorter than the goal's recorded depth
            assert(path@.len() == dist@[map.spec_index(goal)]);
            assert forall|v: MapPosition|
                map.spec_in_bounds(v) && visited@[map.spec_index(v)] && v != goal implies
                #[trigger] node_expanded_b(*map, visited@, dist@, v) by {
                map.lemma_index_in_range(v);
                let qi = choose|qi: int| 0 <= qi < queue@.len() && #[trigger] queue@[qi] == v;
                assert(node_expanded_b(*map, visited@, dist@, queue@[qi]));
            }
            assert forall|q: Seq<MapPosition>| spec_path_ok(*map, start, goal, q) implies
                path@.len() <= q.len() by {
                lemma_path_bounds_dist(*map, start, goal, visited@, dist@, q, q.len() - 1);
                assert(q[q.len() - 1] == goal);
            }
            assert forall|i: int| 0 <= i < path@.len() - 1 implies spec_adjacent(
                #[trigger] path@[i],
                path@[i + 1],
            ) by {
                assert(path@[i] == rev@[rn - 1 - i]);
                assert(path@[i + 1] == rev@[rn - 2 - i]);
                assert(spec_adjacent(rev@[(rn - 2 - i) + 1], rev@[rn - 2 - i]));
            }
        }
        Some(path)
    }
}

} // verus!
