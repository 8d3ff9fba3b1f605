//! A generic directed graph with metadata on vertices and edges, and a
//! breadth-first search for the route with the fewest hops.

use std::collections::HashMap;
use std::collections::HashSet;
use std::collections::VecDeque;
use vstd::prelude::*;

verus! {

broadcast use vstd::std_specs::hash::group_hash_axioms;

/// Identifier of a vertex: vertices are numbered in the order they are added.
pub type Vertex = usize;

/// A directed edge, from the first vertex to the second.
pub type Edge = (Vertex, Vertex);

/// The ways a query on a graph can fail.
#[derive(Debug, Clone, Copy, PartialEq, Eq, Structural)]
pub enum GraphError {
    /// No route leads from the first vertex to the second, or one of them is
    /// not in the graph.
    NoSuchPath(Vertex, Vertex),
}

/// The vertices of `path` in the opposite order.
pub(crate) fn reversed(path: &Vec<Vertex>) -> (r: Vec<Vertex>)
    ensures
        r@ == path@.reverse(),
{
    let mut r: Vec<Vertex> = Vec::new();
    let mut i: usize = path.len();
    while i > 0
        invariant
            i <= path@.len(),
            r@.len() == path@.len() - i,
            forall|k: int| 0 <= k < r@.len() ==> r@[k] == path@[path@.len() - 1 - k],
        decreases i,
    {
        i -= 1;
        r.push(path[i]);
    }
    r
}

/// A directed graph. `V` is the metadata of a vertex, `E` that of an edge.
#[derive(Debug, Clone)]
pub struct Graph<V, E> {
    /// Metadata of each edge, by source and then by destination.
    edges: HashMap<Vertex, HashMap<Vertex, E>>,
    /// Metadata of each vertex.
    verts: HashMap<Vertex, V>,
    /// The destinations of the edges that leave each vertex, in the order
    /// the edges were added.
    adjacency: HashMap<Vertex, Vec<Vertex>>,
}

impl<V, E> Graph<V, E> {
    /// The metadata of every vertex.
    pub closed spec fn vertices(&self) -> Map<Vertex, V> {
        self.verts@
    }

    /// The metadata of every edge.
    pub closed spec fn edge_data(&self) -> Map<Edge, E> {
        Map::new(
            |e: Edge| self.edges@.contains_key(e.0) && self.edges@[e.0]@.contains_key(e.1),
            |e: Edge| self.edges@[e.0]@[e.1],
        )
    }

    /// The number of vertices.
    pub open spec fn vertex_count(&self) -> nat {
        self.vertices().len()
    }

    pub open spec fn has_vertex(&self, v: Vertex) -> bool {
        self.vertices().contains_key(v)
    }

    pub open spec fn has_edge(&self, from: Vertex, to: Vertex) -> bool {
        self.edge_data().contains_key((from, to))
    }

    /// The representation is consistent: vertices are numbered from zero
    /// without gaps, and the three tables agree on the vertices and edges.
    pub closed spec fn wf(&self) -> bool {
        &&& self.verts@.dom().finite()
        &&& forall|v: Vertex| #[trigger] self.verts@.contains_key(v) <==> v < self.verts@.len()
        &&& forall|v: Vertex| #[trigger]
            self.edges@.contains_key(v) <==> self.verts@.contains_key(v)
        &&& forall|v: Vertex| #[trigger]
            self.adjacency@.contains_key(v) <==> self.verts@.contains_key(v)
        &&& forall|a: Vertex, b: Vertex|
            self.edges@.contains_key(a) && #[trigger] self.edges@[a]@.contains_key(b)
                ==> self.verts@.contains_key(b)
        &&& forall|a: Vertex, b: Vertex|
            self.verts@.contains_key(a) ==> (#[trigger] self.adjacency@[a]@.contains(b)
                <==> self.edges@[a]@.contains_key(b))
    }

    /// A non-empty sequence of vertices, each joined to the next by an edge.
    pub open spec fn is_walk(&self, p: Seq<Vertex>) -> bool {
        &&& p.len() > 0
        &&& forall|i: int| 0 <= i < p.len() ==> #[trigger] self.has_vertex(p[i])
        &&& forall|i: int| 0 <= i < p.len() - 1 ==> #[trigger] self.has_edge(p[i], p[i + 1])
    }

    /// `p` leads from `start` to `end` along edges of the graph.
    pub open spec fn is_path(&self, p: Seq<Vertex>, start: Vertex, end: Vertex) -> bool {
        &&& self.is_walk(p)
        &&& p[0] == start
        &&& p[p.len() - 1] == end
    }

    /// Some route leads from `start` to `end`.
    pub open spec fn connected(&self, start: Vertex, end: Vertex) -> bool {
        exists|p: Seq<Vertex>| self.is_path(p, start, end)
    }

    /// `p` leads from `start` to `end`, and no route between them has fewer
    /// hops.
    pub open spec fn is_shortest_path(&self, p: Seq<Vertex>, start: Vertex, end: Vertex) -> bool {
        &&& self.is_path(p, start, end)
        &&& forall|q: Seq<Vertex>| #[trigger] self.is_path(q, start, end) ==> p.len() <= q.len()
    }

    /// In a consistent graph the vertices are exactly the numbers below
    /// `vertex_count`, and every edge joins two vertices.
    pub proof fn lemma_wf_facts(&self)
        requires
            self.wf(),
        ensures
            self.vertices().dom().finite(),
            forall|v: Vertex| #[trigger] self.has_vertex(v) <==> v < self.vertex_count(),
            forall|a: Vertex, b: Vertex| #[trigger]
                self.has_edge(a, b) ==> self.has_vertex(a) && self.has_vertex(b),
    {
    }

    /// What a breadth-first search from `start` has established so far.
    /// `dist` is the number of hops at which each visited vertex was
    /// reached, `pred` the vertex it was reached from, `frontier` the
    /// visited vertices whose edges are not yet all followed, and `level`
    /// the distance of the vertex being expanded.
    spec fn search_inv(
        &self,
        start: Vertex,
        visited: Set<Vertex>,
        pred: Map<Vertex, Vertex>,
        dist: Map<Vertex, nat>,
        frontier: Seq<Vertex>,
        level: nat,
    ) -> bool {
        &&& self.wf()
        &&& visited.contains(start)
        &&& dist.dom() == visited
        &&& dist[start] == 0
        &&& forall|v: Vertex| #[trigger]
            visited.contains(v) ==> self.has_vertex(v) && dist[v] <= level + 1
        &&& forall|v: Vertex| #[trigger]
            pred.contains_key(v) <==> visited.contains(v) && v != start
        &&& forall|v: Vertex| #[trigger]
            pred.contains_key(v) ==> visited.contains(pred[v]) && self.has_edge(pred[v], v)
                && dist[v] == dist[pred[v]] + 1
        &&& forall|i: int|
            0 <= i < frontier.len() ==> visited.contains(#[trigger] frontier[i]) && level
                <= dist[frontier[i]]
        &&& forall|i: int, j: int|
            0 <= i <= j < frontier.len() ==> dist[#[trigger] frontier[i]]
                <= dist[#[trigger] frontier[j]]
        &&& forall|u: Vertex, w: Vertex|
            visited.contains(u) && visited.contains(w) && #[trigger] self.has_edge(u, w)
                ==> dist[w] <= dist[u] + 1
        &&& forall|u: Vertex, w: Vertex|
            visited.contains(u) && !frontier.contains(u) && #[trigger] self.has_edge(u, w)
                ==> visited.contains(w)
    }

    /// During a search, the `i`-th vertex of any walk from `start` is either
    /// visited at a distance of at most `i`, or lies beyond the level being
    /// expanded.
    proof fn lemma_walk_bound(
        &self,
        start: Vertex,
        visited: Set<Vertex>,
        pred: Map<Vertex, Vertex>,
        dist: Map<Vertex, nat>,
        frontier: Seq<Vertex>,
        level: nat,
        q: Seq<Vertex>,
        i: int,
    )
        requires
            self.search_inv(start, visited, pred, dist, frontier, level),
            self.is_walk(q),
            q[0] == start,
            0 <= i < q.len(),
        ensures
            (visited.contains(q[i]) && dist[q[i]] <= i) || (frontier.len() > 0 && level < i),
        decreases i,
    {
        if i > 0 {
            self.lemma_walk_bound(start, visited, pred, dist, frontier, level, q, i - 1);
            if visited.contains(q[i - 1]) && dist[q[i - 1]] <= i - 1 {
                assert(self.has_edge(q[i - 1], q[i - 1 + 1]));
                if frontier.contains(q[i - 1]) {
                    let k = choose|k: int| 0 <= k < frontier.len() && frontier[k] == q[i - 1];
                    assert(level <= dist[frontier[k]]);
                } else {
                    assert(visited.contains(q[i]));
                }
            }
        }
    }

    /// An empty graph.
    pub fn new() -> (g: Self)
        ensures
            g.wf(),
            g.vertices() == Map::<Vertex, V>::empty(),
            g.edge_data() == Map::<Edge, E>::empty(),
    {
        Graph { edges: HashMap::new(), verts: HashMap::new(), adjacency: HashMap::new() }
    }

    pub fn get_vertex_metadata(&self, vertex: Vertex) -> (r: Option<&V>)
        ensures
            match r {
                Some(m) => self.has_vertex(vertex) && *m == self.vertices()[vertex],
                None => !self.has_vertex(vertex),
            },
    {
        self.verts.get(&vertex)
    }

    pub fn get_edge_metadata(&self, edge: Edge) -> (r: Option<&E>)
        ensures
            match r {
                Some(m) => self.has_edge(edge.0, edge.1) && *m == self.edge_data()[edge],
                None => !self.has_edge(edge.0, edge.1),
            },
    {
        match self.edges.get(&edge.0) {
            Some(targets) => targets.get(&edge.1),
            None => None,
        }
    }

    pub fn contains_vertex(&self, vertex: Vertex) -> (r: bool)
        ensures
            r == self.has_vertex(vertex),
    {
        self.verts.contains_key(&vertex)
    }

    /// Adds a vertex with the given metadata and returns its identifier, the
    /// next number in sequence.
    pub fn add_node(&mut self, metadata: V) -> (node: Vertex)
        requires
            old(self).wf(),
        ensures
            final(self).wf(),
            node == old(self).vertex_count(),
            !old(self).has_vertex(node),
            final(self).vertices() == old(self).vertices().insert(node, metadata),
            final(self).edge_data() == old(self).edge_data(),
    {
        let node = self.verts.len();
        self.verts.insert(node, metadata);
        self.adjacency.insert(node, Vec::new());
        self.edges.insert(node, HashMap::new());
        node
    }

    /// Adds an edge between two vertices of the graph, or replaces its
    /// metadata if the edge is already there.
    pub fn add_edge(&mut self, edge: Edge, metadata: E)
        requires
            old(self).wf(),
            old(self).has_vertex(edge.0),
            old(self).has_vertex(edge.1),
        ensures
            final(self).wf(),
            final(self).vertices() == old(self).vertices(),
            final(self).edge_data() == old(self).edge_data().insert(edge, metadata),
    {
        let mut targets = self.edges.remove(&edge.0).unwrap();
        let previous = targets.insert(edge.1, metadata);
        self.edges.insert(edge.0, targets);
        if previous.is_none() {
            let mut neighbors = self.adjacency.remove(&edge.0).unwrap();
            neighbors.push(edge.1);
            self.adjacency.insert(edge.0, neighbors);
            proof {
                let before = old(self).adjacency@[edge.0]@;
                assert forall|b: Vertex| #[trigger]
                    self.adjacency@[edge.0]@.contains(b) <==> (before.contains(b) || b
                        == edge.1) by {
                    vstd::seq_lib::lemma_seq_contains_after_push(before, edge.1, b);
                }
            }
        }
    }

    /// Follows the predecessors back from `end` and returns the route from
    /// `start` to `end`.
    fn trace_route(
        &self,
        predecessors: &HashMap<Vertex, Vertex>,
        start: Vertex,
        end: Vertex,
        Ghost(visited): Ghost<Set<Vertex>>,
        Ghost(dist): Ghost<Map<Vertex, nat>>,
        Ghost(frontier): Ghost<Seq<Vertex>>,
        Ghost(level): Ghost<nat>,
    ) -> (route: Vec<Vertex>)
        requires
            self.search_inv(start, visited, predecessors@, dist, frontier, level),
            visited.contains(end),
        ensures
            self.is_path(route@, start, end),
            route@.len() == dist[end] + 1,
    {
        let mut path: Vec<Vertex> = Vec::new();
        path.push(end);
        loop
            invariant
                self.search_inv(start, visited, predecessors@, dist, frontier, level),
                path@.len() >= 1,
                path@[0] == end,
                forall|i: int|
                    0 <= i < path@.len() ==> visited.contains(#[trigger] path@[i]) && dist[path@[i]]
                        + i == dist[end],
                forall|i: int|
                    0 <= i < path@.len() - 1 ==> #[trigger] self.has_edge(path@[i + 1], path@[i]),
            ensures
                path@[path@.len() - 1] == start,
            decreases dist[path@[path@.len() - 1]],
        {
            let last = path[path.len() - 1];
            match predecessors.get(&last) {
                Some(node) => {
                    assert(predecessors@.contains_key(last));
                    path.push(*node);
                },
                None => {
                    break ;
                },
            }
        }
        let route = reversed(&path);
        proof {
            let n = path@.len() as int;
            assert forall|k: int| 0 <= k < route@.len() - 1 implies #[trigger] self.has_edge(
                route@[k],
                route@[k + 1],
            ) by {
                assert(self.has_edge(path@[(n - 2 - k) + 1], path@[n - 2 - k]));
            }
            assert forall|k: int| 0 <= k < route@.len() implies #[trigger] self.has_vertex(
                route@[k],
            ) by {
                assert(visited.contains(path@[n - 1 - k]));
            }
        }
        route
    }

    /// The route with the fewest hops from `start` to `end`, both included.
    ///
    /// Where several routes are equally short, the search follows the edges
    /// of each vertex in the order they were added and takes the route it
    /// finds first.
    pub fn shortest_path(&self, start: Vertex, end: Vertex) -> (r: Result<Vec<Vertex>, GraphError>)
        requires
            self.wf(),
        ensures
            match r {
                Ok(p) => self.is_shortest_path(p@, start, end),
                Err(e) => !self.connected(start, end) && e == GraphError::NoSuchPath(start, end),
            },
    {
        if !self.verts.contains_key(&start) || !self.verts.contains_key(&end) {
            proof {
                assert forall|q: Seq<Vertex>| !self.is_path(q, start, end) by {
                    if self.is_path(q, start, end) {
                        assert(self.has_vertex(q[0]));
                        assert(self.has_vertex(q[q.len() - 1]));
                    }
                }
            }
            return Err(GraphError::NoSuchPath(start, end));
        }
        let mut visited: HashSet<Vertex> = HashSet::new();
        let mut queue: VecDeque<Vertex> = VecDeque::new();
        let mut predecessors: HashMap<Vertex, Vertex> = HashMap::new();
        let ghost mut dist: Map<Vertex, nat> = Map::empty().insert(start, 0nat);
        let ghost mut level: nat = 0;

        visited.insert(start);
        queue.push_back(start);
        proof {
            assert(queue@ =~= seq![start]);
            assert(queue@[0] == start);
        }

        while queue.len() > 0
            invariant
                self.search_inv(start, visited@, predecessors@, dist, queue@, level),
                visited@.finite(),
                visited@.contains(end) ==> queue@.contains(end),
                self.has_vertex(end),
            decreases self.verts@.len() - visited@.len() + queue@.len(),
        {
            let ghost frontier = queue@;
            proof {
                vstd::set_lib::lemma_len_subset(visited@, self.verts@.dom());
            }
            let current = queue.pop_front().unwrap();
            proof {
                level = dist[current];
                assert(frontier[0] == current);
                assert(frontier =~= seq![current] + queue@);
            }
            if current == end {
                let route = self.trace_route(
                    &predecessors,
                    start,
                    end,
                    Ghost(visited@),
                    Ghost(dist),
                    Ghost(frontier),
                    Ghost(level),
                );
                proof {
                    assert forall|q: Seq<Vertex>| #[trigger]
                        self.is_path(q, start, end) implies route@.len() <= q.len() by {
                        self.lemma_walk_bound(
                            start,
                            visited@,
                            predecessors@,
                            dist,
                            frontier,
                            level,
                            q,
                            q.len() - 1,
                        );
                    }
                }
                return Ok(route);
            }
            let neighbors = self.adjacency.get(&current).unwrap();
            let ghost measure = self.verts@.len() - visited@.len() + queue@.len();
            let mut i: usize = 0;
            while i < neighbors.len()
                invariant
                    i <= neighbors@.len(),
                    self.verts@.contains_key(current),
                    neighbors@ == self.adjacency@[current]@,
                    self.search_inv(
                        start,
                        visited@,
                        predecessors@,
                        dist,
                        seq![current] + queue@,
                        level,
                    ),
                    level == dist[current],
                    current != end,
                    visited@.finite(),
                    visited@.contains(end) ==> queue@.contains(end),
                    forall|k: int| 0 <= k < i ==> visited@.contains(#[trigger] neighbors@[k]),
                    self.verts@.len() - visited@.len() + queue@.len() == measure,
                decreases neighbors@.len() - i,
            {
                let neighbor = neighbors[i];
                proof {
                    assert(self.adjacency@[current]@.contains(neighbor));
                    assert(self.edges@[current]@.contains_key(neighbor));
                    assert(self.has_edge(current, neighbor));
                }
                if !visited.contains(&neighbor) {
                    let ghost before = seq![current] + queue@;
                    let ghost seen = visited@;
                    let ghost old_dist = dist;
                    let ghost waiting = queue@;
                    proof {
                        assert(before[0] == current);
                        assert(seen.contains(current));
                    }
                    visited.insert(neighbor);
                    queue.push_back(neighbor);
                    predecessors.insert(neighbor, current);
                    proof {
                        dist = dist.insert(neighbor, level + 1);
                        let after = seq![current] + queue@;
                        assert(after =~= before.push(neighbor));
                        assert(dist.dom() =~= visited@);
                        assert(queue@.contains(end) <== waiting.contains(end) || neighbor == end) by {
                            vstd::seq_lib::lemma_seq_contains_after_push(waiting, neighbor, end);
                        }
                        assert forall|u: Vertex| !#[trigger] after.contains(u) implies !before.contains(
                            u,
                        ) by {
                            vstd::seq_lib::lemma_seq_contains_after_push(before, neighbor, u);
                        }
                        assert forall|u: Vertex, w: Vertex|
                            visited@.contains(u) && visited@.contains(w) && #[trigger] self.has_edge(
                                u,
                                w,
                            ) implies dist[w] <= dist[u] + 1 by {
                            if w == neighbor && u != neighbor {
                                if !before.contains(u) {
                                    assert(seen.contains(neighbor));
                                }
                                let k = choose|k: int| 0 <= k < before.len() && before[k] == u;
                                assert(level <= old_dist[before[k]]);
                            }
                        }
                        assert(after[after.len() - 1] == neighbor);
                        assert forall|u: Vertex, w: Vertex|
                            visited@.contains(u) && !after.contains(u) && #[trigger] self.has_edge(
                                u,
                                w,
                            ) implies visited@.contains(w) by {
                            assert(u != neighbor);
                            assert(!before.contains(u));
                            assert(seen.contains(w));
                        }
                        assert(self.search_inv(
                            start,
                            visited@,
                            predecessors@,
                            dist,
                            after,
                            level,
                        ));
                    }
                }
                i += 1;
            }
            proof {
                let during = seq![current] + queue@;
                assert forall|u: Vertex, w: Vertex|
                    visited@.contains(u) && !queue@.contains(u) && #[trigger] self.has_edge(
                        u,
                        w,
                    ) implies visited@.contains(w) by {
                    if u == current {
                        assert(self.edges@[current]@.contains_key(w));
                        assert(neighbors@.contains(w));
                    } else {
                        assert(!during.contains(u)) by {
                            if during.contains(u) {
                                let k = choose|k: int| 0 <= k < during.len() && during[k] == u;
                                assert(queue@[k - 1] == u);
                            }
                        }
                    }
                }
                assert forall|k: int| 0 <= k < queue@.len() implies visited@.contains(
                    #[trigger] queue@[k],
                ) && level <= dist[queue@[k]] by {
                    assert(during[k + 1] == queue@[k]);
                }
                assert forall|a: int, b: int| 0 <= a <= b < queue@.len() implies dist[#[trigger] queue@[a]]
                    <= dist[#[trigger] queue@[b]] by {
                    assert(during[a + 1] == queue@[a]);
                    assert(during[b + 1] == queue@[b]);
                }
            }
        }
        proof {
            assert forall|q: Seq<Vertex>| !self.is_path(q, start, end) by {
                if self.is_path(q, start, end) {
                    self.lemma_walk_bound(
                        start,
                        visited@,
                        predecessors@,
                        dist,
                        queue@,
                        level,
                        q,
                        q.len() - 1,
                    );
                }
            }
        }
        Err(GraphError::NoSuchPath(start, end))
    }

    /// The graph with one more vertex: `add_node` in builder style.
    pub fn with_node(self, metadata: V) -> (g: Self)
        requires
            self.wf(),
        ensures
            g.wf(),
            g.vertices() == self.vertices().insert(self.vertex_count() as Vertex, metadata),
            g.edge_data() == self.edge_data(),
    {
        let mut g = self;
        g.add_node(metadata);
        g
    }

    /// The graph with one more edge: `add_edge` in builder style.
    pub fn with_edge(self, edge: Edge, metadata: E) -> (g: Self)
        requires
            self.wf(),
            self.has_vertex(edge.0),
            self.has_vertex(edge.1),
        ensures
            g.wf(),
            g.vertices() == self.vertices(),
            g.edge_data() == self.edge_data().insert(edge, metadata),
    {
        let mut g = self;
        g.add_edge(edge, metadata);
        g
    }
}

} // verus!
