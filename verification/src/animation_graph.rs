//! The animation model: states named by keys, a segment of frames for each
//! state, and a transition rule for each edge between two states.

use crate::graph::{reversed, Edge, Graph, GraphError, Vertex};
use indexmap::IndexMap;
use std::collections::hash_map::RandomState;
use vstd::prelude::*;

verus! {

/// Key that names an animation state.
pub type StateKey = u64;

/// Identifier of a texture atlas. The model stores it and hands it back; it
/// never looks inside.
pub type AtlasId = u64;

/// When a transition is taken.
#[derive(Debug, Clone, Copy, PartialEq, Eq, Structural)]
pub enum TransitionBehaviour {
    /// Once the current segment has reached the given frame offset. An offset
    /// at or beyond the segment's length stands for its last frame.
    Wait(usize),
    /// Within the same tick, without waiting.
    Immediate,
}

impl Default for TransitionBehaviour {
    fn default() -> (r: Self)
        ensures
            r == TransitionBehaviour::Immediate,
    {
        TransitionBehaviour::Immediate
    }
}

/// The direction in which a segment is played.
#[derive(Debug, Clone, Copy, PartialEq, Eq, Structural)]
pub enum SegmentBehaviour {
    Forward,
    Backward,
}

impl Default for SegmentBehaviour {
    fn default() -> (r: Self)
        ensures
            r == SegmentBehaviour::Forward,
    {
        SegmentBehaviour::Forward
    }
}

/// A contiguous range of frames.
#[derive(Debug, Clone, Copy, PartialEq, Eq, Structural)]
pub struct SegmentInterval {
    pub start: usize,
    pub length: usize,
}

impl SegmentInterval {
    pub fn new(start: usize, length: usize) -> (r: Self)
        ensures
            r.start == start,
            r.length == length,
    {
        Self { start, length }
    }

    /// The range holds at least one frame, and its frames are representable.
    pub open spec fn wf(&self) -> bool {
        self.length >= 1 && self.start + self.length <= usize::MAX
    }

    /// `frame` lies in the range.
    pub open spec fn contains(&self, frame: int) -> bool {
        self.start <= frame < self.start + self.length
    }
}

/// A segment is a single state of the animation graph.
#[derive(Debug, Clone, Copy, PartialEq, Eq, Structural)]
pub struct SegmentData {
    pub segment_behaviour: SegmentBehaviour,
    pub segment_interval: SegmentInterval,
    pub texture_atlas_handle: AtlasId,
}

/// The rule for moving from one segment to another.
#[derive(Debug, Clone, Copy, PartialEq, Eq, Structural)]
pub struct TransitionData {
    pub transition_behaviour: TransitionBehaviour,
    /// Frame offset in the next segment at which playback resumes.
    pub transition_to_frame: usize,
}

impl TransitionData {
    /// Waits for the current segment to finish, then starts the next one at
    /// its first frame. On a self-transition this loops the segment.
    pub fn wait() -> (r: Self)
        ensures
            r.transition_behaviour == TransitionBehaviour::Wait(usize::MAX),
            r.transition_to_frame == 0,
    {
        TransitionData::wait_for_then_to(usize::MAX, 0)
    }

    /// Waits for `frame` of the current segment, then starts the next one at
    /// its first frame.
    pub fn wait_for(frame: usize) -> (r: Self)
        ensures
            r.transition_behaviour == TransitionBehaviour::Wait(frame),
            r.transition_to_frame == 0,
    {
        TransitionData::wait_for_then_to(frame, 0)
    }

    /// Waits for the current segment to finish, then enters the next one at
    /// `frame`.
    pub fn wait_to(frame: usize) -> (r: Self)
        ensures
            r.transition_behaviour == TransitionBehaviour::Wait(usize::MAX),
            r.transition_to_frame == frame,
    {
        TransitionData::wait_for_then_to(usize::MAX, frame)
    }

    /// Waits for `wait_frame` of the current segment, then enters the next
    /// one at `to_frame`.
    pub fn wait_for_then_to(wait_frame: usize, to_frame: usize) -> (r: Self)
        ensures
            r.transition_behaviour == TransitionBehaviour::Wait(wait_frame),
            r.transition_to_frame == to_frame,
    {
        Self {
            transition_behaviour: TransitionBehaviour::Wait(wait_frame),
            transition_to_frame: to_frame,
        }
    }

    /// Moves at once to the first frame of the next segment.
    pub fn immediate() -> (r: Self)
        ensures
            r.transition_behaviour == TransitionBehaviour::Immediate,
            r.transition_to_frame == 0,
    {
        TransitionData::immediate_to(0)
    }

    /// Moves at once to `frame` of the next segment.
    pub fn immediate_to(frame: usize) -> (r: Self)
        ensures
            r.transition_behaviour == TransitionBehaviour::Immediate,
            r.transition_to_frame == frame,
    {
        Self { transition_behaviour: TransitionBehaviour::Immediate, transition_to_frame: frame }
    }
}

impl Default for TransitionData {
    fn default() -> (r: Self)
        ensures
            r.transition_behaviour == TransitionBehaviour::Immediate,
            r.transition_to_frame == 0,
    {
        Self { transition_behaviour: TransitionBehaviour::Immediate, transition_to_frame: 0 }
    }
}

/// Why a transition was not added to the graph.
#[derive(Debug, Clone, Copy, PartialEq, Eq, Structural)]
pub enum TransitionError {
    /// The vertex is an endpoint of the edge and is not in the graph.
    UnknownVertex(Vertex),
    /// An immediate transition from the vertex to itself would never come to
    /// rest.
    ImmediateSelfTransition(Vertex),
    /// The frame to resume at lies beyond the destination segment. The fields
    /// are the source, the destination and the destination segment's length.
    FrameOutOfRange(Vertex, Vertex, usize),
}

/// `indexmap::IndexMap`, a hash map that keeps its entries in the order they
/// were inserted. Nothing inside it is visible here: what it holds is
/// `state_entries`.
#[verifier::external_type_specification]
#[verifier::external_body]
#[verifier::reject_recursive_types(K)]
#[verifier::reject_recursive_types(V)]
#[verifier::reject_recursive_types(S)]
pub struct ExIndexMap<K, V, S>(IndexMap<K, V, S>);

/// The entries of an `indexmap::IndexMap`, in the order of their indices.
pub uninterp spec fn state_entries(m: IndexMap<StateKey, Vertex, RandomState>) -> Seq<
    (StateKey, Vertex),
>;

/// `indexmap::IndexMap::new`: the map it makes has no entries.
#[verifier::external_body]
fn states_new() -> (m: IndexMap<StateKey, Vertex, RandomState>)
    ensures
        state_entries(m) == Seq::<(StateKey, Vertex)>::empty(),
{
    IndexMap::new()
}

/// `indexmap::IndexMap::get`: the value stored under `key`, if any entry has
/// that key.
#[verifier::external_body]
fn states_get(m: &IndexMap<StateKey, Vertex, RandomState>, key: StateKey) -> (r: Option<Vertex>)
    ensures
        match r {
            Some(v) => state_entries(*m).contains((key, v)),
            None => forall|i: int|
                0 <= i < state_entries(*m).len() ==> (#[trigger] state_entries(*m)[i]).0 != key,
        },
{
    m.get(&key).copied()
}

/// `indexmap::IndexMap::get_index`: the entry at `index`, if the map has that
/// many entries.
#[verifier::external_body]
fn states_get_index(m: &IndexMap<StateKey, Vertex, RandomState>, index: usize) -> (r: Option<
    (StateKey, Vertex),
>)
    ensures
        match r {
            Some(e) => index < state_entries(*m).len() && e == state_entries(*m)[index as int],
            None => index >= state_entries(*m).len(),
        },
{
    m.get_index(index).map(|(k, v)| (*k, *v))
}

/// `indexmap::IndexMap::insert`: where no entry has `key`, the pair becomes
/// the last entry and nothing is returned; where one has, its value is
/// replaced in place and the old value is returned.
#[verifier::external_body]
fn states_insert(m: &mut IndexMap<StateKey, Vertex, RandomState>, key: StateKey, value: Vertex) -> (r:
    Option<Vertex>)
    ensures
        match r {
            None => {
                &&& forall|i: int|
                    0 <= i < state_entries(*old(m)).len() ==> (#[trigger] state_entries(
                        *old(m),
                    )[i]).0 != key
                &&& state_entries(*final(m)) == state_entries(*old(m)).push((key, value))
            },
            Some(v) => exists|i: int|
                {
                    &&& 0 <= i < state_entries(*old(m)).len()
                    &&& #[trigger] state_entries(*old(m))[i] == (key, v)
                    &&& state_entries(*final(m)) == state_entries(*old(m)).update(i, (key, value))
                },
        },
{
    m.insert(key, value)
}

/// The animation graph: one vertex for each state, numbered in the order the
/// states were added, with its segment; one edge for each transition.
#[derive(Debug)]
pub struct SpriteAnimationGraph {
    animation_graph: Graph<SegmentData, TransitionData>,
    animation_states: IndexMap<StateKey, Vertex, RandomState>,
}

impl SpriteAnimationGraph {
    /// The graph of segments and transitions.
    pub closed spec fn graph(&self) -> Graph<SegmentData, TransitionData> {
        self.animation_graph
    }

    /// The state keys, each at the index that is its vertex.
    pub closed spec fn states(&self) -> Seq<StateKey> {
        Seq::new(
            state_entries(self.animation_states).len(),
            |i: int| state_entries(self.animation_states)[i].0,
        )
    }

    /// Each entry of the table of states holds its own index as vertex.
    pub closed spec fn indexed(&self) -> bool {
        forall|i: int|
            0 <= i < state_entries(self.animation_states).len() ==> (#[trigger] state_entries(
                self.animation_states,
            )[i]).1 == i
    }

    pub open spec fn segment(&self, v: Vertex) -> SegmentData {
        self.graph().vertices()[v]
    }

    pub open spec fn transition(&self, from: Vertex, to: Vertex) -> TransitionData {
        self.graph().edge_data()[(from, to)]
    }

    /// The rule that a transition must meet to be part of the graph, given
    /// that both its endpoints are: no immediate transition from a state to
    /// itself, and the frame to resume at lies in the destination segment.
    pub open spec fn admits(&self, edge: Edge, t: TransitionData) -> bool {
        &&& !(edge.0 == edge.1 && t.transition_behaviour == TransitionBehaviour::Immediate)
        &&& t.transition_to_frame < self.segment(edge.1).segment_interval.length
    }

    /// There is one vertex for each state key and no key occurs twice; every
    /// segment holds a frame; every transition meets the rule of `admits`.
    pub open spec fn wf(&self) -> bool {
        &&& self.graph().wf()
        &&& self.indexed()
        &&& self.states().no_duplicates()
        &&& self.graph().vertex_count() == self.states().len()
        &&& forall|v: Vertex| #[trigger]
            self.graph().has_vertex(v) ==> self.segment(v).segment_interval.wf()
        &&& forall|a: Vertex, b: Vertex| #[trigger]
            self.graph().has_edge(a, b) ==> self.admits((a, b), self.transition(a, b))
    }

    /// Why `add_transition` refuses a transition, if it does. The endpoints
    /// are looked at first, the source before the destination.
    pub open spec fn rejection(&self, edge: Edge, t: TransitionData) -> Option<TransitionError> {
        if !self.graph().has_vertex(edge.0) {
            Some(TransitionError::UnknownVertex(edge.0))
        } else if !self.graph().has_vertex(edge.1) {
            Some(TransitionError::UnknownVertex(edge.1))
        } else if edge.0 == edge.1 && t.transition_behaviour == TransitionBehaviour::Immediate {
            Some(TransitionError::ImmediateSelfTransition(edge.0))
        } else if t.transition_to_frame >= self.segment(edge.1).segment_interval.length {
            Some(
                TransitionError::FrameOutOfRange(
                    edge.0,
                    edge.1,
                    self.segment(edge.1).segment_interval.length,
                ),
            )
        } else {
            None
        }
    }

    /// `post` is `pre` after the state `state` was registered with
    /// `segment_data`, and `vertex` is the state's vertex. A key that `pre`
    /// already holds keeps its vertex and its segment, and `post` is `pre`.
    pub open spec fn registered(
        pre: Self,
        post: Self,
        state: StateKey,
        segment_data: SegmentData,
        vertex: Vertex,
    ) -> bool {
        &&& post.wf()
        &&& vertex < post.states().len()
        &&& post.states()[vertex as int] == state
        &&& pre.states().contains(state) ==> post == pre
        &&& !pre.states().contains(state) ==> {
            &&& vertex == pre.states().len()
            &&& post.states() == pre.states().push(state)
            &&& post.graph().vertices() == pre.graph().vertices().insert(vertex, segment_data)
            &&& post.graph().edge_data() == pre.graph().edge_data()
        }
    }

    /// Registering the same key twice gives the same vertex both times, and
    /// the second registration changes nothing: the state keeps the segment
    /// it was first given.
    pub proof fn lemma_add_state_idempotent(
        g0: Self,
        g1: Self,
        g2: Self,
        state: StateKey,
        first: SegmentData,
        second: SegmentData,
        v1: Vertex,
        v2: Vertex,
    )
        requires
            Self::registered(g0, g1, state, first, v1),
            Self::registered(g1, g2, state, second, v2),
        ensures
            v1 == v2,
            g2 == g1,
    {
        assert(g1.states().contains(state));
    }

    /// A transition is refused if it leaves a state for the same state at
    /// once, and if its endpoints are in the graph and the frame to resume
    /// at lies at or beyond the destination segment's length.
    pub proof fn lemma_rejects_malformed(&self, edge: Edge, t: TransitionData)
        ensures
            edge.0 == edge.1 && t.transition_behaviour == TransitionBehaviour::Immediate
                ==> self.rejection(edge, t) is Some,
            self.graph().has_vertex(edge.0) && self.graph().has_vertex(edge.1)
                && t.transition_to_frame >= self.segment(edge.1).segment_interval.length
                ==> self.rejection(edge, t) is Some,
            self.rejection(edge, t) is None <==> self.graph().has_vertex(edge.0)
                && self.graph().has_vertex(edge.1) && self.admits(edge, t),
    {
    }

    /// A graph without states.
    pub fn new() -> (g: Self)
        ensures
            g.wf(),
            g.states() == Seq::<StateKey>::empty(),
            g.graph().vertices() == Map::<Vertex, SegmentData>::empty(),
            g.graph().edge_data() == Map::<Edge, TransitionData>::empty(),
    {
        let g = SpriteAnimationGraph {
            animation_graph: Graph::new(),
            animation_states: states_new(),
        };
        proof {
            g.animation_graph.lemma_wf_facts();
        }
        g
    }

    /// The graph of segments and transitions, for queries.
    pub fn as_graph(&self) -> (g: &Graph<SegmentData, TransitionData>)
        ensures
            *g == self.graph(),
    {
        &self.animation_graph
    }

    /// Whether a state with this key has been added.
    pub fn contains_state(&self, state: &StateKey) -> (r: bool)
        ensures
            r == self.states().contains(*state),
    {
        let found = states_get(&self.animation_states, *state);
        proof {
            let entries = state_entries(self.animation_states);
            match found {
                Some(v) => {
                    let i = choose|i: int| 0 <= i < entries.len() && entries[i] == (*state, v);
                    assert(self.states()[i] == *state);
                },
                None => {
                    if self.states().contains(*state) {
                        let i = choose|i: int|
                            0 <= i < self.states().len() && self.states()[i] == *state;
                        assert(entries[i].0 != *state);
                    }
                },
            }
        }
        found.is_some()
    }

    /// Registers a state with its segment and returns its vertex. A key that
    /// is already registered keeps its vertex and its segment: the call then
    /// changes nothing.
    pub fn add_state(&mut self, state: StateKey, segment_data: SegmentData) -> (vertex: Vertex)
        requires
            old(self).wf(),
            segment_data.segment_interval.wf(),
        ensures
            Self::registered(*old(self), *final(self), state, segment_data, vertex),
    {
        let found = states_get(&self.animation_states, state);
        proof {
            self.animation_graph.lemma_wf_facts();
        }
        match found {
            Some(vertex) => {
                proof {
                    let entries = state_entries(self.animation_states);
                    let i = choose|i: int| 0 <= i < entries.len() && entries[i] == (state, vertex);
                    assert(self.states()[i] == state);
                }
                vertex
            },
            None => {
                proof {
                    if self.states().contains(state) {
                        let i = choose|i: int|
                            0 <= i < self.states().len() && self.states()[i] == state;
                        assert(state_entries(self.animation_states)[i].0 != state);
                    }
                }
                let vertex = self.animation_graph.add_node(segment_data);
                states_insert(&mut self.animation_states, state, vertex);
                proof {
                    self.animation_graph.lemma_wf_facts();
                    assert(self.states() =~= old(self).states().push(state));
                    assert forall|v: Vertex| #[trigger]
                        self.graph().has_vertex(v) implies self.segment(
                        v,
                    ).segment_interval.wf() by {
                        if v != vertex {
                            assert(old(self).graph().has_vertex(v));
                        }
                    }
                    assert forall|a: Vertex, b: Vertex| #[trigger]
                        self.graph().has_edge(a, b) implies self.admits(
                        (a, b),
                        self.transition(a, b),
                    ) by {
                        assert(old(self).graph().has_edge(a, b));
                        assert(old(self).graph().has_vertex(b));
                    }
                }
                vertex
            },
        }
    }

    /// Adds a transition along `edge`, or replaces the one that is there.
    /// A transition that breaks a rule of the graph is refused, and the graph
    /// is then left as it was.
    pub fn add_transition(&mut self, edge: Edge, transition_data: TransitionData) -> (r: Result<
        Edge,
        TransitionError,
    >)
        requires
            old(self).wf(),
        ensures
            final(self).wf(),
            match r {
                Ok(e) => {
                    &&& old(self).rejection(edge, transition_data) is None
                    &&& e == edge
                    &&& final(self).states() == old(self).states()
                    &&& final(self).graph().vertices() == old(self).graph().vertices()
                    &&& final(self).graph().edge_data() == old(self).graph().edge_data().insert(
                        edge,
                        transition_data,
                    )
                },
                Err(e) => {
                    &&& old(self).rejection(edge, transition_data) == Some(e)
                    &&& *final(self) == *old(self)
                },
            },
    {
        if !self.animation_graph.contains_vertex(edge.0) {
            return Err(TransitionError::UnknownVertex(edge.0));
        }
        if !self.animation_graph.contains_vertex(edge.1) {
            return Err(TransitionError::UnknownVertex(edge.1));
        }
        if edge.0 == edge.1 && transition_data.transition_behaviour
            == TransitionBehaviour::Immediate {
            return Err(TransitionError::ImmediateSelfTransition(edge.0));
        }
        let length = match self.animation_graph.get_vertex_metadata(edge.1) {
            Some(segment) => segment.segment_interval.length,
            None => 0,
        };
        if transition_data.transition_to_frame >= length {
            return Err(TransitionError::FrameOutOfRange(edge.0, edge.1, length));
        }
        self.animation_graph.add_edge(edge, transition_data);
        proof {
            assert forall|v: Vertex| #[trigger]
                self.graph().has_vertex(v) implies self.segment(v).segment_interval.wf() by {
                assert(old(self).graph().has_vertex(v));
            }
            assert forall|a: Vertex, b: Vertex| #[trigger]
                self.graph().has_edge(a, b) implies self.admits((a, b), self.transition(a, b)) by {
                if (a, b) != edge {
                    assert(old(self).graph().has_edge(a, b));
                }
            }
        }
        Ok(edge)
    }

    /// The vertex of a registered state.
    pub fn get_vertex(&self, state: &StateKey) -> (vertex: Vertex)
        requires
            self.wf(),
            self.states().contains(*state),
        ensures
            vertex < self.states().len(),
            self.states()[vertex as int] == *state,
    {
        let found = states_get(&self.animation_states, *state);
        proof {
            let entries = state_entries(self.animation_states);
            let i = choose|i: int| 0 <= i < self.states().len() && self.states()[i] == *state;
            assert(entries[i].0 == *state);
        }
        match found {
            Some(vertex) => {
                proof {
                    let entries = state_entries(self.animation_states);
                    let i = choose|i: int| 0 <= i < entries.len() && entries[i] == (*state, vertex);
                    assert(self.states()[i] == *state);
                }
                vertex
            },
            None => vstd::pervasive::unreached(),
        }
    }

    /// The key of the state at a vertex.
    pub fn get_state(&self, vertex: Vertex) -> (state: StateKey)
        requires
            vertex < self.states().len(),
        ensures
            state == self.states()[vertex as int],
    {
        match states_get_index(&self.animation_states, vertex) {
            Some(entry) => entry.0,
            None => vstd::pervasive::unreached(),
        }
    }

    /// The texture atlas of the segment at a vertex.
    pub fn get_atlas(&self, vertex: Vertex) -> (atlas: AtlasId)
        requires
            self.graph().has_vertex(vertex),
        ensures
            atlas == self.segment(vertex).texture_atlas_handle,
    {
        self.get_segment_data(vertex).texture_atlas_handle
    }

    /// The segment at a vertex.
    pub fn get_segment_data(&self, vertex: Vertex) -> (segment: &SegmentData)
        requires
            self.graph().has_vertex(vertex),
        ensures
            *segment == self.segment(vertex),
    {
        match self.animation_graph.get_vertex_metadata(vertex) {
            Some(segment) => segment,
            None => vstd::pervasive::unreached(),
        }
    }

    /// The transition along an edge.
    pub fn get_transition_data(&self, edge: Edge) -> (transition: &TransitionData)
        requires
            self.graph().has_edge(edge.0, edge.1),
        ensures
            *transition == self.transition(edge.0, edge.1),
    {
        match self.animation_graph.get_edge_metadata(edge) {
            Some(transition) => transition,
            None => vstd::pervasive::unreached(),
        }
    }

    /// A shortest route from `current` to `desired`, as a stack: `desired`
    /// is at index 0 and `current` is the last element. Fails where no route
    /// leads from one to the other.
    pub fn shortest_path(&self, current: Vertex, desired: Vertex) -> (r: Result<
        Vec<Vertex>,
        GraphError,
    >)
        requires
            self.wf(),
        ensures
            match r {
                Ok(path) => self.graph().is_shortest_path(path@.reverse(), current, desired),
                Err(e) => !self.graph().connected(current, desired) && e == GraphError::NoSuchPath(
                    current,
                    desired,
                ),
            },
    {
        match self.animation_graph.shortest_path(current, desired) {
            Ok(route) => {
                let path = reversed(&route);
                proof {
                    assert(path@.reverse() =~= route@);
                }
                Ok(path)
            },
            Err(e) => Err(e),
        }
    }
}

} // verus!
