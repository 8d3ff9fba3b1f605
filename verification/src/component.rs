//! The playback cursor of one animated instance.

use crate::graph::{Graph, Vertex};
use vstd::prelude::*;

verus! {

/// The path that is left once its top, the next vertex to visit, has been
/// taken. The last vertex of a path is never taken off: it is the desired
/// vertex, and stays as the target.
pub open spec fn popped(path: Seq<Vertex>) -> Seq<Vertex> {
    if path.len() > 1 {
        path.drop_last()
    } else {
        path
    }
}

/// `path` is a stack of vertices that leads from `current` to `path[0]`
/// along edges of `g`: the top of the stack, its last element, comes first.
/// A cursor that has arrived holds the path `[current]`.
pub open spec fn stack_follows<V, E>(g: Graph<V, E>, current: Vertex, path: Seq<Vertex>) -> bool {
    &&& path.len() > 0
    &&& g.has_vertex(current)
    &&& forall|i: int| 0 <= i < path.len() ==> #[trigger] g.has_vertex(path[i])
    &&& forall|i: int| 0 <= i < path.len() - 1 ==> #[trigger] g.has_edge(path[i + 1], path[i])
    &&& (path.len() == 1 && path[0] == current) || g.has_edge(current, path.last())
}

/// Where one animated instance stands in the animation graph, and the route
/// it still has to walk.
#[derive(Debug, Clone)]
pub struct SpriteAnimation {
    /// The vertex of the current animation state.
    pub current_vertex: Vertex,
    /// The path to the desired vertex, in reverse order: the desired vertex
    /// is at index 0 and the last element is the next vertex to visit.
    pub desired_path: Vec<Vertex>,
}

impl SpriteAnimation {
    /// The vertex the cursor is at.
    pub open spec fn current(&self) -> Vertex {
        self.current_vertex
    }

    /// The stack of vertices still to visit.
    pub open spec fn path(&self) -> Seq<Vertex> {
        self.desired_path@
    }

    /// The path is never empty.
    pub open spec fn wf(&self) -> bool {
        self.path().len() > 0
    }

    /// The vertex the cursor is heading for.
    pub open spec fn desired(&self) -> Vertex {
        self.path()[0]
    }

    /// The cursor has arrived: nothing is left to walk.
    pub open spec fn settled(&self) -> bool {
        self.path().len() == 1 && self.path()[0] == self.current()
    }

    /// The cursor stands in `g` and its path runs along edges of `g`.
    pub open spec fn follows<V, E>(&self, g: Graph<V, E>) -> bool {
        stack_follows(g, self.current(), self.path())
    }

    /// A cursor that rests at `initial_vertex`.
    pub fn new(initial_vertex: Vertex) -> (r: Self)
        ensures
            r.current() == initial_vertex,
            r.path() == seq![initial_vertex],
            r.settled(),
    {
        let mut desired_path: Vec<Vertex> = Vec::new();
        desired_path.push(initial_vertex);
        SpriteAnimation { current_vertex: initial_vertex, desired_path }
    }

    /// The next vertex to visit.
    pub fn next_vertex(&self) -> (v: Vertex)
        requires
            self.wf(),
        ensures
            v == self.path().last(),
    {
        self.desired_path[self.desired_path.len() - 1]
    }

    /// Moves to the next vertex on the path. At the desired vertex the path
    /// stays as it is.
    pub fn transition(&mut self)
        requires
            old(self).wf(),
        ensures
            final(self).current() == old(self).path().last(),
            final(self).path() == popped(old(self).path()),
    {
        if self.desired_path.len() > 1 {
            match self.desired_path.pop() {
                Some(v) => {
                    self.current_vertex = v;
                },
                None => {},
            }
        } else {
            self.current_vertex = self.desired_path[0];
        }
    }
}

} // verus!
