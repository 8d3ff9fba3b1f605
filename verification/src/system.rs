//! The per-tick driver: it re-targets the cursor when the desired vertex has
//! changed, takes the immediate transitions that are pending, and then lets
//! the current segment play on until its wait is over.

use crate::animation_graph::{AtlasId, SpriteAnimationGraph, TransitionBehaviour};
use crate::component::{popped, SpriteAnimation};
use crate::graph::{GraphError, Vertex};
use vstd::prelude::*;

verus! {

/// The ways a tick can fail.
#[derive(Debug, Clone, Copy, PartialEq, Eq, Structural)]
pub enum AnimationError {
    /// No route leads from the first vertex to the second.
    NoSuchPath(Vertex, Vertex),
    /// The graph has no transition from the first vertex to the second.
    MissingTransition(Vertex, Vertex),
}

/// What one phase of a tick did.
#[derive(Debug, Clone, Copy, PartialEq, Eq, Structural)]
pub struct Step {
    /// The frame to display.
    pub frame: usize,
    /// How many transitions were taken.
    pub transitions: usize,
}

/// What to display after a tick.
#[derive(Debug, Clone, Copy, PartialEq, Eq, Structural)]
pub struct TickOutput {
    /// The frame to display.
    pub frame: usize,
    /// The texture atlas of the segment the cursor is at.
    pub texture_atlas_handle: AtlasId,
    /// How many immediate transitions the tick took. The texture atlas is
    /// renewed once for each transition.
    pub immediate_transitions: usize,
    /// Whether the tick then took the transition it had been waiting for.
    pub wait_transition: bool,
}

/// The state of one playback, as the driver sees it.
pub struct Playback {
    pub current: Vertex,
    pub path: Seq<Vertex>,
    pub frame: int,
    /// The transitions taken so far.
    pub hops: nat,
}

/// The cursor has not arrived and its next transition is immediate.
pub open spec fn drains(m: SpriteAnimationGraph, s: Playback) -> bool {
    &&& s.path.len() > 0
    &&& !(s.path.len() == 1 && s.path[0] == s.current)
    &&& m.graph().has_edge(s.current, s.path.last())
    &&& m.transition(s.current, s.path.last()).transition_behaviour
        == TransitionBehaviour::Immediate
}

/// The playback after the pending transition is taken: the cursor stands on
/// the next vertex, at the frame of the new segment that the transition
/// names.
pub open spec fn hop(m: SpriteAnimationGraph, s: Playback) -> Playback {
    let next = s.path.last();
    Playback {
        current: next,
        path: popped(s.path),
        frame: m.segment(next).segment_interval.start + m.transition(
            s.current,
            next,
        ).transition_to_frame,
        hops: s.hops + 1,
    }
}

/// What is left to walk, counted so that every transition lowers it.
pub open spec fn remaining(s: Playback) -> nat {
    2 * s.path.len() + if s.path.len() > 0 && s.current != s.path.last() {
        1nat
    } else {
        0nat
    }
}

/// The playback after every pending immediate transition is taken, one after
/// the other.
pub open spec fn drained(m: SpriteAnimationGraph, s: Playback) -> Playback
    decreases remaining(s),
{
    if drains(m, s) {
        drained(m, hop(m, s))
    } else {
        s
    }
}

/// The playback after the wait phase. `fired` says whether the tick timer
/// reached its interval.
pub open spec fn advanced(m: SpriteAnimationGraph, s: Playback, fired: bool) -> Result<
    Playback,
    AnimationError,
> {
    let next = s.path.last();
    if !m.graph().has_edge(s.current, next) {
        Err(AnimationError::MissingTransition(s.current, next))
    } else {
        match m.transition(s.current, next).transition_behaviour {
            TransitionBehaviour::Immediate => Ok(s),
            TransitionBehaviour::Wait(wait_frame) => {
                let interval = m.segment(s.current).segment_interval;
                let finished = interval.start + if wait_frame < interval.length - 1 {
                    wait_frame as int
                } else {
                    interval.length - 1
                };
                if !fired {
                    Ok(s)
                } else if s.frame != finished {
                    Ok(
                        Playback {
                            frame: interval.start + (s.frame + 1 - interval.start) % (
                            interval.length as int),
                            ..s
                        },
                    )
                } else {
                    Ok(hop(m, s))
                }
            },
        }
    }
}

/// The playback after `n` transitions are taken, whatever their kind.
pub open spec fn after_hops(m: SpriteAnimationGraph, s: Playback, n: nat) -> Playback
    decreases n,
{
    if n == 0 {
        s
    } else {
        after_hops(m, hop(m, s), (n - 1) as nat)
    }
}

/// One tick on a playback whose path is already set.
pub open spec fn ticked(m: SpriteAnimationGraph, s: Playback, fired: bool) -> Result<
    Playback,
    AnimationError,
> {
    advanced(m, drained(m, s), fired)
}

/// `path` is what the cursor's path becomes when `desired` is observed: the
/// old path where it already leads to `desired`, else a shortest route from
/// `current` to `desired`, as a stack without `current` on top.
pub open spec fn retargeted(
    m: SpriteAnimationGraph,
    current: Vertex,
    old_path: Seq<Vertex>,
    desired: Vertex,
    path: Seq<Vertex>,
) -> bool {
    if old_path[0] == desired {
        path == old_path
    } else {
        exists|p: Seq<Vertex>| #[trigger]
            m.graph().is_shortest_path(p, current, desired) && path == popped(p.reverse())
    }
}

impl SpriteAnimation {
    /// The playback of this cursor at `frame`, after `hops` transitions.
    pub open spec fn playback(&self, frame: int, hops: nat) -> Playback {
        Playback { current: self.current(), path: self.path(), frame, hops }
    }

    /// Points the cursor at `desired_vertex`. Where the path leads elsewhere
    /// it is replaced by a shortest route from the current vertex, and what
    /// was left of the old path is dropped.
    pub fn retarget(&mut self, graph: &SpriteAnimationGraph, desired_vertex: Vertex) -> (r: Result<
        (),
        GraphError,
    >)
        requires
            graph.wf(),
            old(self).follows(graph.graph()),
        ensures
            match r {
                Ok(_) => {
                    &&& final(self).follows(graph.graph())
                    &&& final(self).current() == old(self).current()
                    &&& final(self).desired() == desired_vertex
                    &&& retargeted(
                        *graph,
                        old(self).current(),
                        old(self).path(),
                        desired_vertex,
                        final(self).path(),
                    )
                },
                Err(e) => {
                    &&& *final(self) == *old(self)
                    &&& old(self).desired() != desired_vertex
                    &&& !graph.graph().connected(old(self).current(), desired_vertex)
                    &&& e == GraphError::NoSuchPath(old(self).current(), desired_vertex)
                },
            },
    {
        if self.desired_path[0] != desired_vertex {
            match graph.shortest_path(self.current_vertex, desired_vertex) {
                Ok(path) => {
                    let ghost route = path@.reverse();
                    let ghost stack = path@;
                    self.desired_path = path;
                    self.transition();
                    proof {
                        let g = graph.graph();
                        let len = route.len() as int;
                        assert(stack =~= route.reverse());
                        assert(stack.len() == len);
                        assert forall|i: int| 0 <= i < len implies stack[i] == route[len - 1
                            - i] by {}
                        assert forall|i: int| 0 <= i < self.path().len() implies #[trigger] g.has_vertex(
                            self.path()[i],
                        ) by {
                            assert(g.has_vertex(route[len - 1 - i]));
                        }
                        assert forall|i: int| 0 <= i < self.path().len() - 1 implies #[trigger] g.has_edge(
                            self.path()[i + 1],
                            self.path()[i],
                        ) by {
                            assert(g.has_edge(route[len - 2 - i], route[len - 2 - i + 1]));
                        }
                        if len > 1 {
                            assert(g.has_edge(route[0int], route[0int + 1]));
                        }
                    }
                    Ok(())
                },
                Err(e) => Err(e),
            }
        } else {
            Ok(())
        }
    }

    /// Takes every immediate transition that is pending, one after the other,
    /// and stops at the first transition that waits, or where the cursor has
    /// arrived.
    pub fn drain(&mut self, graph: &SpriteAnimationGraph, frame: usize) -> (out: Step)
        requires
            graph.wf(),
            old(self).follows(graph.graph()),
        ensures
            final(self).follows(graph.graph()),
            final(self).playback(out.frame as int, out.transitions as nat) == drained(
                *graph,
                old(self).playback(frame as int, 0),
            ),
            graph.segment(old(self).current()).segment_interval.contains(frame as int)
                ==> graph.segment(final(self).current()).segment_interval.contains(
                out.frame as int,
            ),
    {
        let mut frame = frame;
        let mut hops: usize = 0;
        let ghost start = self.playback(frame as int, 0);
        proof {
            graph.graph().lemma_wf_facts();
            assert(self.desired_path.len() <= usize::MAX);
        }
        loop
            invariant
                graph.wf(),
                self.follows(graph.graph()),
                drained(*graph, self.playback(frame as int, hops as nat)) == drained(*graph, start),
                hops <= start.path.len() <= usize::MAX,
                !self.settled() ==> hops + self.path().len() <= start.path.len(),
                graph.segment(start.current).segment_interval.contains(start.frame)
                    ==> graph.segment(self.current()).segment_interval.contains(frame as int),
            ensures
                !drains(*graph, self.playback(frame as int, hops as nat)),
            decreases remaining(self.playback(frame as int, hops as nat)),
        {
            let next = self.next_vertex();
            if self.desired_path.len() == 1 && next == self.current_vertex {
                break ;
            }
            let transition = *graph.get_transition_data((self.current_vertex, next));
            match transition.transition_behaviour {
                TransitionBehaviour::Wait(_) => {
                    break ;
                },
                TransitionBehaviour::Immediate => {},
            }
            proof {
                graph.graph().lemma_wf_facts();
                assert(graph.graph().has_edge(self.current(), next));
                assert(graph.admits((self.current(), next), transition));
                assert(graph.graph().has_vertex(next));
                assert(graph.segment(next).segment_interval.wf());
            }
            let ghost before = self.playback(frame as int, hops as nat);
            self.transition();
            let segment = graph.get_segment_data(self.current_vertex);
            frame = segment.segment_interval.start + transition.transition_to_frame;
            hops = hops + 1;
            proof {
                assert(self.playback(frame as int, hops as nat) == hop(*graph, before));
                let path = before.path;
                if path.len() > 1 {
                    assert(graph.graph().has_edge(path[path.len() - 2 + 1], path[path.len() - 2]));
                }
            }
        }
        Step { frame, transitions: hops }
    }

    /// The wait phase. Where the pending transition waits and the tick timer
    /// has reached its interval, the segment plays on by one frame, wrapping
    /// at its end, until it shows the frame the transition waits for; at that
    /// frame the transition is taken.
    pub fn advance(&mut self, graph: &SpriteAnimationGraph, frame: usize, timer_finished: bool) -> (r:
        Result<Step, AnimationError>)
        requires
            graph.wf(),
            old(self).follows(graph.graph()),
            graph.segment(old(self).current()).segment_interval.contains(frame as int),
        ensures
            final(self).follows(graph.graph()),
            match r {
                Ok(out) => {
                    &&& advanced(*graph, old(self).playback(frame as int, 0), timer_finished)
                        == Ok::<Playback, AnimationError>(
                        final(self).playback(out.frame as int, out.transitions as nat),
                    )
                    &&& graph.segment(final(self).current()).segment_interval.contains(
                        out.frame as int,
                    )
                },
                Err(e) => {
                    &&& advanced(*graph, old(self).playback(frame as int, 0), timer_finished)
                        == Err::<Playback, AnimationError>(e)
                    &&& *final(self) == *old(self)
                },
            },
    {
        let next = self.next_vertex();
        let transition = match graph.as_graph().get_edge_metadata((self.current_vertex, next)) {
            Some(transition) => *transition,
            None => {
                return Err(AnimationError::MissingTransition(self.current_vertex, next));
            },
        };
        proof {
            graph.graph().lemma_wf_facts();
            assert(graph.graph().has_edge(self.current(), next));
            assert(graph.admits((self.current(), next), transition));
            assert(graph.graph().has_vertex(next));
            assert(graph.segment(next).segment_interval.wf());
            assert(graph.segment(self.current()).segment_interval.wf());
        }
        match transition.transition_behaviour {
            TransitionBehaviour::Immediate => Ok(Step { frame, transitions: 0 }),
            TransitionBehaviour::Wait(wait_frame) => {
                if !timer_finished {
                    return Ok(Step { frame, transitions: 0 });
                }
                let interval = graph.get_segment_data(self.current_vertex).segment_interval;
                let last = interval.length - 1;
                let finished = interval.start + if wait_frame < last {
                    wait_frame
                } else {
                    last
                };
                if frame != finished {
                    let offset = (frame + 1 - interval.start) % interval.length;
                    Ok(Step { frame: interval.start + offset, transitions: 0 })
                } else {
                    let ghost path = self.path();
                    self.transition();
                    let segment = graph.get_segment_data(self.current_vertex);
                    proof {
                        if path.len() > 1 {
                            assert(graph.graph().has_edge(
                                path[path.len() - 2 + 1],
                                path[path.len() - 2],
                            ));
                        }
                    }
                    Ok(
                        Step {
                            frame: segment.segment_interval.start + transition.transition_to_frame,
                            transitions: 1,
                        },
                    )
                }
            },
        }
    }
}

/// The playback after `n` transitions is the one after `n - 1` of them,
/// with one more taken.
pub proof fn lemma_after_hops_last(m: SpriteAnimationGraph, s: Playback, n: nat)
    requires
        n > 0,
    ensures
        after_hops(m, s, n) == hop(m, after_hops(m, s, (n - 1) as nat)),
    decreases n,
{
    assert(after_hops(m, s, n) == after_hops(m, hop(m, s), (n - 1) as nat));
    if n > 1 {
        lemma_after_hops_last(m, hop(m, s), (n - 1) as nat);
        assert(after_hops(m, s, (n - 1) as nat) == after_hops(m, hop(m, s), (n - 2) as nat));
    } else {
        assert(after_hops(m, hop(m, s), 0) == hop(m, s));
        assert(after_hops(m, s, 0) == s);
    }
}

/// Where the next `n` transitions are immediate and the one after them is
/// not, the drain takes exactly those `n`: it counts `n` transitions more,
/// stops before the transition that waits (or where the cursor has arrived),
/// and leaves the frame that the last transition taken names in the segment
/// it leads to.
pub proof fn lemma_immediate_chain(m: SpriteAnimationGraph, s: Playback, n: nat)
    requires
        forall|k: nat| k < n ==> drains(m, #[trigger] after_hops(m, s, k)),
        !drains(m, after_hops(m, s, n)),
    ensures
        drained(m, s) == after_hops(m, s, n),
        drained(m, s).hops == s.hops + n,
        n > 0 ==> {
            let before = after_hops(m, s, (n - 1) as nat);
            let landed = drained(m, s);
            &&& landed.current == before.path.last()
            &&& landed.frame == m.segment(landed.current).segment_interval.start + m.transition(
                before.current,
                landed.current,
            ).transition_to_frame
        },
    decreases n,
{
    if n == 0 {
    } else {
        assert(drains(m, after_hops(m, s, 0)));
        assert forall|k: nat| k < (n - 1) as nat implies drains(
            m,
            #[trigger] after_hops(m, hop(m, s), k),
        ) by {
            assert(drains(m, after_hops(m, s, k + 1)));
        }
        lemma_immediate_chain(m, hop(m, s), (n - 1) as nat);
        lemma_after_hops_last(m, s, n);
    }
}

/// The playback after `n` ticks at each of which the tick timer reached its
/// interval. A tick that fails leaves the playback as it was.
pub open spec fn played(m: SpriteAnimationGraph, s: Playback, n: nat) -> Playback
    decreases n,
{
    if n == 0 {
        s
    } else {
        let before = played(m, s, (n - 1) as nat);
        match ticked(m, before, true) {
            Ok(after) => after,
            Err(_) => before,
        }
    }
}

/// A cursor that rests on `v`, whose transition to itself waits for the last
/// frame of the segment, stays on `v` and keeps its path. At each tick of the
/// timer it shows the next frame; after the last frame it shows the frame
/// that the transition names.
pub proof fn lemma_wait_loop_tick(m: SpriteAnimationGraph, v: Vertex, frame: int, hops: nat)
    requires
        m.wf(),
        m.graph().has_edge(v, v),
        m.transition(v, v).transition_behaviour matches TransitionBehaviour::Wait(wait_frame)
            && wait_frame >= m.segment(v).segment_interval.length - 1,
        m.segment(v).segment_interval.contains(frame),
    ensures
        ({
            let interval = m.segment(v).segment_interval;
            let s = Playback { current: v, path: seq![v], frame, hops };
            if frame == interval.start + interval.length - 1 {
                ticked(m, s, true) == Ok::<Playback, AnimationError>(
                    Playback {
                        frame: interval.start + m.transition(v, v).transition_to_frame,
                        hops: hops + 1,
                        ..s
                    },
                )
            } else {
                ticked(m, s, true) == Ok::<Playback, AnimationError>(
                    Playback { frame: frame + 1, ..s },
                )
            }
        }),
{
    let interval = m.segment(v).segment_interval;
    let s = Playback { current: v, path: seq![v], frame, hops };
    m.graph().lemma_wf_facts();
    assert(m.graph().has_vertex(v));
    assert(interval.wf());
    assert(!drains(m, s));
    assert(drained(m, s) == s);
    assert(s.path.last() == v);
    assert(popped(s.path) == s.path);
    if frame != interval.start + interval.length - 1 {
        let x = frame + 1 - interval.start;
        assert(0 <= x < interval.length);
        assert(x % (interval.length as int) == x) by {
            vstd::arithmetic::div_mod::lemma_small_mod(x as nat, interval.length as nat);
        }
    }
}

/// Looping forever: with a transition to itself that waits for the last
/// frame and resumes at the first, a cursor that rests on `v` shows the
/// frames of the segment in a cycle, `start, start + 1, ...,
/// start + length - 1, start, ...`, one for each tick of the timer, and never
/// leaves `v` or changes its path.
pub proof fn lemma_wait_loop_cycles(m: SpriteAnimationGraph, v: Vertex, frame: int, n: nat)
    requires
        m.wf(),
        m.graph().has_edge(v, v),
        m.transition(v, v).transition_behaviour matches TransitionBehaviour::Wait(wait_frame)
            && wait_frame >= m.segment(v).segment_interval.length - 1,
        m.transition(v, v).transition_to_frame == 0,
        m.segment(v).segment_interval.contains(frame),
    ensures
        ({
            let interval = m.segment(v).segment_interval;
            let s = Playback { current: v, path: seq![v], frame, hops: 0 };
            &&& played(m, s, n).current == v
            &&& played(m, s, n).path == seq![v]
            &&& played(m, s, n).frame == interval.start + (frame - interval.start + n) % (
            interval.length as int)
        }),
    decreases n,
{
    let interval = m.segment(v).segment_interval;
    let length = interval.length as int;
    let s = Playback { current: v, path: seq![v], frame, hops: 0 };
    m.graph().lemma_wf_facts();
    assert(m.graph().has_vertex(v));
    assert(interval.wf());
    if n == 0 {
        vstd::arithmetic::div_mod::lemma_small_mod(
            (frame - interval.start) as nat,
            interval.length as nat,
        );
    } else {
        lemma_wait_loop_cycles(m, v, frame, (n - 1) as nat);
        let before = played(m, s, (n - 1) as nat);
        let x = frame - interval.start + n - 1;
        assert(0 <= x % length < length) by {
            vstd::arithmetic::div_mod::lemma_mod_bound(x, length);
        }
        lemma_wait_loop_tick(m, v, before.frame, before.hops);
        assert(before == Playback { current: v, path: seq![v], frame: before.frame, hops: before.hops });
        vstd::arithmetic::div_mod::lemma_add_mod_noop(x, 1, length);
        if length == 1 {
            vstd::arithmetic::div_mod::lemma_mod_bound(x + 1, length);
        } else {
            vstd::arithmetic::div_mod::lemma_small_mod(1, interval.length as nat);
            if x % length == length - 1 {
                vstd::arithmetic::div_mod::lemma_mod_self_0(length);
            } else {
                vstd::arithmetic::div_mod::lemma_small_mod((x % length + 1) as nat, interval.length as nat);
            }
        }
    }
}

/// The wait phase does not look at the transitions already counted.
proof fn lemma_advanced_counts(m: SpriteAnimationGraph, s: Playback, fired: bool, hops: nat)
    ensures
        match advanced(m, Playback { hops: 0, ..s }, fired) {
            Ok(t) => advanced(m, Playback { hops, ..s }, fired) == Ok::<Playback, AnimationError>(
                Playback { hops: hops + t.hops, ..t },
            ),
            Err(e) => advanced(m, Playback { hops, ..s }, fired) == Err::<Playback, AnimationError>(
                e,
            ),
        },
{
}

/// One tick of the driver for one cursor. `desired_vertex` is the vertex of
/// the state observed at this tick, `frame` the frame on display, and
/// `timer_finished` says whether the tick timer reached its interval.
///
/// The cursor is re-targeted where the desired vertex has changed, then the
/// pending immediate transitions are taken, then the wait phase runs. Where
/// no route leads to the desired vertex the cursor is left as it was.
pub fn animation(
    graph: &SpriteAnimationGraph,
    cursor: &mut SpriteAnimation,
    desired_vertex: Vertex,
    frame: usize,
    timer_finished: bool,
) -> (r: Result<TickOutput, AnimationError>)
    requires
        graph.wf(),
        old(cursor).follows(graph.graph()),
        graph.segment(old(cursor).current()).segment_interval.contains(frame as int),
    ensures
        final(cursor).follows(graph.graph()),
        old(cursor).desired() != desired_vertex && !graph.graph().connected(
            old(cursor).current(),
            desired_vertex,
        ) ==> {
            &&& r == Err::<TickOutput, AnimationError>(
                AnimationError::NoSuchPath(old(cursor).current(), desired_vertex),
            )
            &&& *final(cursor) == *old(cursor)
        },
        old(cursor).desired() == desired_vertex || graph.graph().connected(
            old(cursor).current(),
            desired_vertex,
        ) ==> exists|path: Seq<Vertex>|
            {
                let start = Playback {
                    current: old(cursor).current(),
                    path,
                    frame: frame as int,
                    hops: 0,
                };
                &&& #[trigger] retargeted(
                    *graph,
                    old(cursor).current(),
                    old(cursor).path(),
                    desired_vertex,
                    path,
                )
                &&& match r {
                    Ok(out) => {
                        &&& ticked(*graph, start, timer_finished) == Ok::<Playback, AnimationError>(
                            final(cursor).playback(
                                out.frame as int,
                                out.immediate_transitions as nat + if out.wait_transition {
                                    1nat
                                } else {
                                    0nat
                                },
                            ),
                        )
                        &&& out.immediate_transitions == drained(*graph, start).hops
                        &&& out.texture_atlas_handle == graph.segment(
                            final(cursor).current(),
                        ).texture_atlas_handle
                        &&& graph.segment(final(cursor).current()).segment_interval.contains(
                            out.frame as int,
                        )
                    },
                    Err(e) => {
                        &&& ticked(*graph, start, timer_finished) == Err::<Playback, AnimationError>(e)
                        &&& final(cursor).current() == drained(*graph, start).current
                        &&& final(cursor).path() == drained(*graph, start).path
                    },
                }
            },
{
    let ghost before = *cursor;
    match cursor.retarget(graph, desired_vertex) {
        Ok(_) => {},
        Err(_) => {
            return Err(AnimationError::NoSuchPath(cursor.current_vertex, desired_vertex));
        },
    }
    let ghost path = cursor.path();
    let ghost start = Playback { current: before.current(), path, frame: frame as int, hops: 0 };
    proof {
        if before.desired() != desired_vertex {
            let p = choose|p: Seq<Vertex>| #[trigger]
                graph.graph().is_shortest_path(p, before.current(), desired_vertex) && path
                    == popped(p.reverse());
            assert(graph.graph().is_path(p, before.current(), desired_vertex));
        }
    }
    let drained_step = cursor.drain(graph, frame);
    proof {
        lemma_advanced_counts(*graph, drained(*graph, start), timer_finished, drained(*graph, start).hops);
        assert(Playback { hops: 0, ..drained(*graph, start) } == cursor.playback(
            drained_step.frame as int,
            0,
        ));
        assert(Playback { hops: drained(*graph, start).hops, ..drained(*graph, start) } == drained(
            *graph,
            start,
        ));
    }
    let waited = match cursor.advance(graph, drained_step.frame, timer_finished) {
        Ok(step) => step,
        Err(e) => {
            proof {
                assert(retargeted(*graph, before.current(), before.path(), desired_vertex, path));
            }
            return Err(e);
        },
    };
    let atlas = graph.get_atlas(cursor.current_vertex);
    proof {
        assert(retargeted(*graph, before.current(), before.path(), desired_vertex, path));
    }
    Ok(
        TickOutput {
            frame: waited.frame,
            texture_atlas_handle: atlas,
            immediate_transitions: drained_step.transitions,
            wait_transition: waited.transitions == 1,
        },
    )
}

} // verus!
