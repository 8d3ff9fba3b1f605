use bevy_animation_state_machine::{
    animation, AnimationError, GraphError, SegmentBehaviour, SegmentData, SegmentInterval,
    SpriteAnimation, SpriteAnimationGraph, Step, TickOutput, TransitionData,
};

fn segment(start: usize, length: usize, atlas: u64) -> SegmentData {
    SegmentData {
        segment_behaviour: SegmentBehaviour::Forward,
        segment_interval: SegmentInterval::new(start, length),
        texture_atlas_handle: atlas,
    }
}

/// Idle and three jump segments, joined by two immediate transitions and one
/// that waits.
fn jump_graph() -> SpriteAnimationGraph {
    let mut g = SpriteAnimationGraph::new();
    let idle = g.add_state(0, segment(0, 10, 50));
    let jump0 = g.add_state(1, segment(0, 1, 51));
    let jump1 = g.add_state(2, segment(1, 1, 52));
    let jump2 = g.add_state(3, segment(2, 1, 53));
    g.add_transition((idle, jump0), TransitionData::immediate()).unwrap();
    g.add_transition((jump0, jump1), TransitionData::immediate()).unwrap();
    g.add_transition((jump1, jump2), TransitionData::wait_for_then_to(0, 0)).unwrap();
    g
}

#[test]
fn jump_scenario() {
    let g = jump_graph();
    let mut cursor = SpriteAnimation::new(0);
    // The tick that observes the new target drains to the second jump segment.
    let out = animation(&g, &mut cursor, 3, 0, false).unwrap();
    assert_eq!(
        out,
        TickOutput {
            frame: 1,
            texture_atlas_handle: 52,
            immediate_transitions: 2,
            wait_transition: false,
        }
    );
    assert_eq!(cursor.current_vertex, 2);
    assert_eq!(cursor.desired_path, vec![3]);
    // Until the timer fires the frame stays.
    for _ in 0..3 {
        let out = animation(&g, &mut cursor, 3, 1, false).unwrap();
        assert_eq!(
            out,
            TickOutput {
                frame: 1,
                texture_atlas_handle: 52,
                immediate_transitions: 0,
                wait_transition: false,
            }
        );
        assert_eq!(cursor.current_vertex, 2);
    }
    // When it fires, the wait is over and the last segment is entered.
    let out = animation(&g, &mut cursor, 3, 1, true).unwrap();
    assert_eq!(
        out,
        TickOutput {
            frame: 2,
            texture_atlas_handle: 53,
            immediate_transitions: 0,
            wait_transition: true,
        }
    );
    assert_eq!(cursor.current_vertex, 3);
    assert_eq!(cursor.desired_path, vec![3]);
}

#[test]
fn jump_scenario_with_the_timer_firing_at_once() {
    let g = jump_graph();
    let mut cursor = SpriteAnimation::new(0);
    let out = animation(&g, &mut cursor, 3, 4, true).unwrap();
    assert_eq!(
        out,
        TickOutput {
            frame: 2,
            texture_atlas_handle: 53,
            immediate_transitions: 2,
            wait_transition: true,
        }
    );
    assert_eq!(cursor.current_vertex, 3);
    assert_eq!(cursor.desired_path, vec![3]);
}

#[test]
fn a_chain_of_immediate_transitions_is_taken_in_one_tick() {
    // Five segments in a row, each entered at its own frame offset, and a
    // waiting transition after them.
    let mut g = SpriteAnimationGraph::new();
    for i in 0..7u64 {
        g.add_state(i, segment(10 * i as usize, 5, 100 + i));
    }
    for i in 0..5usize {
        g.add_transition((i, i + 1), TransitionData::immediate_to(i % 5)).unwrap();
    }
    g.add_transition((5, 6), TransitionData::wait()).unwrap();
    let mut cursor = SpriteAnimation::new(0);
    let out = animation(&g, &mut cursor, 6, 3, false).unwrap();
    // Landed on vertex 5, at its start plus the offset of the last hop.
    assert_eq!(
        out,
        TickOutput {
            frame: 50 + 4,
            texture_atlas_handle: 105,
            immediate_transitions: 5,
            wait_transition: false,
        }
    );
    assert_eq!(cursor.current_vertex, 5);
    assert_eq!(cursor.desired_path, vec![6]);
}

#[test]
fn an_immediate_chain_ends_at_the_desired_vertex() {
    let mut g = SpriteAnimationGraph::new();
    for i in 0..3u64 {
        g.add_state(i, segment(4 * i as usize, 4, i));
    }
    g.add_transition((0, 1), TransitionData::immediate_to(1)).unwrap();
    g.add_transition((1, 2), TransitionData::immediate_to(3)).unwrap();
    g.add_transition((2, 2), TransitionData::wait()).unwrap();
    let mut cursor = SpriteAnimation::new(0);
    let out = animation(&g, &mut cursor, 2, 0, false).unwrap();
    assert_eq!(
        out,
        TickOutput {
            frame: 8 + 3,
            texture_atlas_handle: 2,
            immediate_transitions: 2,
            wait_transition: false,
        }
    );
    assert_eq!(cursor.current_vertex, 2);
    assert_eq!(cursor.desired_path, vec![2]);
}

#[test]
fn an_immediate_cycle_is_left_at_the_desired_vertex() {
    // 0 -> 1 -> 0 are both immediate; the drain still stops on arrival.
    let mut g = SpriteAnimationGraph::new();
    g.add_state(0, segment(0, 2, 0));
    g.add_state(1, segment(2, 2, 1));
    g.add_transition((0, 1), TransitionData::immediate()).unwrap();
    g.add_transition((1, 0), TransitionData::immediate_to(1)).unwrap();
    g.add_transition((1, 1), TransitionData::wait()).unwrap();
    let mut cursor = SpriteAnimation::new(0);
    let out = animation(&g, &mut cursor, 1, 0, false).unwrap();
    assert_eq!(out.immediate_transitions, 1);
    assert_eq!(out.frame, 2);
    assert_eq!(cursor.current_vertex, 1);
    assert_eq!(cursor.desired_path, vec![1]);
}

#[test]
fn a_waiting_self_transition_loops_the_segment() {
    let mut g = SpriteAnimationGraph::new();
    let v = g.add_state(7, segment(3, 4, 9));
    g.add_transition((v, v), TransitionData::wait_for_then_to(3, 0)).unwrap();
    let mut cursor = SpriteAnimation::new(v);
    let mut frame = 3;
    let mut seen = Vec::new();
    for _ in 0..10 {
        let out = animation(&g, &mut cursor, v, frame, true).unwrap();
        assert_eq!(out.immediate_transitions, 0);
        assert_eq!(out.texture_atlas_handle, 9);
        // The wrap to the first frame takes the self-transition.
        assert_eq!(out.wait_transition, frame == 6);
        assert_eq!(cursor.current_vertex, v);
        assert_eq!(cursor.desired_path, vec![v]);
        frame = out.frame;
        seen.push(frame);
    }
    assert_eq!(seen, vec![4, 5, 6, 3, 4, 5, 6, 3, 4, 5]);
}

#[test]
fn waiting_for_the_end_of_the_segment_loops_it_too() {
    let mut g = SpriteAnimationGraph::new();
    let v = g.add_state(7, segment(0, 3, 9));
    g.add_transition((v, v), TransitionData::wait()).unwrap();
    let mut cursor = SpriteAnimation::new(v);
    let mut frame = 0;
    let mut seen = Vec::new();
    for _ in 0..7 {
        frame = animation(&g, &mut cursor, v, frame, true).unwrap().frame;
        seen.push(frame);
        assert_eq!(cursor.desired_path, vec![v]);
    }
    assert_eq!(seen, vec![1, 2, 0, 1, 2, 0, 1]);
}

#[test]
fn a_segment_of_one_frame_loops_on_it() {
    let mut g = SpriteAnimationGraph::new();
    let v = g.add_state(7, segment(5, 1, 9));
    g.add_transition((v, v), TransitionData::wait()).unwrap();
    let mut cursor = SpriteAnimation::new(v);
    for _ in 0..3 {
        let out = animation(&g, &mut cursor, v, 5, true).unwrap();
        assert_eq!(out.frame, 5);
        assert!(out.wait_transition);
    }
}

#[test]
fn without_the_timer_nothing_moves() {
    let mut g = SpriteAnimationGraph::new();
    let v = g.add_state(7, segment(3, 4, 9));
    g.add_transition((v, v), TransitionData::wait()).unwrap();
    let mut cursor = SpriteAnimation::new(v);
    for frame in 3..7 {
        let out = animation(&g, &mut cursor, v, frame, false).unwrap();
        assert_eq!(
            out,
            TickOutput {
                frame,
                texture_atlas_handle: 9,
                immediate_transitions: 0,
                wait_transition: false,
            }
        );
    }
}

fn walk_graph() -> SpriteAnimationGraph {
    // 0: frames 0..8, 1: frames 8..12, 2: frames 12..14.
    let mut g = SpriteAnimationGraph::new();
    g.add_state(0, segment(0, 8, 10));
    g.add_state(1, segment(8, 4, 11));
    g.add_state(2, segment(12, 2, 12));
    for v in 0..3 {
        g.add_transition((v, v), TransitionData::wait()).unwrap();
    }
    g.add_transition((0, 1), TransitionData::wait_for_then_to(3, 2)).unwrap();
    g.add_transition((1, 2), TransitionData::wait_to(1)).unwrap();
    g.add_transition((1, 0), TransitionData::wait_for(100)).unwrap();
    g.add_transition((2, 0), TransitionData::wait()).unwrap();
    g
}

#[test]
fn a_waiting_transition_is_taken_at_its_frame() {
    let g = walk_graph();
    let mut cursor = SpriteAnimation::new(0);
    let mut frame = 1;
    let mut seen = Vec::new();
    for _ in 0..2 {
        let out = animation(&g, &mut cursor, 1, frame, true).unwrap();
        assert!(!out.wait_transition);
        assert_eq!(cursor.current_vertex, 0);
        assert_eq!(cursor.desired_path, vec![1]);
        frame = out.frame;
        seen.push(frame);
    }
    assert_eq!(seen, vec![2, 3]);
    // Frame 3 is the one waited for: the next tick enters the segment of
    // vertex 1 at its third frame.
    let out = animation(&g, &mut cursor, 1, frame, true).unwrap();
    assert_eq!(
        out,
        TickOutput {
            frame: 8 + 2,
            texture_atlas_handle: 11,
            immediate_transitions: 0,
            wait_transition: true,
        }
    );
    assert_eq!(cursor.current_vertex, 1);
    assert_eq!(cursor.desired_path, vec![1]);
}

#[test]
fn a_frame_past_the_awaited_one_wraps_round_to_it() {
    let g = walk_graph();
    let mut cursor = SpriteAnimation::new(0);
    let mut frame = 6;
    let mut seen = Vec::new();
    loop {
        let out = animation(&g, &mut cursor, 1, frame, true).unwrap();
        frame = out.frame;
        seen.push(frame);
        if out.wait_transition {
            break;
        }
    }
    assert_eq!(seen, vec![7, 0, 1, 2, 3, 10]);
    assert_eq!(cursor.current_vertex, 1);
}

#[test]
fn an_awaited_frame_beyond_the_segment_means_its_last_frame() {
    let g = walk_graph();
    // On vertex 1, frames 8..12, heading for 0 and waiting for offset 100.
    let mut cursor = SpriteAnimation::new(1);
    let mut frame = 9;
    let mut seen = Vec::new();
    loop {
        let out = animation(&g, &mut cursor, 0, frame, true).unwrap();
        frame = out.frame;
        seen.push(frame);
        if out.wait_transition {
            break;
        }
    }
    assert_eq!(seen, vec![10, 11, 0]);
    assert_eq!(cursor.current_vertex, 0);
    assert_eq!(cursor.desired_path, vec![0]);
}

#[test]
fn a_route_of_waiting_transitions_is_walked_hop_by_hop() {
    let g = walk_graph();
    let mut cursor = SpriteAnimation::new(0);
    let out = animation(&g, &mut cursor, 2, 3, true).unwrap();
    assert_eq!(out.frame, 10);
    assert_eq!(cursor.current_vertex, 1);
    assert_eq!(cursor.desired_path, vec![2]);
    let out = animation(&g, &mut cursor, 2, 10, true).unwrap();
    assert_eq!(out.frame, 11);
    assert!(!out.wait_transition);
    let out = animation(&g, &mut cursor, 2, 11, true).unwrap();
    assert_eq!(
        out,
        TickOutput {
            frame: 12 + 1,
            texture_atlas_handle: 12,
            immediate_transitions: 0,
            wait_transition: true,
        }
    );
    assert_eq!(cursor.current_vertex, 2);
    assert_eq!(cursor.desired_path, vec![2]);
}

#[test]
fn a_new_target_replaces_the_route() {
    let g = walk_graph();
    let mut cursor = SpriteAnimation::new(0);
    // Heading for vertex 2 by way of 1.
    animation(&g, &mut cursor, 2, 0, false).unwrap();
    assert_eq!(cursor.current_vertex, 0);
    assert_eq!(cursor.desired_path, vec![2, 1]);
    // The target changes before the first hop: the route now leads to 1 only.
    animation(&g, &mut cursor, 1, 0, false).unwrap();
    assert_eq!(cursor.current_vertex, 0);
    assert_eq!(cursor.desired_path, vec![1]);
    // Back to 2, and one hop along.
    let out = animation(&g, &mut cursor, 2, 3, true).unwrap();
    assert_eq!(out.frame, 10);
    assert_eq!(cursor.current_vertex, 1);
    assert_eq!(cursor.desired_path, vec![2]);
    // Mid-route the target becomes 0: the new route starts from vertex 1,
    // where the cursor is, and the hop to 2 is dropped.
    let out = animation(&g, &mut cursor, 0, 10, false).unwrap();
    assert_eq!(out.frame, 10);
    assert_eq!(cursor.current_vertex, 1);
    assert_eq!(cursor.desired_path, vec![0]);
    // Turning back to the vertex the cursor is on settles it at once.
    animation(&g, &mut cursor, 1, 10, false).unwrap();
    assert_eq!(cursor.current_vertex, 1);
    assert_eq!(cursor.desired_path, vec![1]);
}

#[test]
fn an_unchanged_target_keeps_the_route() {
    let g = walk_graph();
    let mut cursor = SpriteAnimation { current_vertex: 0, desired_path: vec![0, 2, 1] };
    // The path already leads to vertex 0, by the long way round: it is kept.
    animation(&g, &mut cursor, 0, 0, false).unwrap();
    assert_eq!(cursor.current_vertex, 0);
    assert_eq!(cursor.desired_path, vec![0, 2, 1]);
}

#[test]
fn an_unreachable_target_fails_and_leaves_the_cursor() {
    let mut g = walk_graph();
    let lonely = g.add_state(9, segment(20, 2, 13));
    let mut cursor = SpriteAnimation::new(0);
    animation(&g, &mut cursor, 2, 0, false).unwrap();
    assert_eq!(cursor.desired_path, vec![2, 1]);
    assert_eq!(
        animation(&g, &mut cursor, lonely, 0, true),
        Err(AnimationError::NoSuchPath(0, lonely))
    );
    assert_eq!(cursor.current_vertex, 0);
    assert_eq!(cursor.desired_path, vec![2, 1]);
    // A vertex that is not in the graph is unreachable too.
    assert_eq!(animation(&g, &mut cursor, 44, 0, true), Err(AnimationError::NoSuchPath(0, 44)));
    assert_eq!(cursor.desired_path, vec![2, 1]);
}

#[test]
fn resting_without_a_self_transition_fails() {
    let g = jump_graph();
    let mut cursor = SpriteAnimation::new(3);
    assert_eq!(animation(&g, &mut cursor, 3, 2, true), Err(AnimationError::MissingTransition(3, 3)));
    assert_eq!(cursor.current_vertex, 3);
    assert_eq!(cursor.desired_path, vec![3]);
    // An immediate hop onto such a vertex is taken before the tick fails.
    let mut g = SpriteAnimationGraph::new();
    g.add_state(0, segment(0, 2, 0));
    g.add_state(1, segment(2, 2, 1));
    g.add_transition((0, 1), TransitionData::immediate()).unwrap();
    let mut cursor = SpriteAnimation::new(0);
    assert_eq!(animation(&g, &mut cursor, 1, 0, false), Err(AnimationError::MissingTransition(1, 1)));
    assert_eq!(cursor.current_vertex, 1);
    assert_eq!(cursor.desired_path, vec![1]);
}

#[test]
fn retarget_alone() {
    let g = walk_graph();
    let mut cursor = SpriteAnimation::new(0);
    assert_eq!(cursor.retarget(&g, 0), Ok(()));
    assert_eq!(cursor.desired_path, vec![0]);
    assert_eq!(cursor.retarget(&g, 2), Ok(()));
    assert_eq!(cursor.current_vertex, 0);
    assert_eq!(cursor.desired_path, vec![2, 1]);
    assert_eq!(cursor.retarget(&g, 5), Err(GraphError::NoSuchPath(0, 5)));
    assert_eq!(cursor.desired_path, vec![2, 1]);
}

#[test]
fn drain_alone() {
    let g = jump_graph();
    let mut cursor = SpriteAnimation { current_vertex: 0, desired_path: vec![3, 2, 1] };
    assert_eq!(cursor.drain(&g, 7), Step { frame: 1, transitions: 2 });
    assert_eq!(cursor.current_vertex, 2);
    assert_eq!(cursor.desired_path, vec![3]);
    // Nothing is pending now but a wait.
    assert_eq!(cursor.drain(&g, 1), Step { frame: 1, transitions: 0 });
    assert_eq!(cursor.current_vertex, 2);
    // A cursor that has arrived drains nothing.
    let mut rested = SpriteAnimation::new(0);
    assert_eq!(rested.drain(&g, 4), Step { frame: 4, transitions: 0 });
    assert_eq!(rested.desired_path, vec![0]);
}

#[test]
fn advance_alone() {
    let g = jump_graph();
    // An immediate transition is not for the wait phase.
    let mut cursor = SpriteAnimation { current_vertex: 0, desired_path: vec![3, 2, 1] };
    assert_eq!(cursor.advance(&g, 5, true), Ok(Step { frame: 5, transitions: 0 }));
    assert_eq!(cursor.current_vertex, 0);
    let mut cursor = SpriteAnimation { current_vertex: 2, desired_path: vec![3] };
    assert_eq!(cursor.advance(&g, 1, false), Ok(Step { frame: 1, transitions: 0 }));
    assert_eq!(cursor.advance(&g, 1, true), Ok(Step { frame: 2, transitions: 1 }));
    assert_eq!(cursor.current_vertex, 3);
    assert_eq!(cursor.advance(&g, 2, true), Err(AnimationError::MissingTransition(3, 3)));
}

/// The animation graph of a player: idle, running, landing, three jump
/// segments out of one atlas, and rolling.
fn player_graph() -> SpriteAnimationGraph {
    let mut g = SpriteAnimationGraph::new();
    let idle = g.add_state(0, segment(0, 10, 0));
    let running = g.add_state(1, segment(0, 8, 1));
    let landing = g.add_state(2, segment(0, 3, 2));
    let up = g.add_state(3, segment(0, 1, 3));
    let max = g.add_state(4, segment(1, 1, 3));
    let down = g.add_state(5, segment(2, 1, 3));
    let rolling = g.add_state(6, segment(0, 7, 4));
    let wait = TransitionData::wait();
    let now = TransitionData::immediate();
    g.add_transition((idle, idle), wait).unwrap();
    g.add_transition((running, running), wait).unwrap();
    g.add_transition((running, idle), TransitionData::wait_for(3)).unwrap();
    g.add_transition((idle, running), TransitionData::immediate_to(3)).unwrap();
    g.add_transition((idle, up), now).unwrap();
    g.add_transition((running, up), now).unwrap();
    g.add_transition((up, up), wait).unwrap();
    g.add_transition((up, max), now).unwrap();
    g.add_transition((max, max), wait).unwrap();
    g.add_transition((max, down), wait).unwrap();
    g.add_transition((down, down), wait).unwrap();
    g.add_transition((down, rolling), now).unwrap();
    g.add_transition((down, landing), now).unwrap();
    g.add_transition((landing, landing), wait).unwrap();
    g.add_transition((landing, up), now).unwrap();
    g.add_transition((landing, idle), wait).unwrap();
    g.add_transition((rolling, rolling), wait).unwrap();
    g.add_transition((rolling, running), TransitionData::wait_to(3)).unwrap();
    g
}

#[test]
fn player_jumps_and_lands() {
    let g = player_graph();
    let mut cursor = SpriteAnimation::new(0);
    // Idle for two ticks.
    assert_eq!(animation(&g, &mut cursor, 0, 0, true).unwrap().frame, 1);
    assert_eq!(animation(&g, &mut cursor, 0, 1, true).unwrap().frame, 2);
    // Jump: the way down leads over the two segments before it.
    let out = animation(&g, &mut cursor, 5, 2, false).unwrap();
    assert_eq!(
        out,
        TickOutput {
            frame: 1,
            texture_atlas_handle: 3,
            immediate_transitions: 2,
            wait_transition: false,
        }
    );
    assert_eq!(cursor.current_vertex, 4);
    let out = animation(&g, &mut cursor, 5, 1, true).unwrap();
    assert_eq!(out.frame, 2);
    assert!(out.wait_transition);
    assert_eq!(cursor.current_vertex, 5);
    // Land: immediate, then the landing segment plays to its end.
    let out = animation(&g, &mut cursor, 2, 2, true).unwrap();
    assert_eq!(
        out,
        TickOutput {
            frame: 1,
            texture_atlas_handle: 2,
            immediate_transitions: 1,
            wait_transition: false,
        }
    );
    assert_eq!(cursor.current_vertex, 2);
    // Back to idle once the last landing frame is shown.
    assert_eq!(animation(&g, &mut cursor, 0, 1, true).unwrap().frame, 2);
    let out = animation(&g, &mut cursor, 0, 2, true).unwrap();
    assert_eq!(
        out,
        TickOutput {
            frame: 0,
            texture_atlas_handle: 0,
            immediate_transitions: 0,
            wait_transition: true,
        }
    );
    assert_eq!(cursor.current_vertex, 0);
    assert_eq!(cursor.desired_path, vec![0]);
}

#[test]
fn player_starts_running_at_the_fourth_frame() {
    let g = player_graph();
    let mut cursor = SpriteAnimation::new(0);
    let out = animation(&g, &mut cursor, 1, 6, false).unwrap();
    assert_eq!(
        out,
        TickOutput {
            frame: 3,
            texture_atlas_handle: 1,
            immediate_transitions: 1,
            wait_transition: false,
        }
    );
    assert_eq!(cursor.current_vertex, 1);
    // Running stops at its fourth frame only.
    let mut frame = 3;
    let mut seen = Vec::new();
    loop {
        let out = animation(&g, &mut cursor, 0, frame, true).unwrap();
        frame = out.frame;
        seen.push(frame);
        if out.wait_transition {
            break;
        }
    }
    assert_eq!(seen, vec![0]);
    assert_eq!(cursor.current_vertex, 0);
}
