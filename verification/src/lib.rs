//! A deterministic animation state-transition engine.
//!
//! A directed graph holds animation segments as vertices and transitions as
//! edges. A playback cursor walks the shortest route towards the desired
//! vertex, one discrete tick at a time.

pub mod animation_graph;
pub mod component;
pub mod graph;
pub mod system;

pub use animation_graph::{
    AtlasId, SegmentBehaviour, SegmentData, SegmentInterval, SpriteAnimationGraph, StateKey,
    TransitionBehaviour, TransitionData, TransitionError,
};
pub use component::SpriteAnimation;
pub use graph::{Edge, Graph, GraphError, Vertex};
pub use system::{animation, AnimationError, Playback, Step, TickOutput};
