//! A verified core for a scene/engine animation scheduler.
//!
//! Scene coroutines are represented as explicit scripts interpreted by a
//! deterministic, single-threaded scheduler.  Each host tick the engine pumps
//! messages from the running scenes, dispatches them to the registered node
//! managers, and returns control to the host once every still-running scene is
//! parked waiting for the next frame.

pub mod audio;
pub mod color;
pub mod element;
pub mod engine;
pub mod engine_message;
pub mod gcx;
pub mod info;
pub mod media;
pub mod node;
pub mod rect;
pub mod scene;
pub mod signal;
pub mod tween;
