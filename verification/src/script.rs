//! Scripts on nodes: their sources, their running instances, and what they may ask of the scene.

pub mod api;
pub mod bridge;
pub mod engine;
pub mod host;
pub mod input;
pub mod laws;
pub mod prelude;
pub mod registry;
pub mod roster;
pub mod runtime;
pub mod runtime_laws;
pub mod source;
