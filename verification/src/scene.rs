//! The scene: a tree of nodes with their components.

pub mod animate;
pub mod animation_laws;
pub mod audio;
pub mod components;
pub mod cull;
pub mod debug;
pub mod decal;
pub mod graph;
pub mod graph_laws;
pub mod laws;
pub mod lod;
pub mod merge;
pub mod mesh;
pub mod model;
pub mod model_laws;
pub mod node;
pub mod physics;
pub mod physics2d;
pub mod physics_laws;
pub mod queries;
pub mod ragdoll;
pub mod ragdoll_builder;
pub mod ragdoll_laws;
pub mod script;
pub mod serialize;
pub mod shape;
pub mod skin;
pub mod streaming;
pub mod sync;
pub mod terrain;
pub mod update;
pub mod world_laws;
