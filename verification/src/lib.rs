//! Scene tree, script runtime core and shader front end of a small game engine.

pub mod handle_map;
pub mod numbers;
pub mod pool;
pub mod scene;
pub mod script;
pub mod shader;
pub mod text;
pub mod tree;
