//! Sparmos: the logic of a small real-time engine, verified with Verus. The GPU,
//! windowing and audio layers drive it from outside.

pub mod assets;
pub mod binding;
pub mod effects;
pub mod engine;
pub mod events;
pub mod frame;
pub mod geometry;
pub mod instance;
pub mod layout;
pub mod material;
pub mod meshes;
pub mod midi;
pub mod obj;
pub mod physics;
pub mod piano;
pub mod render;
pub mod scene;
pub mod scene_graph;
pub mod sprites;
pub mod synth;
pub mod text;
pub mod texture;
pub mod tui;
