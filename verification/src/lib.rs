//! A thin, backend-agnostic 2D rendering layer: textures, scoped render
//! targets, a glyph atlas cache and a width-aware text layout engine.

pub mod atlas;
pub mod backend;
pub mod canvas;
pub mod context;
pub mod font;
pub mod input;
pub mod resource;
pub mod text;
pub mod text_v2;
pub mod texture;
pub mod types;

pub use context::{Context, FrameClock, FIXED_TIMESTEP_MILLIS};
