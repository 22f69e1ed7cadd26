//! `dashcompositor`: a layer-based graphics compositor for the terminal.
//!
//! The library holds the RGBA [`FrameBuffer`] that layers are composited
//! into, solid-colour layers with their per-entry controls and the order in
//! which a stack draws them, and encodes a framebuffer for the terminal,
//! either with the Kitty graphics protocol or with Sixel. Blending, which
//! works in floating point, is left to the program around the library.

pub mod encoder;
pub mod framebuffer;
pub mod layer;
pub mod text;

pub use encoder::Protocol;
pub use framebuffer::FrameBuffer;
pub use layer::{EntryControls, LayerId, SolidColor};
