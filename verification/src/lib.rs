//! Core of a small pixel-painting toy: a pixel canvas backed by an
//! `image` buffer, a thick-line rasterizer, a flood fill, the cursor's
//! drift and rotation bookkeeping, and the interaction state machine
//! that ties key and mouse events to them.
pub mod canvas;
pub mod color;
pub mod cursor;
pub mod fill;
pub mod raster;
pub mod state;
