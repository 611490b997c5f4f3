//! A small embedded-style GUI rendering stack: pixel formats, a byte-packed
//! frame buffer, a clipping graphics context with integer rasterisation, and a
//! thin layer/window/gui composition on top.

pub mod buffer;
pub mod demo;
pub mod events;
pub mod graphics;
pub mod gui;
pub mod layer;
pub mod pixel;
pub mod point;
pub mod rect;
pub mod rgba;
pub mod window;
