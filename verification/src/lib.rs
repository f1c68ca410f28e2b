//! A monochrome software framebuffer: clipped drawing primitives, a blitter
//! for bit-packed bitmaps, and a text layer that draws glyphs with it.

mod bits;
pub mod facts;
pub mod font;
pub mod raster;
pub mod surface;
pub mod vdi;
