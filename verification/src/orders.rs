//! RDP primary/secondary drawing-order decoder and software renderer
//! (MS-RDPEGDI): it decodes a Fast-Path "Orders" update stream and renders it
//! into an [`OrderCanvas`], a plain RGBA32 framebuffer.

pub mod bitmap;
pub mod cache;
pub mod canvas;
pub mod color;
pub mod cursor;
pub mod effects;
pub mod error;
pub mod glyph;
pub mod header;
pub mod laws;
pub mod layout;
pub mod primary;
pub mod processor;
pub mod rop;
pub mod runs;
pub mod secondary;
pub mod stream;
pub mod tiles;
pub mod touched;

pub use canvas::{Bitmap, OrderCanvas, Rect};
pub use color::ColorDepth;
pub use error::OrderError;
pub use processor::{OrderProcessor, ProcessOutcome};
pub use rop::Rop3;
