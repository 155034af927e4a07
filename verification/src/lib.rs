//! Content-resolution and software-rendering core of a retro 3-D game engine.
//!
//! The crate has two halves. The archive half decodes the binary layout of
//! PAK archives (a 12-byte header followed by a directory of fixed 64-byte
//! records), keeps an ordered catalog of mounted archives, and resolves a
//! resource name to the first archive that contains it. The rendering half
//! owns an indexed-colour pixel plane, rasterizes primitives into it (lines,
//! rectangles, triangles, curves, bitmap blits) and translates it through a
//! 256-entry palette into a true-colour presentation plane.
//!
//! File and window input/output live outside this crate: callers hand byte
//! buffers in and carry pixel buffers out.

pub mod bezier;
pub mod bytes;
pub mod catalog;
pub mod drawing;
pub mod framebuffer;
pub mod lmp;
pub mod options;
pub mod packfile;
pub mod palette;
pub mod util;
pub mod vertex;
