//! A verified core for driving a 384-pixel-wide thermal label printer over a
//! short-range wireless link.
//!
//! The pipeline turns text (or a raster image) into a monochrome bitmap and
//! then into the printer's framed command stream:
//! text -> line layout -> canvas -> dithered 1-bit bitmap -> hex framing ->
//! ordered command packets -> acknowledged writes, driven by a session state
//! machine.  Everything that computes lives here with a contract; the
//! surrounding binary only performs the wireless and file I/O.

pub mod dither;
pub mod hex;
pub mod instruction;
pub mod layout;
pub mod protocol;
pub mod raster;
pub mod session;
