//! Decoder for SPI1 sprite records and compositor for the tiles they hold.
//!
//! A record is a header and three buffers: a control bitstream, a side
//! buffer of packed palette indices, and a literal buffer. [`spi`] reads
//! records, and [`convert::decompress_spi1`] turns one into a flat stream
//! of palette indices. The stream is a list of positioned tiles, which
//! [`tiles`] draws through a 256-colour [`obj::Palette`] onto a
//! [`canvas::Canvas`]; [`anim`] lays the frames of an animation side by
//! side. [`obj`] reads the tables of a cartridge image that say where the
//! records, palettes and animations are.
//!
//! Nothing here touches a file. Encoding a canvas as an image file and
//! writing it out is left to the caller.

pub mod error;
pub mod endian;
pub mod bits;
pub mod nibble;
pub mod palette;
pub mod backref;
pub mod decode;
pub mod spi;
pub mod convert;
pub mod color;
pub mod canvas;
pub mod tiles;
pub mod anim;
pub mod obj;
pub mod writeable;
pub mod args;
