//! A baseline PNG decoder: chunk parsing with CRC checks, image header
//! validation, zlib inflation of the concatenated image data, scanline
//! defiltering (including Adam7 deinterlacing) and sample expansion, each
//! stage specified and verified. `decoder::decode` returns exactly what `decoder::spec_decode`
//! describes.
pub mod chunk;
pub mod cursor;
pub mod decoder;
pub mod error;
pub mod expand;
pub mod filter;
pub mod header;
pub mod inflate;
pub mod interlace;

pub use decoder::{decode, decode_with, DecodedImage};
pub use error::DecodeError;
pub use expand::ChannelLayout;
