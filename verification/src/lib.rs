//! Codec strings of the `codecs` media-type parameter, in the simple syntax of
//! RFC 6381: reading them into values and writing values back.
//!
//! A codec string is a leading code, a `.`, and a payload whose form depends
//! on the code. Two families have a grammar here: `avc1`, with a payload of
//! three bytes in hexadecimal, and `mp4a`, with an object type indication in
//! hexadecimal and an optional secondary value in decimal. A string with any
//! other leading code is kept as it is.
//!
//! Lengths and positions are counted in characters, never in bytes, so no
//! input is ever cut inside a character.

pub mod avc1;
pub mod codec;
pub mod error;
pub mod laws;
pub mod mp4a;
pub mod registry;
pub mod text;

pub use avc1::Avc1;
pub use codec::{get_rest, Codec};
pub use error::CodecError;
pub use mp4a::Mp4a;
