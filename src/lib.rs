//! Plain-text PPM ("P3") image codec, with the small vector and colour types it works with.
//!
//! `PpmEncoder` turns a header and a pixel buffer into the bytes of a PPM stream,
//! `PpmDecoder` parses such bytes back; `laws` states how the two relate.

pub mod decode;
pub mod encode;
pub mod error;
pub mod header;
pub mod laws;
pub mod rgb;
pub mod text;
pub mod vec3;
pub mod vec4;

pub use decode::{PpmDecoder, PpmImage};
pub use encode::PpmEncoder;
pub use error::PpmError;
pub use header::{ImageDimensions, PpmHeader, plain_text_ppm_magic_constant};
pub use rgb::Rgb;
pub use vec3::Vec3;
pub use vec4::Vec4;
