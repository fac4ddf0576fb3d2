//! The `RowBinary` wire format: cursor, codecs and the value model.

pub mod cursor;
pub mod de;
pub mod laws;
pub mod model;
pub mod ser;
pub mod text;
pub mod value;
pub mod wire;

pub use de::deserialize_from;
pub use ser::serialize_into;
