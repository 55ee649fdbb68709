//! An encoder for the NBT (Named Binary Tag) tree format in its three wire
//! layouts: Java big-endian, Bedrock little-endian, and the Bedrock network
//! layout with variable-length integers. Values are built as [`model::Value`]
//! trees; every byte the encoder emits is pinned down by the token-stream
//! specification in [`ser`] and the rule table in [`tokens`] and [`bytes`].

pub mod bytes;
pub mod decode;
pub mod laws;
pub mod model;
pub mod ser;
pub mod tokens;

pub use model::NbtError;
pub use model::ShapeKind;
pub use model::Value;
pub use model::Variant;
pub use ser::to_be_bytes;
pub use ser::to_be_bytes_in;
pub use ser::to_bytes;
pub use ser::to_bytes_in;
pub use ser::to_le_bytes;
pub use ser::to_le_bytes_in;
pub use ser::to_net_bytes;
pub use ser::to_net_bytes_in;
pub use ser::FieldTypeSerializer;
pub use ser::Serializer;
