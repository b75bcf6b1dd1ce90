//! A bit-level codec for register words.
//!
//! A [`RegisterSchema`] lays named fields out over the bits of a word of 8, 16,
//! 32 or 64 bits. [`encode`] packs one value per field into a word and
//! [`decode`] unpacks a word into the values of its fields. Every value is
//! checked against the bits that its field has, and every decoded bit pattern
//! against what its field can hold.
//!
//! * [`traits`]: conversions between `bool`, `u8`, `u16`, `u32`, `u64` and the
//!   bit pattern of a word;
//! * [`value`]: field values and the adapters that convert them;
//! * [`schema`]: field descriptors and the schema built from them;
//! * [`codec`]: encoding and decoding;
//! * [`bits`]: masks, extraction and placement of bit ranges;
//! * [`laws`]: what holds of the codec as a whole, proved;
//! * [`debug_non_default`]: a compact debug text that leaves out
//!   default-valued fields.

pub mod bits;
pub mod codec;
pub mod debug_non_default;
pub mod laws;
pub mod schema;
pub mod traits;
pub mod value;
pub mod width;

pub use codec::{decode, decode_field, encode, encode_field};
pub use schema::{find_value, CodecError, FieldDescriptor, FieldValue, RegisterSchema};
pub use traits::{BitRegister, NumBytes, TryFromBits, TryIntoBits, Word};
pub use value::{AdapterError, EnumTable, EnumVariant, Value, ValueAdapter};
pub use width::WordWidth;
