//! A schema-driven, zero-copy binary encoding engine.
//!
//! A [`formula::Formula`] describes the static layout of a type: its fixed
//! header size (if any), whether it ever needs body ("heap") space, and
//! whether its size is exact.  A [`value::Value`] is a dynamic value matching
//! a formula.  The serializer lays values out into a flat byte buffer with a
//! fixed-width integer codec, placing variable-size bodies at the front of
//! the buffer and fixed-size headers at the back; the deserializer walks the
//! same buffer with a bounds-checked cursor, consuming headers from the tail
//! of its window and resolving `(address, size)` references back into earlier
//! prefixes of the buffer.

pub mod deserialize;
pub mod formula;
pub mod iter;
pub mod properties;
pub mod serialize;
pub mod slice;
pub mod value;

pub use crate::deserialize::DeIter;
pub use crate::deserialize::Deserialize;
pub use crate::deserialize::Deserializer;
pub use crate::deserialize::Error;
pub use crate::deserialize::deserialize;
pub use crate::deserialize::deserialize_in_place;
pub use crate::deserialize::value_size;
pub use crate::formula::Formula;
pub use crate::iter::SerIter;
pub use crate::iter::deserialize_extend_iter;
pub use crate::iter::deserialize_from_iter;
pub use crate::serialize::Sizes;
pub use crate::serialize::serialize_or_size;
pub use crate::serialize::serialize_to_vec;
pub use crate::serialize::serialized_size;
pub use crate::value::Value;
pub use crate::value::matches_formula;
