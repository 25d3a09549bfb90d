//! Codec between row-major, field-described binary point records and a
//! columnar table of typed scalar and fixed-width list columns.
//!
//! The record format describes each attribute of a point by a field
//! descriptor (name, byte offset, numeric type tag, repeat count); records
//! are packed into blocks that may carry trailing padding. The decode
//! direction turns such a buffer into one column per field, honoring the
//! stated endianness; the encode direction derives a tightly packed field
//! layout from a table and serializes it back into a record buffer.

pub mod codec;
pub mod datatype;
pub mod decode;
pub mod encode;
pub mod error;
pub mod flatten;
pub mod image;
pub mod laws;
pub mod msg;
pub mod points;
pub mod scalar;
pub mod table;
