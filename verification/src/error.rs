//! The codec's error taxonomy. Every failure of decode or encode is returned
//! as one of these values, carrying enough context (field name, tag, offsets)
//! for the caller to diagnose; the codec never aborts and never produces
//! partial output.

use crate::datatype::ArrowDataType;
use vstd::prelude::*;

verus! {

/// A typed, recoverable failure of the record/columnar codec.
#[derive(Clone, Debug)]
pub enum CodecError {
    /// A field descriptor carries a numeric type tag outside the registry.
    UnsupportedTypeTag { tag: u8 },
    /// A column's scalar kind cannot be expressed as a record type tag.
    UnsupportedColumnarKind { name: String, kind: ArrowDataType },
    /// The strides, row count and buffer length of a record set disagree.
    SizeMismatch { expected: u64, actual: u64 },
    /// A field's byte span runs past the end of its record.
    FieldSpanOutOfBounds { name: String, offset: u32, span_end: u64, point_step: u32 },
    /// A column reports a different row count than the first column.
    ColumnLengthMismatch { name: String, expected: u64, actual: u64 },
    /// A fixed-list entry's inner length differs from the declared count.
    FixedListArityMismatch { name: String, expected: u32, actual: u64 },
}

/// Mathematical model of a `CodecError`.
#[verifier::ext_equal]
pub ghost enum ErrorModel {
    UnsupportedTypeTag { tag: u8 },
    UnsupportedColumnarKind { name: Seq<char>, kind: ArrowDataType },
    SizeMismatch { expected: u64, actual: u64 },
    FieldSpanOutOfBounds { name: Seq<char>, offset: u32, span_end: u64, point_step: u32 },
    ColumnLengthMismatch { name: Seq<char>, expected: u64, actual: u64 },
    FixedListArityMismatch { name: Seq<char>, expected: u32, actual: u64 },
}

impl View for CodecError {
    type V = ErrorModel;

    open spec fn view(&self) -> ErrorModel {
        match self {
            CodecError::UnsupportedTypeTag { tag } => ErrorModel::UnsupportedTypeTag { tag: *tag },
            CodecError::UnsupportedColumnarKind { name, kind } => {
                ErrorModel::UnsupportedColumnarKind { name: name@, kind: *kind }
            },
            CodecError::SizeMismatch { expected, actual } => {
                ErrorModel::SizeMismatch { expected: *expected, actual: *actual }
            },
            CodecError::FieldSpanOutOfBounds { name, offset, span_end, point_step } => {
                ErrorModel::FieldSpanOutOfBounds {
                    name: name@,
                    offset: *offset,
                    span_end: *span_end,
                    point_step: *point_step,
                }
            },
            CodecError::ColumnLengthMismatch { name, expected, actual } => {
                ErrorModel::ColumnLengthMismatch { name: name@, expected: *expected, actual: *actual }
            },
            CodecError::FixedListArityMismatch { name, expected, actual } => {
                ErrorModel::FixedListArityMismatch { name: name@, expected: *expected, actual: *actual }
            },
        }
    }
}

} // verus!
