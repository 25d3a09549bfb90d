//! The field-type registry: the record format's eight numeric type tags, the
//! columnar engine's scalar kinds, and the mapping between the two.
//!
//! The mapping is a bijection on the eight supported tags: each tag has its
//! own columnar kind and `from_arrow_datatype` inverts `to_arrow_datatype`
//! exactly, so a table decoded from records can always be encoded back.
//! Columnar kinds outside the eight (64-bit integers, booleans, strings)
//! have no tag and are rejected by the encode path.

use vstd::prelude::*;

verus! {

/// A record-format type tag: the element type of one field of a record.
#[derive(Clone, Copy, Debug, PartialEq, Eq, Structural)]
pub enum RosDataType {
    I8,
    U8,
    I16,
    U16,
    I32,
    U32,
    F32,
    F64,
}

/// A scalar kind of the columnar engine. The first eight correspond to the
/// record format's tags; the remaining kinds exist only on the columnar side
/// and cannot be expressed in a record.
#[derive(Clone, Copy, Debug, PartialEq, Eq, Structural)]
pub enum ArrowDataType {
    Int8,
    UInt8,
    Int16,
    UInt16,
    Int32,
    UInt32,
    Float32,
    Float64,
    Int64,
    UInt64,
    Boolean,
    Utf8,
}

/// The tag encoded by a record field's numeric `datatype` byte, if any.
pub open spec fn spec_tag_from_u8(tag: u8) -> Option<RosDataType> {
    if tag == 1 {
        Some(RosDataType::I8)
    } else if tag == 2 {
        Some(RosDataType::U8)
    } else if tag == 3 {
        Some(RosDataType::I16)
    } else if tag == 4 {
        Some(RosDataType::U16)
    } else if tag == 5 {
        Some(RosDataType::I32)
    } else if tag == 6 {
        Some(RosDataType::U32)
    } else if tag == 7 {
        Some(RosDataType::F32)
    } else if tag == 8 {
        Some(RosDataType::F64)
    } else {
        None
    }
}

/// The numeric `datatype` byte that stands for a tag.
pub open spec fn spec_tag_to_u8(t: RosDataType) -> u8 {
    match t {
        RosDataType::I8 => 1,
        RosDataType::U8 => 2,
        RosDataType::I16 => 3,
        RosDataType::U16 => 4,
        RosDataType::I32 => 5,
        RosDataType::U32 => 6,
        RosDataType::F32 => 7,
        RosDataType::F64 => 8,
    }
}

/// Byte width of one element of the given tag.
pub open spec fn spec_width(t: RosDataType) -> nat {
    match t {
        RosDataType::I8 => 1,
        RosDataType::U8 => 1,
        RosDataType::I16 => 2,
        RosDataType::U16 => 2,
        RosDataType::I32 => 4,
        RosDataType::U32 => 4,
        RosDataType::F32 => 4,
        RosDataType::F64 => 8,
    }
}

/// The columnar scalar kind that a tag decodes into.
pub open spec fn spec_to_arrow(t: RosDataType) -> ArrowDataType {
    match t {
        RosDataType::I8 => ArrowDataType::Int8,
        RosDataType::U8 => ArrowDataType::UInt8,
        RosDataType::I16 => ArrowDataType::Int16,
        RosDataType::U16 => ArrowDataType::UInt16,
        RosDataType::I32 => ArrowDataType::Int32,
        RosDataType::U32 => ArrowDataType::UInt32,
        RosDataType::F32 => ArrowDataType::Float32,
        RosDataType::F64 => ArrowDataType::Float64,
    }
}

/// The tag that a columnar scalar kind encodes into, if the record format
/// can express it.
pub open spec fn spec_from_arrow(dt: ArrowDataType) -> Option<RosDataType> {
    match dt {
        ArrowDataType::Int8 => Some(RosDataType::I8),
        ArrowDataType::UInt8 => Some(RosDataType::U8),
        ArrowDataType::Int16 => Some(RosDataType::I16),
        ArrowDataType::UInt16 => Some(RosDataType::U16),
        ArrowDataType::Int32 => Some(RosDataType::I32),
        ArrowDataType::UInt32 => Some(RosDataType::U32),
        ArrowDataType::Float32 => Some(RosDataType::F32),
        ArrowDataType::Float64 => Some(RosDataType::F64),
        _ => None,
    }
}

impl RosDataType {
    /// Parses a record field's numeric `datatype` byte.
    pub fn from_u8(tag: u8) -> (r: Option<RosDataType>)
        ensures
            r == spec_tag_from_u8(tag),
    {
        match tag {
            1 => Some(RosDataType::I8),
            2 => Some(RosDataType::U8),
            3 => Some(RosDataType::I16),
            4 => Some(RosDataType::U16),
            5 => Some(RosDataType::I32),
            6 => Some(RosDataType::U32),
            7 => Some(RosDataType::F32),
            8 => Some(RosDataType::F64),
            _ => None,
        }
    }

    /// The numeric `datatype` byte of this tag.
    pub fn to_u8(&self) -> (r: u8)
        ensures
            r == spec_tag_to_u8(*self),
    {
        match self {
            RosDataType::I8 => 1,
            RosDataType::U8 => 2,
            RosDataType::I16 => 3,
            RosDataType::U16 => 4,
            RosDataType::I32 => 5,
            RosDataType::U32 => 6,
            RosDataType::F32 => 7,
            RosDataType::F64 => 8,
        }
    }

    /// Byte width of one element of this tag.
    pub fn size(&self) -> (r: usize)
        ensures
            r == spec_width(*self),
    {
        match self {
            RosDataType::I8 => 1,
            RosDataType::U8 => 1,
            RosDataType::I16 => 2,
            RosDataType::U16 => 2,
            RosDataType::I32 => 4,
            RosDataType::U32 => 4,
            RosDataType::F32 => 4,
            RosDataType::F64 => 8,
        }
    }

    /// The columnar scalar kind this tag decodes into.
    pub fn to_arrow_datatype(&self) -> (r: ArrowDataType)
        ensures
            r == spec_to_arrow(*self),
    {
        match self {
            RosDataType::I8 => ArrowDataType::Int8,
            RosDataType::U8 => ArrowDataType::UInt8,
            RosDataType::I16 => ArrowDataType::Int16,
            RosDataType::U16 => ArrowDataType::UInt16,
            RosDataType::I32 => ArrowDataType::Int32,
            RosDataType::U32 => ArrowDataType::UInt32,
            RosDataType::F32 => ArrowDataType::Float32,
            RosDataType::F64 => ArrowDataType::Float64,
        }
    }

    /// The tag that expresses a columnar scalar kind in a record, if any.
    pub fn from_arrow_datatype(dt: &ArrowDataType) -> (r: Option<RosDataType>)
        ensures
            r == spec_from_arrow(*dt),
    {
        match dt {
            ArrowDataType::Int8 => Some(RosDataType::I8),
            ArrowDataType::UInt8 => Some(RosDataType::U8),
            ArrowDataType::Int16 => Some(RosDataType::I16),
            ArrowDataType::UInt16 => Some(RosDataType::U16),
            ArrowDataType::Int32 => Some(RosDataType::I32),
            ArrowDataType::UInt32 => Some(RosDataType::U32),
            ArrowDataType::Float32 => Some(RosDataType::F32),
            ArrowDataType::Float64 => Some(RosDataType::F64),
            _ => None,
        }
    }
}

/// The registry is bijective: the numeric byte of a tag parses back to the
/// tag, the columnar kind of a tag maps back to the tag, and a kind with a
/// tag maps forward to that very kind. Element widths are between one and
/// eight bytes.
pub proof fn lemma_registry_bijective()
    ensures
        forall|t: RosDataType| #[trigger] spec_tag_from_u8(spec_tag_to_u8(t)) == Some(t),
        forall|t: RosDataType| #[trigger] spec_from_arrow(spec_to_arrow(t)) == Some(t),
        forall|dt: ArrowDataType|
            #[trigger] spec_from_arrow(dt) is Some ==> spec_to_arrow(
                spec_from_arrow(dt)->Some_0,
            ) == dt,
        forall|t: RosDataType| 1 <= #[trigger] spec_width(t) <= 8,
{
}

} // verus!
