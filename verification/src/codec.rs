//! The native-endian encode entry point. Encoding always uses the machine's
//! own byte order and reports that order truthfully in the record set's
//! endianness flag; a caller that wants a fixed order uses
//! `from_arrow_array_endian` directly.

use crate::decode::{spec_decode, spec_decode_error};
use crate::encode::{spec_encode, spec_encode_error, spec_encode_rows, spec_point_step};
use crate::error::CodecError;
use crate::msg::{CloudModel, Header, PointCloud2};
use crate::table::ColumnarTable;
use vstd::prelude::*;

verus! {

/// The two directions of the codec, on any type that models a record set.
pub trait PointCloud2ArrowExt: View<V = CloudModel> + Sized {
    /// Decodes the record set into a columnar table; see
    /// `PointCloud2::to_arrow_array`.
    fn to_arrow_array(&self) -> (r: Result<ColumnarTable, CodecError>)
        requires
            self@.row_step >= 1,
            self@.point_step >= 1,
        ensures
            match r {
                Ok(table) => spec_decode_error(self@) is None && table@ == spec_decode(self@),
                Err(e) => spec_decode_error(self@) == Some(e@),
            },
    ;

    /// Encodes a columnar table into a record set in the machine's native
    /// byte order; see `PointCloud2::from_arrow_array`.
    fn from_arrow_array(header: Header, array: &ColumnarTable) -> (r: Result<Self, CodecError>)
        requires
            spec_encode_error(array@) is None ==> spec_point_step(array@) <= u32::MAX
                && spec_encode_rows(array@) <= u32::MAX,
        ensures
            match r {
                Ok(pcd) => spec_encode_error(array@) is None && pcd@ == spec_encode(
                    header@,
                    array@,
                    pcd@.is_bigendian,
                ),
                Err(e) => spec_encode_error(array@) == Some(e@),
            },
    ;
}

impl PointCloud2ArrowExt for PointCloud2 {
    fn to_arrow_array(&self) -> (r: Result<ColumnarTable, CodecError>) {
        PointCloud2::to_arrow_array(self)
    }

    fn from_arrow_array(header: Header, array: &ColumnarTable) -> (r: Result<Self, CodecError>) {
        PointCloud2::from_arrow_array(header, array)
    }
}

/// Relies on u16::to_ne_bytes: the first byte of 0x0100 in the machine's
/// native byte order. It is 1 exactly on big-endian targets. The result
/// depends on the machine alone, so nothing is stated of it; the encoder is
/// verified for either byte order.
#[verifier::external_body]
fn native_order_probe() -> u8 {
    256u16.to_ne_bytes()[0]
}

/// Whether the machine this runs on stores integers big-endian.
pub fn native_is_big_endian() -> bool {
    native_order_probe() == 1
}

impl PointCloud2 {
    /// Encodes a columnar table into a record set in the machine's native
    /// byte order: the same layout as `from_arrow_array_endian`, with the
    /// result's endianness flag reporting the order actually used.
    pub fn from_arrow_array(header: Header, array: &ColumnarTable) -> (r: Result<
        PointCloud2,
        CodecError,
    >)
        requires
            spec_encode_error(array@) is None ==> spec_point_step(array@) <= u32::MAX
                && spec_encode_rows(array@) <= u32::MAX,
        ensures
            match r {
                Ok(pcd) => spec_encode_error(array@) is None && pcd@ == spec_encode(
                    header@,
                    array@,
                    pcd@.is_bigendian,
                ),
                Err(e) => spec_encode_error(array@) == Some(e@),
            },
    {
        let is_bigendian = native_is_big_endian();
        PointCloud2::from_arrow_array_endian(header, array, is_bigendian)
    }
}

} // verus!
