//! Extraction of 3-D points from a record set whose first three fields are
//! the single-value 32-bit float coordinates `x`, `y` and `z` at the fixed
//! offsets 0, 4 and 8 of each record. The coordinates are returned as IEEE
//! bit patterns; reinterpreting them as floats is the caller's concern.

use crate::msg::{lemma_num_chunks, spec_min, spec_num_chunks, CloudModel, PointCloud2};
use crate::scalar::{decode_scalar, lemma_scalar_value_bound, pow256, scalar_value};
use vstd::prelude::*;

verus! {

/// The bit patterns of one point's coordinates, each a 32-bit IEEE float.
#[derive(Clone, Copy, Debug, PartialEq, Eq, Structural)]
pub struct PointXyz {
    pub x_bits: u32,
    pub y_bits: u32,
    pub z_bits: u32,
}

/// Why a record set cannot be read as a stream of plain `x`/`y`/`z` points.
#[derive(Clone, Copy, Debug, PartialEq, Eq, Structural)]
pub enum PointFormatError {
    /// Fewer than three fields.
    TooFewFields,
    /// The first three fields are not named `x`, `y`, `z` in that order.
    WrongFieldNames,
    /// One of the three fields is not a single-value 32-bit float.
    FieldNotSingleF32,
    /// Records of fewer than twelve bytes cannot hold three such floats.
    PointStepTooSmall,
}

/// The numeric tag of the 32-bit float type in the record format.
pub open spec fn spec_f32_tag() -> u8 {
    7
}

/// The error point extraction reports, if any, checked in this order:
/// enough fields, then their names, then their types, then the stride.
pub open spec fn spec_point_error(c: CloudModel) -> Option<PointFormatError> {
    if c.fields.len() < 3 {
        Some(PointFormatError::TooFewFields)
    } else if !(c.fields[0].name == "x"@ && c.fields[1].name == "y"@ && c.fields[2].name
        == "z"@) {
        Some(PointFormatError::WrongFieldNames)
    } else if !(c.fields[0].datatype == spec_f32_tag() && c.fields[0].count == 1
        && c.fields[1].datatype == spec_f32_tag() && c.fields[1].count == 1
        && c.fields[2].datatype == spec_f32_tag() && c.fields[2].count == 1) {
        Some(PointFormatError::FieldNotSingleF32)
    } else if c.point_step < 12 {
        Some(PointFormatError::PointStepTooSmall)
    } else {
        None
    }
}

/// The bit pattern of coordinate `axis` (0, 1 or 2 for x, y, z) of the
/// point in the `k`-th record, read under the record set's endianness.
pub open spec fn spec_point_coord(c: CloudModel, k: int, axis: int) -> nat {
    scalar_value(
        c.data.subrange(k * c.point_step + 4 * axis, k * c.point_step + 4 * axis + 4),
        c.is_bigendian,
    )
}

/// How many points the record set's buffer holds: one per stride, plus one
/// for a trailing partial record (which must still hold twelve bytes).
pub open spec fn spec_point_total(c: CloudModel) -> int {
    spec_num_chunks(c.data.len(), c.point_step as nat)
}

/// Reads the record set as a stream of `x`/`y`/`z` points: one per
/// `point_step` bytes of the buffer, the three coordinates taken from bytes
/// 0..4, 4..8 and 8..12 of each record regardless of the declared field
/// offsets. Returns the first format error instead.
#[verifier::loop_isolation(false)]
pub fn pointcloud2_to_points(pcd: &PointCloud2) -> (r: Result<Vec<PointXyz>, PointFormatError>)
    requires
        spec_point_error(pcd@) is None ==> pcd@.data.len() as int % (pcd@.point_step as int) == 0
            || pcd@.data.len() as int % (pcd@.point_step as int) >= 12,
    ensures
        match r {
            Ok(points) => spec_point_error(pcd@) is None && points@.len() == spec_point_total(
                pcd@,
            ) && forall|k: int|
                0 <= k < points@.len() ==> #[trigger] points@[k] == (PointXyz {
                    x_bits: spec_point_coord(pcd@, k, 0) as u32,
                    y_bits: spec_point_coord(pcd@, k, 1) as u32,
                    z_bits: spec_point_coord(pcd@, k, 2) as u32,
                }),
            Err(e) => spec_point_error(pcd@) == Some(e),
        },
{
    let ghost c = pcd@;
    if pcd.fields.len() < 3 {
        return Err(PointFormatError::TooFewFields);
    }
    proof {
        assert(c.fields[0] == pcd.fields@[0]@);
        assert(c.fields[1] == pcd.fields@[1]@);
        assert(c.fields[2] == pcd.fields@[2]@);
    }
    let xs: String = "x".to_owned();
    let ys: String = "y".to_owned();
    let zs: String = "z".to_owned();
    if !(pcd.fields[0].name == xs && pcd.fields[1].name == ys && pcd.fields[2].name == zs) {
        return Err(PointFormatError::WrongFieldNames);
    }
    if !(pcd.fields[0].datatype == 7 && pcd.fields[0].count == 1 && pcd.fields[1].datatype == 7
        && pcd.fields[1].count == 1 && pcd.fields[2].datatype == 7 && pcd.fields[2].count == 1) {
        return Err(PointFormatError::FieldNotSingleF32);
    }
    if pcd.point_step < 12 {
        return Err(PointFormatError::PointStepTooSmall);
    }
    let ps: usize = pcd.point_step as usize;
    let len: usize = pcd.data.len();
    let mut points: Vec<PointXyz> = Vec::new();
    let mut i: usize = 0;
    proof {
        assert(points@.len() * ps == 0) by (nonlinear_arith)
            requires points@.len() == 0;
        assert(pow256(4) == 0x1_0000_0000) by {
            reveal_with_fuel(pow256, 5);
        }
    }
    while i < len
        invariant
            i == spec_min(points@.len() * ps, len as int),
            i < len ==> i == points@.len() * ps,
            points@.len() >= 1 ==> (points@.len() - 1) * ps < i,
            forall|k: int|
                0 <= k < points@.len() ==> #[trigger] points@[k] == (PointXyz {
                    x_bits: spec_point_coord(c, k, 0) as u32,
                    y_bits: spec_point_coord(c, k, 1) as u32,
                    z_bits: spec_point_coord(c, k, 2) as u32,
                }),
        decreases len - i,
    {
        proof {
            if len - i < ps {
                let k = points@.len() as int;
                vstd::arithmetic::div_mod::lemma_fundamental_div_mod_converse(
                    len as int,
                    ps as int,
                    k,
                    len - i,
                );
                assert(c.data.len() as int % (c.point_step as int) == len - i);
            }
            assert(i + 12 <= len);
        }
        let x_bits = decode_scalar(&pcd.data, i, 4, pcd.is_bigendian) as u32;
        let y_bits = decode_scalar(&pcd.data, i + 4, 4, pcd.is_bigendian) as u32;
        let z_bits = decode_scalar(&pcd.data, i + 8, 4, pcd.is_bigendian) as u32;
        proof {
            let k = points@.len() as int;
            lemma_scalar_value_bound(c.data.subrange(i as int, i + 4), c.is_bigendian);
            lemma_scalar_value_bound(c.data.subrange(i + 4, i + 8), c.is_bigendian);
            lemma_scalar_value_bound(c.data.subrange(i + 8, i + 12), c.is_bigendian);
            assert(k * ps + 4 * 0 == i);
            assert(k * ps + 4 * 1 == i + 4);
            assert(k * ps + 4 * 2 == i + 8);
        }
        points.push(PointXyz { x_bits, y_bits, z_bits });
        let end: usize = if ps <= len - i {
            i + ps
        } else {
            len
        };
        proof {
            let k = points@.len() as int;
            assert(end == spec_min(k * ps, len as int)) by (nonlinear_arith)
                requires
                    ps >= 1,
                    i == (k - 1) * ps,
                    i < len,
                    end == spec_min((i + ps) as int, len as int),
                    k >= 1;
            assert(k * ps == (k - 1) * ps + ps) by (nonlinear_arith);
        }
        i = end;
    }
    proof {
        let k = points@.len() as int;
        if len == 0 {
            lemma_num_chunks(len as nat, ps as nat, 0);
        } else {
            if k == 0 {
                assert(k * ps == 0) by (nonlinear_arith)
                    requires k == 0;
            }
            assert(k >= 1);
            lemma_num_chunks(len as nat, ps as nat, k);
        }
    }
    Ok(points)
}

} // verus!
