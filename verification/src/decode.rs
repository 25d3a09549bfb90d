//! The decode direction: what table a record set decodes into, stated as
//! spec functions over the record set's model, and the verified helpers that
//! read one column out of the byte buffer.
//!
//! A record set of `height` blocks, each holding `width` records of
//! `point_step` bytes inside a `row_step`-byte block, decodes to one column
//! per field. Element `j` of field `f` in record `p` is read from the byte
//! span `[base + offset + j*w, base + offset + (j+1)*w)` where `base` is the
//! record's position and `w` the element width of the field's tag.

use crate::datatype::{spec_tag_from_u8, spec_to_arrow, spec_width, RosDataType};
use crate::error::{CodecError, ErrorModel};
use crate::msg::{CloudModel, FieldModel, PointCloud2};
use crate::scalar::{decode_scalar, scalar_value};
use crate::table::{Column, ColumnModel, ColumnarTable, NamedColumn, NamedColumnModel};
use vstd::prelude::*;

verus! {

/// Total number of records in a record set: `width` per block, `height`
/// blocks.
pub open spec fn spec_total_points(c: CloudModel) -> nat {
    (c.height * c.width) as nat
}

/// The size precondition: records fit in their blocks, and the buffer holds
/// exactly the declared blocks.
pub open spec fn spec_size_ok(c: CloudModel) -> bool {
    &&& c.width * c.point_step <= c.row_step
    &&& c.data.len() == c.row_step * c.height
}

/// The error decode reports when the size precondition fails, if it fails.
pub open spec fn spec_size_error(c: CloudModel) -> Option<ErrorModel> {
    if c.width * c.point_step > c.row_step {
        Some(
            ErrorModel::SizeMismatch {
                expected: c.row_step as u64,
                actual: (c.width * c.point_step) as u64,
            },
        )
    } else if c.data.len() != c.row_step * c.height {
        Some(
            ErrorModel::SizeMismatch {
                expected: (c.row_step * c.height) as u64,
                actual: c.data.len() as u64,
            },
        )
    } else {
        None
    }
}

/// One past the last record byte that a field's span touches.
pub open spec fn spec_field_span_end(f: FieldModel) -> int
    recommends
        spec_tag_from_u8(f.datatype) is Some,
{
    f.offset + spec_width(spec_tag_from_u8(f.datatype)->Some_0) * f.count
}

/// The error a single field descriptor provokes, if any: an unknown tag, or
/// a span that runs past the end of the record.
pub open spec fn spec_field_error(f: FieldModel, point_step: u32) -> Option<ErrorModel> {
    if spec_tag_from_u8(f.datatype) is None {
        Some(ErrorModel::UnsupportedTypeTag { tag: f.datatype })
    } else if spec_field_span_end(f) > point_step {
        Some(
            ErrorModel::FieldSpanOutOfBounds {
                name: f.name,
                offset: f.offset,
                span_end: spec_field_span_end(f) as u64,
                point_step,
            },
        )
    } else {
        None
    }
}

/// The first error among the field descriptors, in field order.
pub open spec fn spec_fields_error(fields: Seq<FieldModel>, point_step: u32) -> Option<ErrorModel>
    decreases fields.len(),
{
    if fields.len() == 0 {
        None
    } else if spec_field_error(fields.first(), point_step) is Some {
        spec_field_error(fields.first(), point_step)
    } else {
        spec_fields_error(fields.drop_first(), point_step)
    }
}

/// The error decode returns, if any: a size mismatch first, then the first
/// bad field in field order.
pub open spec fn spec_decode_error(c: CloudModel) -> Option<ErrorModel> {
    if spec_size_error(c) is Some {
        spec_size_error(c)
    } else {
        spec_fields_error(c.fields, c.point_step)
    }
}

/// Byte position where record `p` starts: records are numbered row-major,
/// `width` to a block.
pub open spec fn spec_record_base(c: CloudModel, p: int) -> int {
    (p / c.width as int) * c.row_step + (p % c.width as int) * c.point_step
}

/// The value of element `j` of a field at byte offset `offset` with element
/// width `w`, in record `p`, read under the record set's endianness.
pub open spec fn spec_elem_at(c: CloudModel, offset: u32, w: nat, p: int, j: int) -> nat {
    scalar_value(
        c.data.subrange(
            spec_record_base(c, p) + offset + j * w,
            spec_record_base(c, p) + offset + j * w + w,
        ),
        c.is_bigendian,
    )
}

/// The column a single field decodes into: scalar for repeat count one,
/// fixed-list otherwise.
pub open spec fn spec_decode_column(c: CloudModel, f: FieldModel) -> ColumnModel
    recommends
        spec_tag_from_u8(f.datatype) is Some,
{
    let t = spec_tag_from_u8(f.datatype)->Some_0;
    let w = spec_width(t);
    if f.count == 1 {
        ColumnModel::Scalar {
            dtype: spec_to_arrow(t),
            values: Seq::new(
                spec_total_points(c),
                |p: int| spec_elem_at(c, f.offset, w, p, 0) as u64,
            ),
        }
    } else {
        ColumnModel::FixedList {
            dtype: spec_to_arrow(t),
            count: f.count,
            values: Seq::new(
                spec_total_points(c),
                |p: int|
                    Seq::new(f.count as nat, |j: int| spec_elem_at(c, f.offset, w, p, j) as u64),
            ),
        }
    }
}

/// The table a record set decodes into: one column per field, in field
/// order, named after the field.
pub open spec fn spec_decode(c: CloudModel) -> Seq<NamedColumnModel> {
    Seq::new(
        c.fields.len(),
        |i: int|
            NamedColumnModel { name: c.fields[i].name, column: spec_decode_column(c, c.fields[i]) },
    )
}

/// Walking past an error-free prefix does not change the first field error.
pub proof fn lemma_fields_error_skip(fields: Seq<FieldModel>, point_step: u32, i: int)
    requires
        0 <= i <= fields.len(),
        forall|k: int| 0 <= k < i ==> #[trigger] spec_field_error(fields[k], point_step) is None,
    ensures
        spec_fields_error(fields, point_step) == spec_fields_error(fields.skip(i), point_step),
    decreases i,
{
    if i > 0 {
        assert(spec_field_error(fields.first(), point_step) is None);
        assert(fields.drop_first() =~= fields.skip(1));
        assert forall|k: int| 0 <= k < i - 1 implies #[trigger] spec_field_error(
            fields.skip(1)[k],
            point_step,
        ) is None by {
            assert(fields.skip(1)[k] == fields[k + 1]);
        }
        lemma_fields_error_skip(fields.skip(1), point_step, i - 1);
        assert(fields.skip(1).skip(i - 1) =~= fields.skip(i));
    } else {
        assert(fields.skip(0) =~= fields);
    }
}

/// If the fields before `i` are fine and field `i` is bad, the scan reports
/// field `i`'s error.
pub proof fn lemma_fields_error_at(fields: Seq<FieldModel>, point_step: u32, i: int)
    requires
        0 <= i < fields.len(),
        forall|k: int| 0 <= k < i ==> #[trigger] spec_field_error(fields[k], point_step) is None,
        spec_field_error(fields[i], point_step) is Some,
    ensures
        spec_fields_error(fields, point_step) == spec_field_error(fields[i], point_step),
{
    lemma_fields_error_skip(fields, point_step, i);
    assert(fields.skip(i).first() == fields[i]);
}

/// If every field is fine, the scan reports nothing.
pub proof fn lemma_fields_error_none(fields: Seq<FieldModel>, point_step: u32)
    requires
        forall|k: int|
            0 <= k < fields.len() ==> #[trigger] spec_field_error(fields[k], point_step) is None,
    ensures
        spec_fields_error(fields, point_step) is None,
{
    lemma_fields_error_skip(fields, point_step, fields.len() as int);
    assert(fields.skip(fields.len() as int) =~= Seq::<FieldModel>::empty());
}

/// Decode never loses a record: every decoded column has one entry per
/// record of the record set, under the field's own name, and a fixed-list
/// column has exactly the declared number of elements in every entry.
pub proof fn lemma_decode_shape(c: CloudModel)
    ensures
        spec_decode(c).len() == c.fields.len(),
        forall|i: int|
            0 <= i < c.fields.len() ==> (#[trigger] spec_decode(c)[i]).name == c.fields[i].name,
        forall|i: int|
            0 <= i < c.fields.len() ==> (#[trigger] spec_decode(c)[i]).column.rows()
                == spec_total_points(c),
        forall|i: int|
            0 <= i < c.fields.len() ==> (#[trigger] spec_decode(c)[i]).column.arity_ok(),
        forall|i: int|
            0 <= i < c.fields.len() ==> ((#[trigger] spec_decode(c)[i]).column is Scalar
                <==> c.fields[i].count == 1),
{
}

impl PointCloud2 {
    /// Decodes the record set into a columnar table: one column per field in
    /// field order, named after the field, scalar for repeat count one and
    /// fixed-list otherwise, every element read from its byte span under the
    /// stated endianness. Returns the first error instead: a size mismatch,
    /// then per field an unknown tag or a span past the record's end.
    /// Duplicate field names yield duplicate columns, in field order.
    ///
    /// The strides must be nonzero: a buffer cannot be carved into records
    /// and blocks of no bytes.
    #[verifier::loop_isolation(false)]
    #[verifier::rlimit(60)]
    pub fn to_arrow_array(&self) -> (r: Result<ColumnarTable, CodecError>)
        requires
            self.row_step >= 1,
            self.point_step >= 1,
        ensures
            match r {
                Ok(table) => spec_decode_error(self@) is None && table@ == spec_decode(self@),
                Err(e) => spec_decode_error(self@) == Some(e@),
            },
    {
        let ghost c = self@;
        proof {
            assert((self.width as int) * (self.point_step as int) < 0x1_0000_0000_0000_0000)
                by (nonlinear_arith)
                requires self.width < 0x1_0000_0000, self.point_step < 0x1_0000_0000;
            assert((self.row_step as int) * (self.height as int) < 0x1_0000_0000_0000_0000)
                by (nonlinear_arith)
                requires self.row_step < 0x1_0000_0000, self.height < 0x1_0000_0000;
        }
        let wp: u64 = (self.width as u64) * (self.point_step as u64);
        if wp > self.row_step as u64 {
            return Err(CodecError::SizeMismatch { expected: self.row_step as u64, actual: wp });
        }
        let rh: u64 = (self.row_step as u64) * (self.height as u64);
        if self.data.len() as u64 != rh {
            return Err(CodecError::SizeMismatch { expected: rh, actual: self.data.len() as u64 });
        }
        proof {
            assert(spec_size_error(c) is None);
            assert(spec_size_ok(c));
        }
        let nf: usize = self.fields.len();
        let mut columns: Vec<NamedColumn> = Vec::new();
        for i in 0..nf
            invariant
                columns@.len() == i,
                forall|k: int|
                    0 <= k < i ==> #[trigger] spec_field_error(c.fields[k], c.point_step) is None,
                forall|k: int| 0 <= k < i ==> #[trigger] columns@[k]@ == spec_decode(c)[k],
        {
            let f = &self.fields[i];
            proof {
                assert(f@ == c.fields[i as int]);
            }
            let tag = match RosDataType::from_u8(f.datatype) {
                Some(t) => t,
                None => {
                    proof {
                        lemma_fields_error_at(c.fields, c.point_step, i as int);
                    }
                    return Err(CodecError::UnsupportedTypeTag { tag: f.datatype });
                },
            };
            let w: usize = tag.size();
            proof {
                assert((w as int) * (f.count as int) <= 8 * 0x1_0000_0000) by (nonlinear_arith)
                    requires w <= 8, f.count < 0x1_0000_0000;
            }
            let span_end: u64 = f.offset as u64 + (w as u64) * (f.count as u64);
            if span_end > self.point_step as u64 {
                proof {
                    lemma_fields_error_at(c.fields, c.point_step, i as int);
                }
                return Err(
                    CodecError::FieldSpanOutOfBounds {
                        name: f.name.clone(),
                        offset: f.offset,
                        span_end,
                        point_step: self.point_step,
                    },
                );
            }
            proof {
                assert(spec_field_error(c.fields[i as int], c.point_step) is None);
            }
            let column = if f.count == 1 {
                proof {
                    assert(spec_width(tag) * (f.count as int) == spec_width(tag));
                }
                let vals = self.decode_scalar_column(f.offset, tag);
                Column::Scalar { dtype: tag.to_arrow_datatype(), values: vals }
            } else {
                let vals = self.decode_list_column(f.offset, tag, f.count);
                Column::FixedList {
                    dtype: tag.to_arrow_datatype(),
                    count: f.count,
                    values: vals,
                }
            };
            proof {
                assert(column@ =~~= spec_decode_column(c, c.fields[i as int]));
            }
            columns.push(NamedColumn { name: f.name.clone(), column });
        }
        proof {
            lemma_fields_error_none(c.fields, c.point_step);
        }
        let table = ColumnarTable { columns };
        proof {
            assert(table@ =~= spec_decode(c));
        }
        Ok(table)
    }

    /// Reads the scalar column of a field with repeat count one.
    #[verifier::loop_isolation(false)]
    fn decode_scalar_column(&self, offset: u32, tag: RosDataType) -> (vals: Vec<u64>)
        requires
            spec_size_ok(self@),
            self.row_step >= 1,
            self.point_step >= 1,
            offset + spec_width(tag) <= self.point_step,
        ensures
            vals@ == Seq::new(
                spec_total_points(self@),
                |p: int| spec_elem_at(self@, offset, spec_width(tag), p, 0) as u64,
            ),
    {
        let w: usize = tag.size();
        let len: usize = self.data.len();
        let mut vals: Vec<u64> = Vec::new();
        proof {
            lemma_layout_bounds(self@);
            assert(0 * self.width == 0) by (nonlinear_arith);
        }
        for row in 0..self.height
            invariant
                vals@.len() == row * self.width,
                forall|p: int|
                    0 <= p < vals@.len() ==> #[trigger] vals@[p] as nat == spec_elem_at(
                        self@,
                        offset,
                        spec_width(tag),
                        p,
                        0,
                    ),
        {
            for q in 0..self.width
                invariant
                    vals@.len() == row * self.width + q,
                    forall|p: int|
                        0 <= p < vals@.len() ==> #[trigger] vals@[p] as nat == spec_elem_at(
                            self@,
                            offset,
                            spec_width(tag),
                            p,
                            0,
                        ),
            {
                proof {
                    lemma_record_bounds(self@, row as int, q as int);
                }
                let base: usize = (row as usize) * (self.row_step as usize) + (q as usize) * (
                self.point_step as usize);
                let start: usize = base + offset as usize;
                let v = decode_scalar(&self.data, start, w, self.is_bigendian);
                proof {
                    let p = row * self.width + q;
                    vstd::arithmetic::div_mod::lemma_fundamental_div_mod_converse(
                        p as int,
                        self.width as int,
                        row as int,
                        q as int,
                    );
                    assert(spec_record_base(self@, p as int) == base);
                    assert(v as nat == spec_elem_at(self@, offset, spec_width(tag), p as int, 0));
                    assert((row * self.width + q) + 1 == row * self.width + (q + 1));
                }
                vals.push(v);
            }
            proof {
                assert(row * self.width + self.width == (row + 1) * self.width) by (nonlinear_arith)
                ;
            }
        }
        proof {
            assert(vals@.len() == spec_total_points(self@));
            assert(vals@ =~= Seq::new(
                spec_total_points(self@),
                |p: int| spec_elem_at(self@, offset, spec_width(tag), p, 0) as u64,
            ));
        }
        vals
    }

    /// Reads the fixed-list column of a field with repeat count other than
    /// one, grouping each record's consecutive elements into one entry.
    #[verifier::loop_isolation(false)]
    fn decode_list_column(&self, offset: u32, tag: RosDataType, count: u32) -> (vals: Vec<
        Vec<u64>,
    >)
        requires
            spec_size_ok(self@),
            self.row_step >= 1,
            self.point_step >= 1,
            offset + spec_width(tag) * count <= self.point_step,
        ensures
            vals@.map_values(|v: Vec<u64>| v@) == Seq::new(
                spec_total_points(self@),
                |p: int|
                    Seq::new(
                        count as nat,
                        |j: int| spec_elem_at(self@, offset, spec_width(tag), p, j) as u64,
                    ),
            ),
    {
        let w: usize = tag.size();
        let len: usize = self.data.len();
        let mut vals: Vec<Vec<u64>> = Vec::new();
        proof {
            lemma_layout_bounds(self@);
            assert(0 * self.width == 0) by (nonlinear_arith);
        }
        for row in 0..self.height
            invariant
                vals@.len() == row * self.width,
                forall|p: int|
                    0 <= p < vals@.len() ==> #[trigger] vals@[p]@ == Seq::new(
                        count as nat,
                        |j: int| spec_elem_at(self@, offset, spec_width(tag), p, j) as u64,
                    ),
        {
            for q in 0..self.width
                invariant
                    vals@.len() == row * self.width + q,
                    forall|p: int|
                        0 <= p < vals@.len() ==> #[trigger] vals@[p]@ == Seq::new(
                            count as nat,
                            |j: int| spec_elem_at(self@, offset, spec_width(tag), p, j) as u64,
                        ),
            {
                proof {
                    lemma_record_bounds(self@, row as int, q as int);
                }
                let base: usize = (row as usize) * (self.row_step as usize) + (q as usize) * (
                self.point_step as usize);
                let mut entry: Vec<u64> = Vec::new();
                let ghost p = row * self.width + q;
                proof {
                    vstd::arithmetic::div_mod::lemma_fundamental_div_mod_converse(
                        p as int,
                        self.width as int,
                        row as int,
                        q as int,
                    );
                    assert(spec_record_base(self@, p as int) == base);
                }
                for j in 0..count as usize
                    invariant
                        entry@.len() == j,
                        forall|jj: int|
                            0 <= jj < entry@.len() ==> #[trigger] entry@[jj] as nat == spec_elem_at(
                                self@,
                                offset,
                                spec_width(tag),
                                p as int,
                                jj,
                            ),
                {
                    proof {
                        assert(j * w + w == (j + 1) * w) by (nonlinear_arith);
                        assert((j + 1) * w <= count * w) by (nonlinear_arith)
                            requires
                                0 <= j < count,
                                w >= 0,
                        ;
                    }
                    let start: usize = base + offset as usize + j * w;
                    let v = decode_scalar(&self.data, start, w, self.is_bigendian);
                    entry.push(v);
                }
                proof {
                    assert(entry@ =~= Seq::new(
                        count as nat,
                        |j: int| spec_elem_at(self@, offset, spec_width(tag), p as int, j) as u64,
                    ));
                    assert((row * self.width + q) + 1 == row * self.width + (q + 1));
                }
                vals.push(entry);
            }
            proof {
                assert(row * self.width + self.width == (row + 1) * self.width) by (nonlinear_arith)
                ;
            }
        }
        proof {
            assert(vals@.len() == spec_total_points(self@));
            assert(vals@.map_values(|v: Vec<u64>| v@) =~= Seq::new(
                spec_total_points(self@),
                |p: int|
                    Seq::new(
                        count as nat,
                        |j: int| spec_elem_at(self@, offset, spec_width(tag), p, j) as u64,
                    ),
            ));
        }
        vals
    }
}

/// Under the size precondition, every block lies inside the buffer.
proof fn lemma_layout_bounds(c: CloudModel)
    requires
        spec_size_ok(c),
    ensures
        c.height * c.row_step == c.data.len(),
        c.width * c.height <= c.data.len() || c.width == 0 || c.point_step == 0,
{
    assert(c.height * c.row_step == c.row_step * c.height) by (nonlinear_arith);
    if c.width > 0 && c.point_step > 0 {
        assert(c.width <= c.width * c.point_step) by (nonlinear_arith)
            requires c.point_step >= 1, c.width >= 0;
        assert(c.width * c.height <= c.row_step * c.height) by (nonlinear_arith)
            requires c.width <= c.row_step, c.height >= 0;
    }
}

/// The byte span of record (`row`, `q`) lies inside the buffer.
proof fn lemma_record_bounds(c: CloudModel, row: int, q: int)
    requires
        spec_size_ok(c),
        0 <= row < c.height,
        0 <= q < c.width,
    ensures
        0 <= row * c.row_step,
        0 <= q * c.point_step,
        row * c.row_step + q * c.point_step + c.point_step <= c.data.len(),
{
    let rs = c.row_step as int;
    let ps = c.point_step as int;
    assert(0 <= row * rs) by (nonlinear_arith)
        requires row >= 0, rs >= 0;
    assert(0 <= q * ps) by (nonlinear_arith)
        requires q >= 0, ps >= 0;
    assert(q * ps + ps <= c.width * ps) by (nonlinear_arith)
        requires 0 <= q < c.width, ps >= 0;
    assert(row * rs + rs <= c.height * rs) by (nonlinear_arith)
        requires 0 <= row < c.height, rs >= 0;
    assert(c.height * rs == rs * c.height) by (nonlinear_arith);
}

} // verus!
