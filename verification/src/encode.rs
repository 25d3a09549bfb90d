//! The encode direction: what record set a columnar table encodes into,
//! stated as spec functions over the table's model, and the verified encoder.
//!
//! Encode derives a field descriptor per column in table order, packs the
//! fields tightly (each offset is the running total of the earlier spans, no
//! gaps), emits one record per row into blocks of one record each
//! (`row_step == point_step`), and serializes every element in the requested
//! byte order.

use crate::datatype::{spec_tag_to_u8, RosDataType};
use crate::error::{CodecError, ErrorModel};
use crate::flatten::{
    flat_len_to, lemma_flat_len_to_mono, lemma_flatten_len, lemma_flatten_push,
};
use crate::msg::{CloudModel, FieldModel, Header, HeaderModel, PointCloud2, PointField};
use crate::scalar::{lemma_le_bytes_len, push_scalar_bytes, scalar_bytes};
use crate::table::{Column, ColumnModel, ColumnarTable, NamedColumnModel};
use vstd::prelude::*;

verus! {

/// Inner index of the first fixed-list entry that breaks the declared count.
pub open spec fn spec_first_bad_arity(values: Seq<Seq<u64>>, count: u32) -> int
    decreases values.len(),
{
    if values.len() == 0 {
        0
    } else if values.first().len() != count {
        0
    } else {
        1 + spec_first_bad_arity(values.drop_first(), count)
    }
}

/// Inner length of the first fixed-list entry that breaks the declared count.
pub open spec fn spec_bad_arity_len(col: ColumnModel) -> nat {
    match col {
        ColumnModel::Scalar { .. } => 0,
        ColumnModel::FixedList { count, values, .. } => values[spec_first_bad_arity(
            values,
            count,
        )].len(),
    }
}

/// The error one column provokes against the expected row count, if any: an
/// inexpressible kind, then a row count unlike the first column's, then a
/// fixed-list entry that breaks the declared count.
pub open spec fn spec_column_error(col: NamedColumnModel, expected_rows: nat) -> Option<
    ErrorModel,
> {
    if col.column.tag() is None {
        Some(ErrorModel::UnsupportedColumnarKind { name: col.name, kind: col.column.dtype() })
    } else if col.column.rows() != expected_rows {
        Some(
            ErrorModel::ColumnLengthMismatch {
                name: col.name,
                expected: expected_rows as u64,
                actual: col.column.rows() as u64,
            },
        )
    } else if !col.column.arity_ok() {
        Some(
            ErrorModel::FixedListArityMismatch {
                name: col.name,
                expected: col.column.count(),
                actual: spec_bad_arity_len(col.column) as u64,
            },
        )
    } else {
        None
    }
}

/// The first column error in table order.
pub open spec fn spec_cols_error(cols: Seq<NamedColumnModel>, expected_rows: nat) -> Option<
    ErrorModel,
>
    decreases cols.len(),
{
    if cols.len() == 0 {
        None
    } else if spec_column_error(cols.first(), expected_rows) is Some {
        spec_column_error(cols.first(), expected_rows)
    } else {
        spec_cols_error(cols.drop_first(), expected_rows)
    }
}

/// The row count encode emits: the first column's, or zero for an empty
/// table.
pub open spec fn spec_encode_rows(cols: Seq<NamedColumnModel>) -> nat {
    if cols.len() == 0 {
        0
    } else {
        cols.first().column.rows()
    }
}

/// The error encode returns, if any.
pub open spec fn spec_encode_error(cols: Seq<NamedColumnModel>) -> Option<ErrorModel> {
    spec_cols_error(cols, spec_encode_rows(cols))
}

/// Byte offset of column `i`'s field under tight packing: the sum of the
/// earlier columns' spans.
pub open spec fn spec_offset_of(cols: Seq<NamedColumnModel>, i: int) -> int
    decreases i,
{
    if i <= 0 {
        0
    } else {
        spec_offset_of(cols, i - 1) + cols[i - 1].column.span()
    }
}

/// The record stride encode derives: the sum of all spans.
pub open spec fn spec_point_step(cols: Seq<NamedColumnModel>) -> int {
    spec_offset_of(cols, cols.len() as int)
}

/// The field descriptors encode derives, in table order.
pub open spec fn spec_fields_of(cols: Seq<NamedColumnModel>) -> Seq<FieldModel> {
    Seq::new(
        cols.len(),
        |i: int|
            FieldModel {
                name: cols[i].name,
                offset: spec_offset_of(cols, i) as u32,
                datatype: spec_tag_to_u8(cols[i].column.tag()->Some_0),
                count: cols[i].column.count(),
            },
    )
}

/// The bytes one row of one column contributes to its record.
pub open spec fn spec_entry_bytes(col: ColumnModel, p: int, is_big_endian: bool) -> Seq<u8>
    recommends
        col.tag() is Some,
{
    let w = crate::datatype::spec_width(col.tag()->Some_0);
    match col {
        ColumnModel::Scalar { values, .. } => scalar_bytes(values[p] as nat, w, is_big_endian),
        ColumnModel::FixedList { count, values, .. } => Seq::new(
            count as nat,
            |j: int| scalar_bytes(values[p][j] as nat, w, is_big_endian),
        ).flatten(),
    }
}

/// The bytes of record `p`: each column's entry in table order.
pub open spec fn spec_record_bytes(cols: Seq<NamedColumnModel>, p: int, is_big_endian: bool) -> Seq<
    u8,
> {
    Seq::new(cols.len(), |f: int| spec_entry_bytes(cols[f].column, p, is_big_endian)).flatten()
}

/// The whole buffer: all records in row order.
pub open spec fn spec_encode_data(cols: Seq<NamedColumnModel>, is_big_endian: bool) -> Seq<u8> {
    Seq::new(
        spec_encode_rows(cols),
        |p: int| spec_record_bytes(cols, p, is_big_endian),
    ).flatten()
}

/// The record set a table encodes into.
pub open spec fn spec_encode(
    header: HeaderModel,
    cols: Seq<NamedColumnModel>,
    is_big_endian: bool,
) -> CloudModel {
    CloudModel {
        header,
        height: spec_encode_rows(cols) as u32,
        width: 1,
        fields: spec_fields_of(cols),
        is_bigendian: is_big_endian,
        point_step: spec_point_step(cols) as u32,
        row_step: spec_point_step(cols) as u32,
        data: spec_encode_data(cols, is_big_endian),
        is_dense: true,
    }
}

/// Walking past an error-free prefix does not change the first column error.
pub proof fn lemma_cols_error_skip(cols: Seq<NamedColumnModel>, expected_rows: nat, i: int)
    requires
        0 <= i <= cols.len(),
        forall|k: int|
            0 <= k < i ==> #[trigger] spec_column_error(cols[k], expected_rows) is None,
    ensures
        spec_cols_error(cols, expected_rows) == spec_cols_error(cols.skip(i), expected_rows),
    decreases i,
{
    if i > 0 {
        assert(spec_column_error(cols.first(), expected_rows) is None);
        assert(cols.drop_first() =~= cols.skip(1));
        assert forall|k: int| 0 <= k < i - 1 implies #[trigger] spec_column_error(
            cols.skip(1)[k],
            expected_rows,
        ) is None by {
            assert(cols.skip(1)[k] == cols[k + 1]);
        }
        lemma_cols_error_skip(cols.skip(1), expected_rows, i - 1);
        assert(cols.skip(1).skip(i - 1) =~= cols.skip(i));
    } else {
        assert(cols.skip(0) =~= cols);
    }
}

/// If the columns before `i` are fine and column `i` is bad, the scan
/// reports column `i`'s error.
pub proof fn lemma_cols_error_at(cols: Seq<NamedColumnModel>, expected_rows: nat, i: int)
    requires
        0 <= i < cols.len(),
        forall|k: int|
            0 <= k < i ==> #[trigger] spec_column_error(cols[k], expected_rows) is None,
        spec_column_error(cols[i], expected_rows) is Some,
    ensures
        spec_cols_error(cols, expected_rows) == spec_column_error(cols[i], expected_rows),
{
    lemma_cols_error_skip(cols, expected_rows, i);
    assert(cols.skip(i).first() == cols[i]);
}

/// If every column is fine, the scan reports nothing.
pub proof fn lemma_cols_error_none(cols: Seq<NamedColumnModel>, expected_rows: nat)
    requires
        forall|k: int|
            0 <= k < cols.len() ==> #[trigger] spec_column_error(cols[k], expected_rows) is None,
    ensures
        spec_cols_error(cols, expected_rows) is None,
{
    lemma_cols_error_skip(cols, expected_rows, cols.len() as int);
    assert(cols.skip(cols.len() as int) =~= Seq::<NamedColumnModel>::empty());
}

/// Conversely, a clean scan means every column is fine.
pub proof fn lemma_cols_error_none_pointwise(cols: Seq<NamedColumnModel>, expected_rows: nat)
    requires
        spec_cols_error(cols, expected_rows) is None,
    ensures
        forall|k: int|
            0 <= k < cols.len() ==> #[trigger] spec_column_error(cols[k], expected_rows) is None,
    decreases cols.len(),
{
    if cols.len() > 0 {
        lemma_cols_error_none_pointwise(cols.drop_first(), expected_rows);
        assert forall|k: int| 0 <= k < cols.len() implies #[trigger] spec_column_error(
            cols[k],
            expected_rows,
        ) is None by {
            if k > 0 {
                assert(cols.drop_first()[k - 1] == cols[k]);
            }
        }
    }
}

/// If the entries before `p` obey the declared count and entry `p` does not,
/// entry `p` is the first offender.
pub proof fn lemma_first_bad_arity_at(values: Seq<Seq<u64>>, count: u32, p: int)
    requires
        0 <= p < values.len(),
        forall|k: int| 0 <= k < p ==> #[trigger] values[k].len() == count,
        values[p].len() != count,
    ensures
        spec_first_bad_arity(values, count) == p,
    decreases p,
{
    if p > 0 {
        assert forall|k: int| 0 <= k < p - 1 implies #[trigger] values.drop_first()[k].len()
            == count by {
            assert(values.drop_first()[k] == values[k + 1]);
        }
        assert(values.drop_first()[p - 1] == values[p]);
        lemma_first_bad_arity_at(values.drop_first(), count, p - 1);
    }
}

/// Offsets never shrink as columns are packed.
pub proof fn lemma_offset_of_mono(cols: Seq<NamedColumnModel>, i: int, j: int)
    requires
        0 <= i <= j,
    ensures
        spec_offset_of(cols, i) <= spec_offset_of(cols, j),
    decreases j,
{
    if i < j {
        lemma_offset_of_mono(cols, i, j - 1);
    }
}

/// One row of a well-formed column contributes exactly its span.
pub proof fn lemma_entry_bytes_len(col: ColumnModel, p: int, is_big_endian: bool)
    requires
        col.tag() is Some,
        col.arity_ok(),
        0 <= p < col.rows(),
    ensures
        spec_entry_bytes(col, p, is_big_endian).len() == col.span(),
{
    let w = crate::datatype::spec_width(col.tag()->Some_0);
    match col {
        ColumnModel::Scalar { values, .. } => {
            lemma_le_bytes_len(values[p] as nat, w);
        },
        ColumnModel::FixedList { count, values, .. } => {
            let pieces = Seq::new(
                count as nat,
                |j: int| scalar_bytes(values[p][j] as nat, w, is_big_endian),
            );
            assert forall|j: int| 0 <= j < pieces.len() implies #[trigger] pieces[j].len()
                == w by {
                lemma_le_bytes_len(values[p][j] as nat, w);
            }
            crate::flatten::lemma_flat_len_to_const(pieces, w, count as int);
            lemma_flatten_len(pieces);
            assert(count * w == w * count) by (nonlinear_arith);
        },
    }
}

/// In a record, column `i`'s entry starts at its packed offset.
pub proof fn lemma_record_offsets(
    cols: Seq<NamedColumnModel>,
    p: int,
    is_big_endian: bool,
    i: int,
)
    requires
        0 <= i <= cols.len(),
        forall|k: int|
            0 <= k < cols.len() ==> #[trigger] spec_column_error(
                cols[k],
                spec_encode_rows(cols),
            ) is None,
        0 <= p < spec_encode_rows(cols),
    ensures
        flat_len_to(
            Seq::new(cols.len(), |f: int| spec_entry_bytes(cols[f].column, p, is_big_endian)),
            i,
        ) == spec_offset_of(cols, i),
    decreases i,
{
    if i > 0 {
        lemma_record_offsets(cols, p, is_big_endian, i - 1);
        assert(spec_column_error(cols[i - 1], spec_encode_rows(cols)) is None);
        lemma_entry_bytes_len(cols[i - 1].column, p, is_big_endian);
    }
}

/// A record of a well-formed table is exactly one stride long.
pub proof fn lemma_record_bytes_len(cols: Seq<NamedColumnModel>, p: int, is_big_endian: bool)
    requires
        forall|k: int|
            0 <= k < cols.len() ==> #[trigger] spec_column_error(
                cols[k],
                spec_encode_rows(cols),
            ) is None,
        0 <= p < spec_encode_rows(cols),
    ensures
        spec_record_bytes(cols, p, is_big_endian).len() == spec_point_step(cols),
{
    let pieces = Seq::new(
        cols.len(),
        |f: int| spec_entry_bytes(cols[f].column, p, is_big_endian),
    );
    lemma_flatten_len(pieces);
    lemma_record_offsets(cols, p, is_big_endian, cols.len() as int);
}

impl PointCloud2 {
    /// Encodes a columnar table into a record set in the requested byte
    /// order: one field per column in table order, offsets packed tightly,
    /// one record per block, `header` carried through unchanged.
    #[verifier::loop_isolation(false)]
    #[verifier::rlimit(100)]
    pub fn from_arrow_array_endian(
        header: Header,
        array: &ColumnarTable,
        is_bigendian: bool,
    ) -> (r: Result<PointCloud2, CodecError>)
        requires
            spec_encode_error(array@) is None ==> spec_point_step(array@) <= u32::MAX
                && spec_encode_rows(array@) <= u32::MAX,
        ensures
            match r {
                Ok(pcd) => spec_encode_error(array@) is None && pcd@ == spec_encode(
                    header@,
                    array@,
                    is_bigendian,
                ),
                Err(e) => spec_encode_error(array@) == Some(e@),
            },
    {
        let ghost cols = array@;
        let ghost rows_spec = spec_encode_rows(cols);
        let n: usize = array.columns.len();
        let expected_rows: usize = if n == 0 {
            0
        } else {
            array.columns[0].column.rows()
        };
        proof {
            assert(cols.len() == n);
            if n > 0 {
                assert(cols[0] == array.columns@[0]@);
            }
            assert(expected_rows == rows_spec);
        }
        // First pass: resolve every column's kind to a tag and check the
        // row counts and fixed-list arities, reporting the first offense.
        let mut tags: Vec<RosDataType> = Vec::new();
        for i in 0..n
            invariant
                tags@.len() == i,
                forall|k: int|
                    0 <= k < i ==> #[trigger] spec_column_error(cols[k], rows_spec) is None,
                forall|k: int| 0 <= k < i ==> Some(#[trigger] tags@[k]) == cols[k].column.tag(),
        {
            let nc = &array.columns[i];
            proof {
                assert(nc@ == cols[i as int]);
            }
            let dtype = nc.column.dtype();
            let tag_opt = RosDataType::from_arrow_datatype(&dtype);
            let tag = match tag_opt {
                Some(t) => t,
                None => {
                    proof {
                        lemma_cols_error_at(cols, rows_spec, i as int);
                    }
                    return Err(
                        CodecError::UnsupportedColumnarKind { name: nc.name.clone(), kind: dtype },
                    );
                },
            };
            let rows_i = nc.column.rows();
            if rows_i != expected_rows {
                proof {
                    lemma_cols_error_at(cols, rows_spec, i as int);
                }
                return Err(
                    CodecError::ColumnLengthMismatch {
                        name: nc.name.clone(),
                        expected: expected_rows as u64,
                        actual: rows_i as u64,
                    },
                );
            }
            if let Column::FixedList { count, values, .. } = &nc.column {
                let ghost vals_model = values@.map_values(|v: Vec<u64>| v@);
                let count_usize: usize = *count as usize;
                for p in 0..values.len()
                    invariant
                        forall|pp: int|
                            0 <= pp < p ==> #[trigger] vals_model[pp].len() == count,
                {
                    if values[p].len() != count_usize {
                        proof {
                            lemma_first_bad_arity_at(vals_model, *count, p as int);
                            assert(spec_bad_arity_len(cols[i as int].column) == vals_model[
                                p as int
                            ].len());
                            lemma_cols_error_at(cols, rows_spec, i as int);
                        }
                        return Err(
                            CodecError::FixedListArityMismatch {
                                name: nc.name.clone(),
                                expected: *count,
                                actual: values[p].len() as u64,
                            },
                        );
                    }
                }
            }
            proof {
                assert(spec_column_error(cols[i as int], rows_spec) is None);
            }
            tags.push(tag);
        }
        proof {
            lemma_cols_error_none(cols, rows_spec);
        }
        // Second pass: derive the field descriptors, packing offsets tightly.
        let mut fields: Vec<PointField> = Vec::new();
        let mut offset: u64 = 0;
        for i in 0..n
            invariant
                tags@.len() == n,
                forall|k: int| 0 <= k < n ==> Some(#[trigger] tags@[k]) == cols[k].column.tag(),
                fields@.len() == i,
                offset == spec_offset_of(cols, i as int),
                forall|k: int|
                    0 <= k < i ==> #[trigger] fields@[k]@ == spec_fields_of(cols)[k],
        {
            proof {
                lemma_offset_of_mono(cols, i + 1 as int, cols.len() as int);
            }
            let w: usize = tags[i].size();
            let col_count: u32 = array.columns[i].column.count();
            proof {
                assert(array.columns@[i as int]@ == cols[i as int]);
                assert((w as int) * (col_count as int) == cols[i as int].column.span()) by {
                    assert(cols[i as int].column.span() == crate::datatype::spec_width(
                        cols[i as int].column.tag()->Some_0,
                    ) * cols[i as int].column.count() as nat);
                }
                assert((w as int) * (col_count as int) <= 8 * 0x1_0000_0000) by (nonlinear_arith)
                    requires w <= 8, col_count < 0x1_0000_0000;
            }
            let span: u64 = (w as u64) * (col_count as u64);
            let field = PointField {
                name: array.columns[i].name.clone(),
                offset: offset as u32,
                datatype: tags[i].to_u8(),
                count: col_count,
            };
            fields.push(field);
            offset = offset + span;
        }
        let point_step: u32 = offset as u32;
        // Third pass: serialize every record, field by field, element by
        // element, in the requested byte order.
        let mut data: Vec<u8> = Vec::new();
        for p in 0..expected_rows
            invariant
                tags@.len() == n,
                forall|k: int| 0 <= k < n ==> Some(#[trigger] tags@[k]) == cols[k].column.tag(),
                data@ == Seq::new(
                    p as nat,
                    |q: int| spec_record_bytes(cols, q, is_bigendian),
                ).flatten(),
        {
            let ghost rec_prefix = data@;
            let ghost entry_of = |g: int| spec_entry_bytes(cols[g].column, p as int, is_bigendian);
            for f in 0..n
                invariant
                    tags@.len() == n,
                    forall|k: int|
                        0 <= k < n ==> Some(#[trigger] tags@[k]) == cols[k].column.tag(),
                    data@ == rec_prefix + Seq::new(f as nat, entry_of).flatten(),
            {
                let w: usize = tags[f].size();
                proof {
                    assert(array.columns@[f as int]@ == cols[f as int]);
                    assert(spec_column_error(cols[f as int], rows_spec) is None);
                }
                let ghost before_entry = data@;
                match &array.columns[f].column {
                    Column::Scalar { values, .. } => {
                        push_scalar_bytes(&mut data, values[p], w, is_bigendian);
                        proof {
                            assert(data@ == before_entry + entry_of(f as int));
                        }
                    },
                    Column::FixedList { count, values, .. } => {
                        let entry = &values[p];
                        let ghost vals_model = values@.map_values(|v: Vec<u64>| v@);
                        let ghost piece_of = |j: int| scalar_bytes(
                            vals_model[p as int][j] as nat,
                            crate::datatype::spec_width(cols[f as int].column.tag()->Some_0),
                            is_bigendian,
                        );
                        proof {
                            assert(vals_model[p as int].len() == count);
                        }
                        for j in 0..entry.len()
                            invariant
                                data@ == before_entry + Seq::new(j as nat, piece_of).flatten(),
                        {
                            proof {
                                assert(Seq::new(j as nat + 1, piece_of) =~= Seq::new(
                                    j as nat,
                                    piece_of,
                                ).push(piece_of(j as int)));
                                lemma_flatten_push(Seq::new(j as nat, piece_of), piece_of(j as int));
                            }
                            push_scalar_bytes(&mut data, entry[j], w, is_bigendian);
                        }
                        proof {
                            assert(Seq::new(count as nat, piece_of) =~= Seq::new(
                                entry@.len(),
                                piece_of,
                            ));
                            assert(entry_of(f as int) =~= Seq::new(count as nat, piece_of).flatten());
                            assert(data@ == before_entry + entry_of(f as int));
                        }
                    },
                }
                proof {
                    assert(Seq::new(f as nat + 1, entry_of) =~= Seq::new(f as nat, entry_of).push(
                        entry_of(f as int),
                    ));
                    lemma_flatten_push(Seq::new(f as nat, entry_of), entry_of(f as int));
                    assert(data@ == rec_prefix + Seq::new(f as nat + 1, entry_of).flatten());
                }
            }
            proof {
                assert(Seq::new(n as nat, entry_of) =~= Seq::new(
                    cols.len(),
                    |g: int| spec_entry_bytes(cols[g].column, p as int, is_bigendian),
                ));
                assert(data@ == rec_prefix + spec_record_bytes(cols, p as int, is_bigendian));
                let recs = Seq::new(p as nat, |q: int| spec_record_bytes(cols, q, is_bigendian));
                assert(Seq::new(p as nat + 1, |q: int| spec_record_bytes(cols, q, is_bigendian))
                    =~= recs.push(spec_record_bytes(cols, p as int, is_bigendian)));
                lemma_flatten_push(recs, spec_record_bytes(cols, p as int, is_bigendian));
            }
        }
        let pcd = PointCloud2 {
            header,
            height: expected_rows as u32,
            width: 1,
            fields,
            is_bigendian,
            point_step,
            row_step: point_step,
            data,
            is_dense: true,
        };
        proof {
            assert(pcd@.fields =~= spec_fields_of(cols));
            assert(pcd@.data =~= spec_encode_data(cols, is_bigendian));
            assert(pcd@ =~~= spec_encode(header@, cols, is_bigendian));
        }
        Ok(pcd)
    }
}

} // verus!
