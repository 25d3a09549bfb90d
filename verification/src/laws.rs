//! The codec's round-trip law: a well-formed table, encoded into a record
//! set under either byte order, decodes back to exactly itself.
//!
//! Well-formed means: every column's kind has a record type tag, all columns
//! agree on the row count, every fixed-list entry has its declared length
//! and no fixed-list declares a count of one (a one-element list field is
//! indistinguishable from a scalar field in the record format, so it decodes
//! as a scalar column), every value fits its kind's byte width, and the
//! derived stride and row count fit the record format's 32-bit fields.

use crate::datatype::{lemma_registry_bijective, spec_tag_from_u8, spec_tag_to_u8, spec_width};
use crate::decode::{
    lemma_fields_error_none, spec_decode, spec_decode_column, spec_decode_error, spec_elem_at,
    spec_field_error, spec_record_base, spec_size_error, spec_total_points,
};
use crate::encode::{
    lemma_cols_error_none_pointwise, lemma_entry_bytes_len, lemma_offset_of_mono,
    lemma_record_bytes_len, lemma_record_offsets, spec_column_error, spec_encode,
    spec_encode_data, spec_encode_error, spec_encode_rows, spec_entry_bytes, spec_fields_of,
    spec_offset_of, spec_point_step, spec_record_bytes,
};
use crate::flatten::{lemma_flat_len_to_const, lemma_flatten_len, lemma_flatten_piece};
use crate::msg::{CloudModel, FieldModel, HeaderModel};
use crate::scalar::{
    lemma_le_bytes_len, lemma_scalar_round_trip, scalar_bytes, scalar_value,
};
use crate::table::{table_values_fit, ColumnModel, NamedColumnModel};
use vstd::arithmetic::div_mod::lemma_fundamental_div_mod_converse;
use vstd::prelude::*;

verus! {

/// The value one row of a column holds at inner position `j` (a scalar
/// column ignores `j`).
spec fn spec_col_value(col: ColumnModel, p: int, j: int) -> u64 {
    match col {
        ColumnModel::Scalar { values, .. } => values[p],
        ColumnModel::FixedList { values, .. } => values[p][j],
    }
}

/// The preconditions of the round-trip law, gathered.
pub open spec fn spec_round_trip_ok(cols: Seq<NamedColumnModel>) -> bool {
    &&& spec_encode_error(cols) is None
    &&& table_values_fit(cols)
    &&& spec_point_step(cols) <= u32::MAX
    &&& spec_encode_rows(cols) <= u32::MAX
    &&& forall|i: int|
        0 <= i < cols.len() ==> ((#[trigger] cols[i].column) is FixedList ==> cols[i].column.count()
            != 1)
}

/// The encoded buffer splits into records of one stride each.
proof fn lemma_encode_layout(cols: Seq<NamedColumnModel>, is_big_endian: bool)
    requires
        spec_encode_error(cols) is None,
    ensures
        spec_point_step(cols) >= 0,
        spec_encode_data(cols, is_big_endian).len() == spec_encode_rows(cols) * spec_point_step(
            cols,
        ),
        forall|p: int|
            0 <= p < spec_encode_rows(cols) ==> #[trigger] spec_encode_data(
                cols,
                is_big_endian,
            ).subrange(
                p * spec_point_step(cols),
                p * spec_point_step(cols) + spec_point_step(cols),
            ) == spec_record_bytes(cols, p, is_big_endian),
{
    lemma_cols_error_none_pointwise(cols, spec_encode_rows(cols));
    let rows = spec_encode_rows(cols);
    let ps = spec_point_step(cols);
    lemma_offset_of_mono(cols, 0, cols.len() as int);
    let recs = Seq::new(rows, |p: int| spec_record_bytes(cols, p, is_big_endian));
    assert forall|m: int| 0 <= m < recs.len() implies #[trigger] recs[m].len() == ps as nat by {
        lemma_record_bytes_len(cols, m, is_big_endian);
    }
    lemma_flat_len_to_const(recs, ps as nat, rows as int);
    lemma_flatten_len(recs);
    assert forall|p: int| 0 <= p < rows implies #[trigger] spec_encode_data(
        cols,
        is_big_endian,
    ).subrange(p * ps, p * ps + ps) == spec_record_bytes(cols, p, is_big_endian) by {
        lemma_flatten_piece(recs, p);
        lemma_flat_len_to_const(recs, ps as nat, p);
        assert(p * (ps as nat) == p * ps);
    }
}

/// Reading back element `j` of column `i` in record `p` of the encoding
/// yields the value the column holds there.
proof fn lemma_elem_round_trip(
    header: HeaderModel,
    cols: Seq<NamedColumnModel>,
    is_big_endian: bool,
    i: int,
    p: int,
    j: int,
)
    requires
        spec_round_trip_ok(cols),
        0 <= i < cols.len(),
        0 <= p < spec_encode_rows(cols),
        0 <= j < cols[i].column.count(),
    ensures
        spec_elem_at(
            spec_encode(header, cols, is_big_endian),
            spec_offset_of(cols, i) as u32,
            spec_width(cols[i].column.tag()->Some_0),
            p,
            j,
        ) == spec_col_value(cols[i].column, p, j),
{
    let rows = spec_encode_rows(cols);
    let ps = spec_point_step(cols);
    let c = spec_encode(header, cols, is_big_endian);
    let off = spec_offset_of(cols, i);
    let col = cols[i].column;
    let t = col.tag()->Some_0;
    let w = spec_width(t);
    let count = col.count() as int;
    let value = spec_col_value(col, p, j);
    lemma_cols_error_none_pointwise(cols, rows);
    assert(spec_column_error(cols[i], rows) is None);
    assert(col.rows() == rows);
    lemma_registry_bijective();
    lemma_offset_of_mono(cols, 0, i);
    lemma_offset_of_mono(cols, i + 1, cols.len() as int);
    assert(spec_offset_of(cols, i + 1) == off + col.span());
    assert(col.span() == w * count);
    assert(j * w + w == (j + 1) * w) by (nonlinear_arith);
    assert((j + 1) * w <= count * w) by (nonlinear_arith)
        requires 0 <= j < count, w >= 0;
    assert(count * w == w * count) by (nonlinear_arith);
    // The record base of record p in the encoding is p strides in.
    assert(1 * p + 0 == p) by (nonlinear_arith);
    lemma_fundamental_div_mod_converse(p, 1, p, 0);
    assert(c.row_step == ps as u32);
    assert(c.row_step as int == ps);
    assert(c.point_step as int == ps);
    assert(0 * (c.point_step as int) == 0) by (nonlinear_arith);
    assert(spec_record_base(c, p) == p * ps);
    // The record's bytes, the entry's bytes within the record, and the
    // element's bytes within the entry.
    lemma_encode_layout(cols, is_big_endian);
    let record = spec_record_bytes(cols, p, is_big_endian);
    assert(c.data.subrange(p * ps, p * ps + ps) == record);
    let pieces = Seq::new(
        cols.len(),
        |f: int| spec_entry_bytes(cols[f].column, p, is_big_endian),
    );
    lemma_flatten_piece(pieces, i);
    lemma_record_offsets(cols, p, is_big_endian, i);
    lemma_entry_bytes_len(col, p, is_big_endian);
    let entry = spec_entry_bytes(col, p, is_big_endian);
    assert(record.subrange(off, off + col.span()) == entry);
    assert(record.len() == ps) by {
        lemma_record_bytes_len(cols, p, is_big_endian);
    }
    // The element's bytes are exactly the scalar bytes written for the value.
    let elem_bytes = entry.subrange(j * w, j * w + w);
    match col {
        ColumnModel::Scalar { values, .. } => {
            lemma_le_bytes_len(values[p] as nat, w);
            assert(j == 0);
            assert(0 * w == 0) by (nonlinear_arith);
            assert(elem_bytes =~= scalar_bytes(value as nat, w, is_big_endian));
        },
        ColumnModel::FixedList { count: cnt, values, .. } => {
            let inner = Seq::new(
                cnt as nat,
                |jj: int| scalar_bytes(values[p][jj] as nat, w, is_big_endian),
            );
            assert forall|m: int| 0 <= m < inner.len() implies #[trigger] inner[m].len()
                == w by {
                lemma_le_bytes_len(values[p][m] as nat, w);
            }
            lemma_flatten_piece(inner, j);
            lemma_flat_len_to_const(inner, w, j);
            assert(entry == inner.flatten());
            assert(elem_bytes == inner[j]);
            assert(elem_bytes == scalar_bytes(value as nat, w, is_big_endian));
        },
    }
    // Compose the three subranges into one read of the whole buffer.
    let base = p * ps;
    assert(c.data.subrange(base + off + j * w, base + off + j * w + w) =~= elem_bytes) by {
        assert(off + j * w + w <= ps);
        assert(base >= 0) by (nonlinear_arith)
            requires base == p * ps, p >= 0, ps >= 0;
        assert(base + ps <= rows * ps) by (nonlinear_arith)
            requires base == p * ps, 0 <= p < rows, ps >= 0;
        assert(c.data.len() == rows * ps);
        assert forall|m: int| 0 <= m < w implies c.data.subrange(
            base + off + j * w,
            base + off + j * w + w,
        )[m] == elem_bytes[m] by {
            assert(c.data.subrange(base + off + j * w, base + off + j * w + w)[m] == c.data[base
                + off + j * w + m]);
            assert(record[off + j * w + m] == c.data[base + off + j * w + m]);
            assert(entry[j * w + m] == record[off + j * w + m]);
            assert(elem_bytes[m] == entry[j * w + m]);
        }
        lemma_le_bytes_len(value as nat, w);
    }
    // And the scalar round trip pins the value.
    assert(value < crate::scalar::pow256(w)) by {
        assert(cols[i].column.values_fit());
    }
    lemma_scalar_round_trip(value as nat, w, is_big_endian);
    assert((spec_offset_of(cols, i) as u32) as int == off);
}

/// Column `i` of the decoded encoding is column `i` of the table.
proof fn lemma_column_round_trip(
    header: HeaderModel,
    cols: Seq<NamedColumnModel>,
    is_big_endian: bool,
    i: int,
)
    requires
        spec_round_trip_ok(cols),
        0 <= i < cols.len(),
    ensures
        spec_decode_column(spec_encode(header, cols, is_big_endian), spec_fields_of(cols)[i])
            == cols[i].column,
{
    let rows = spec_encode_rows(cols);
    let c = spec_encode(header, cols, is_big_endian);
    let f = spec_fields_of(cols)[i];
    let col = cols[i].column;
    let t = col.tag()->Some_0;
    let w = spec_width(t);
    lemma_cols_error_none_pointwise(cols, rows);
    assert(spec_column_error(cols[i], rows) is None);
    lemma_registry_bijective();
    assert(f.datatype == spec_tag_to_u8(t));
    assert(spec_tag_from_u8(f.datatype) == Some(t));
    assert(rows * 1 == rows) by (nonlinear_arith);
    assert(spec_total_points(c) == rows);
    lemma_offset_of_mono(cols, 0, i);
    lemma_offset_of_mono(cols, i + 1, cols.len() as int);
    assert(f.offset as int == spec_offset_of(cols, i));
    match col {
        ColumnModel::Scalar { dtype, values } => {
            assert(f.count == 1);
            let decoded = Seq::new(
                spec_total_points(c),
                |p: int| spec_elem_at(c, f.offset, w, p, 0) as u64,
            );
            assert forall|p: int| 0 <= p < rows implies #[trigger] decoded[p] == values[p] by {
                lemma_elem_round_trip(header, cols, is_big_endian, i, p, 0);
            }
            assert(decoded =~= values);
            assert(spec_decode_column(c, f) =~~= col);
        },
        ColumnModel::FixedList { dtype, count, values } => {
            assert(f.count == count);
            assert(count != 1);
            let decoded = Seq::new(
                spec_total_points(c),
                |p: int| Seq::new(f.count as nat, |j: int| spec_elem_at(c, f.offset, w, p, j) as u64),
            );
            assert forall|p: int| 0 <= p < rows implies #[trigger] decoded[p] == values[p] by {
                assert(values[p].len() == count);
                assert forall|j: int| 0 <= j < count implies #[trigger] decoded[p][j]
                    == values[p][j] by {
                    lemma_elem_round_trip(header, cols, is_big_endian, i, p, j);
                }
                assert(decoded[p] =~= values[p]);
            }
            assert(decoded =~= values);
            assert(spec_decode_column(c, f) =~~= col);
        },
    }
}

/// Round-trip law: a well-formed table (see `spec_round_trip_ok`), encoded
/// under either byte order, satisfies the decoder's checks and decodes back
/// to exactly itself, element for element.
pub proof fn lemma_round_trip(
    header: HeaderModel,
    cols: Seq<NamedColumnModel>,
    is_big_endian: bool,
)
    requires
        spec_round_trip_ok(cols),
    ensures
        spec_decode_error(spec_encode(header, cols, is_big_endian)) is None,
        spec_decode(spec_encode(header, cols, is_big_endian)) == cols,
{
    let rows = spec_encode_rows(cols);
    let ps = spec_point_step(cols);
    let c = spec_encode(header, cols, is_big_endian);
    lemma_cols_error_none_pointwise(cols, rows);
    lemma_registry_bijective();
    lemma_encode_layout(cols, is_big_endian);
    // The sizes agree: one record per block, no padding.
    assert(1 * ps == ps) by (nonlinear_arith);
    assert(c.width * c.point_step <= c.row_step);
    assert(rows * ps == ps * rows) by (nonlinear_arith);
    assert(c.data.len() == c.row_step * c.height);
    assert(spec_size_error(c) is None);
    // Every derived field passes the decoder's checks.
    assert forall|k: int| 0 <= k < c.fields.len() implies #[trigger] spec_field_error(
        c.fields[k],
        c.point_step,
    ) is None by {
        let col = cols[k].column;
        let t = col.tag()->Some_0;
        assert(spec_column_error(cols[k], rows) is None);
        assert(c.fields[k].datatype == spec_tag_to_u8(t));
        lemma_offset_of_mono(cols, 0, k);
        lemma_offset_of_mono(cols, k + 1, cols.len() as int);
        assert(spec_offset_of(cols, k + 1) == spec_offset_of(cols, k) + col.span());
        assert(c.fields[k].offset as int == spec_offset_of(cols, k));
        assert(c.fields[k].count == col.count());
        assert(spec_width(t) * c.fields[k].count == col.span());
    }
    lemma_fields_error_none(c.fields, c.point_step);
    // The decoded columns are the table's columns.
    let decoded = spec_decode(c);
    assert forall|i: int| 0 <= i < cols.len() implies #[trigger] decoded[i] == cols[i] by {
        lemma_column_round_trip(header, cols, is_big_endian, i);
        assert(decoded[i].name == cols[i].name);
        assert(decoded[i] =~~= cols[i]);
    }
    assert(decoded =~= cols);
}

} // verus!
