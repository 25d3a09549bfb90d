use ros_msg_ext::codec::PointCloud2ArrowExt;
use ros_msg_ext::datatype::ArrowDataType;
use ros_msg_ext::error::CodecError;
use ros_msg_ext::msg::{Header, PointCloud2, PointField, Time};
use ros_msg_ext::table::{Column, ColumnarTable, NamedColumn};

fn header() -> Header {
    Header { stamp: Time { sec: 0, nanosec: 0 }, frame_id: "map".to_owned() }
}

fn cloud(
    fields: Vec<PointField>,
    height: u32,
    width: u32,
    point_step: u32,
    row_step: u32,
    is_bigendian: bool,
    data: Vec<u8>,
) -> PointCloud2 {
    PointCloud2 {
        header: header(),
        height,
        width,
        fields,
        is_bigendian,
        point_step,
        row_step,
        data,
        is_dense: true,
    }
}

fn f32_field(name: &str, offset: u32) -> PointField {
    PointField { name: name.to_owned(), offset, datatype: 7, count: 1 }
}

/// Three little-endian f32 scalar fields decode into three scalar columns.
#[test]
fn decode_xyz_scalars() {
    let fields = vec![f32_field("x", 0), f32_field("y", 4), f32_field("z", 8)];
    let mut data: Vec<u8> = Vec::new();
    for v in [1.0f32, 2.0, 3.0, 4.0, 5.0, 6.0] {
        data.extend_from_slice(&v.to_le_bytes());
    }
    let pcd = cloud(fields, 2, 1, 12, 12, false, data);
    let table = pcd.to_arrow_array().unwrap();
    assert_eq!(table.columns.len(), 3);
    let expected = [
        ("x", [1.0f32, 4.0]),
        ("y", [2.0f32, 5.0]),
        ("z", [3.0f32, 6.0]),
    ];
    for (col, (name, vals)) in table.columns.iter().zip(expected.iter()) {
        assert_eq!(col.name.as_str(), *name);
        match &col.column {
            Column::Scalar { dtype, values } => {
                assert_eq!(*dtype, ArrowDataType::Float32);
                let decoded: Vec<f32> =
                    values.iter().map(|b| f32::from_bits(*b as u32)).collect();
                assert_eq!(decoded, vals.to_vec());
            }
            _ => panic!("expected a scalar column"),
        }
    }
}

/// The same field bytes big-endian and little-endian give byte-reversed
/// scalars; one-byte types are unaffected.
#[test]
fn decode_endianness() {
    let fields = vec![
        PointField { name: "a".to_owned(), offset: 0, datatype: 4, count: 1 },
        PointField { name: "b".to_owned(), offset: 2, datatype: 2, count: 1 },
    ];
    let data = vec![0x12u8, 0x34, 0x56];
    let le = cloud(fields.clone(), 1, 1, 3, 3, false, data.clone());
    let be = cloud(fields, 1, 1, 3, 3, true, data);
    let tle = le.to_arrow_array().unwrap();
    let tbe = be.to_arrow_array().unwrap();
    let first = |t: &ColumnarTable, i: usize| -> u64 {
        match &t.columns[i].column {
            Column::Scalar { values, .. } => values[0],
            _ => panic!("expected a scalar column"),
        }
    };
    assert_eq!(first(&tle, 0), 0x3412);
    assert_eq!(first(&tbe, 0), 0x1234);
    assert_eq!(first(&tle, 1), 0x56);
    assert_eq!(first(&tbe, 1), 0x56);
}

/// Repeat count one gives a scalar column; repeat count four gives a
/// fixed-list column whose every entry has four elements.
#[test]
fn decode_repeat_count_boundary() {
    let fields = vec![
        PointField { name: "s".to_owned(), offset: 0, datatype: 2, count: 1 },
        PointField { name: "v".to_owned(), offset: 1, datatype: 2, count: 4 },
    ];
    let data = vec![9u8, 1, 2, 3, 4, 8, 5, 6, 7, 0];
    let pcd = cloud(fields, 2, 1, 5, 5, false, data);
    let table = pcd.to_arrow_array().unwrap();
    match &table.columns[0].column {
        Column::Scalar { values, .. } => assert_eq!(values.clone(), vec![9, 8]),
        _ => panic!("expected a scalar column"),
    }
    match &table.columns[1].column {
        Column::FixedList { count, values, .. } => {
            assert_eq!(*count, 4);
            assert_eq!(values.len(), 2);
            for entry in values {
                assert_eq!(entry.len(), 4);
            }
            assert_eq!(values[0], vec![1, 2, 3, 4]);
            assert_eq!(values[1], vec![5, 6, 7, 0]);
        }
        _ => panic!("expected a fixed-list column"),
    }
}

/// Blocks holding several records decode in row-major record order, with
/// the block padding skipped.
#[test]
fn decode_multi_record_blocks() {
    let fields = vec![PointField { name: "v".to_owned(), offset: 0, datatype: 4, count: 1 }];
    let data = vec![1u8, 0, 2, 0, 0xEE, 3, 0, 4, 0, 0xEE];
    let pcd = cloud(fields, 2, 2, 2, 5, false, data);
    let table = pcd.to_arrow_array().unwrap();
    match &table.columns[0].column {
        Column::Scalar { values, .. } => assert_eq!(values.clone(), vec![1, 2, 3, 4]),
        _ => panic!("expected a scalar column"),
    }
}

/// Fixed-list elements honor the stated endianness too.
#[test]
fn decode_big_endian_fixed_list() {
    let fields = vec![PointField { name: "v".to_owned(), offset: 0, datatype: 3, count: 2 }];
    let data = vec![0x01u8, 0x02, 0xFF, 0xFE];
    let pcd = cloud(fields, 1, 1, 4, 4, true, data);
    let table = pcd.to_arrow_array().unwrap();
    match &table.columns[0].column {
        Column::FixedList { count, values, .. } => {
            assert_eq!(*count, 2);
            // 0x0102 and 0xFFFE as i16 bit patterns.
            assert_eq!(values.clone(), vec![vec![0x0102, 0xFFFE]]);
        }
        _ => panic!("expected a fixed-list column"),
    }
}

/// Records wider than the block stride are a size mismatch, with no partial
/// output.
#[test]
fn decode_size_mismatch_stride() {
    let fields = vec![f32_field("x", 0)];
    let pcd = cloud(fields, 1, 2, 12, 12, false, vec![0u8; 12]);
    let err = pcd.to_arrow_array().unwrap_err();
    assert!(matches!(err, CodecError::SizeMismatch { .. }));
}

/// A buffer that is not exactly the declared blocks is a size mismatch.
#[test]
fn decode_size_mismatch_length() {
    let fields = vec![f32_field("x", 0)];
    let pcd = cloud(fields, 2, 1, 12, 12, false, vec![0u8; 13]);
    let err = pcd.to_arrow_array().unwrap_err();
    assert!(matches!(err, CodecError::SizeMismatch { .. }));
}

/// An unknown numeric type tag is reported with the tag.
#[test]
fn decode_unknown_tag() {
    let fields = vec![PointField { name: "x".to_owned(), offset: 0, datatype: 9, count: 1 }];
    let pcd = cloud(fields, 1, 1, 4, 4, false, vec![0u8; 4]);
    let err = pcd.to_arrow_array().unwrap_err();
    assert!(matches!(err, CodecError::UnsupportedTypeTag { tag: 9 }));
}

/// An f64 field at offset 8 of a 12-byte record runs out of bounds
/// (span end 16 > 12).
#[test]
fn decode_field_span_out_of_bounds() {
    let fields = vec![PointField { name: "t".to_owned(), offset: 8, datatype: 8, count: 1 }];
    let pcd = cloud(fields, 1, 1, 12, 12, false, vec![0u8; 12]);
    let err = pcd.to_arrow_array().unwrap_err();
    match err {
        CodecError::FieldSpanOutOfBounds { span_end, point_step, .. } => {
            assert_eq!(span_end, 16);
            assert_eq!(point_step, 12);
        }
        other => panic!("expected a span error, got {:?}", other),
    }
}

/// Trailing padding between the packed records and the end of each block is
/// ignored.
#[test]
fn decode_ignores_block_padding() {
    let fields = vec![PointField { name: "v".to_owned(), offset: 0, datatype: 2, count: 1 }];
    let data = vec![1u8, 0xEE, 2, 0xEE];
    let pcd = cloud(fields, 2, 1, 1, 2, false, data);
    let table = pcd.to_arrow_array().unwrap();
    match &table.columns[0].column {
        Column::Scalar { values, .. } => assert_eq!(values.clone(), vec![1, 2]),
        _ => panic!("expected a scalar column"),
    }
}

/// A u8 fixed-list column of two rows encodes to a six-byte buffer with a
/// tightly packed field descriptor, and decodes back to the same values.
#[test]
fn encode_rgb_fixed_list() {
    let table = ColumnarTable {
        columns: vec![NamedColumn {
            name: "rgb".to_owned(),
            column: Column::FixedList {
                dtype: ArrowDataType::UInt8,
                count: 3,
                values: vec![vec![10, 20, 30], vec![40, 50, 60]],
            },
        }],
    };
    let pcd = PointCloud2::from_arrow_array_endian(header(), &table, false).unwrap();
    assert_eq!(pcd.data, vec![10u8, 20, 30, 40, 50, 60]);
    assert_eq!(pcd.fields.len(), 1);
    assert_eq!(pcd.fields[0].offset, 0);
    assert_eq!(pcd.fields[0].datatype, 2);
    assert_eq!(pcd.fields[0].count, 3);
    assert_eq!(pcd.point_step, 3);
    assert_eq!(pcd.row_step, 3);
    assert_eq!(pcd.height, 2);
    assert_eq!(pcd.width, 1);
    let back = pcd.to_arrow_array().unwrap();
    match &back.columns[0].column {
        Column::FixedList { count, values, .. } => {
            assert_eq!(*count, 3);
            assert_eq!(values.clone(), vec![vec![10, 20, 30], vec![40, 50, 60]]);
        }
        _ => panic!("expected a fixed-list column"),
    }
    assert_eq!(back.columns[0].name.as_str(), "rgb");
}

fn mixed_table() -> ColumnarTable {
    ColumnarTable {
        columns: vec![
            NamedColumn {
                name: "x".to_owned(),
                column: Column::Scalar {
                    dtype: ArrowDataType::Float32,
                    values: vec![1.5f32.to_bits() as u64, (-2.25f32).to_bits() as u64],
                },
            },
            NamedColumn {
                name: "t".to_owned(),
                column: Column::Scalar {
                    dtype: ArrowDataType::Float64,
                    values: vec![3.75f64.to_bits(), f64::to_bits(-0.5)],
                },
            },
            NamedColumn {
                name: "id".to_owned(),
                column: Column::Scalar { dtype: ArrowDataType::Int32, values: vec![7, 0xFFFF_FFFF] },
            },
            NamedColumn {
                name: "rgb".to_owned(),
                column: Column::FixedList {
                    dtype: ArrowDataType::UInt8,
                    count: 3,
                    values: vec![vec![1, 2, 3], vec![4, 5, 6]],
                },
            },
        ],
    }
}

/// Encoding a table of every shape and decoding it back reproduces it
/// element for element, under either requested byte order.
#[test]
fn round_trip_mixed_table() {
    for be in [false, true] {
        let table = mixed_table();
        let pcd = PointCloud2::from_arrow_array_endian(header(), &table, be).unwrap();
        assert_eq!(pcd.is_bigendian, be);
        assert_eq!(pcd.point_step, 4 + 8 + 4 + 3);
        let back = pcd.to_arrow_array().unwrap();
        assert_eq!(back.columns.len(), table.columns.len());
        for (a, b) in back.columns.iter().zip(table.columns.iter()) {
            assert_eq!(a.name, b.name);
            match (&a.column, &b.column) {
                (
                    Column::Scalar { dtype: da, values: va },
                    Column::Scalar { dtype: db, values: vb },
                ) => {
                    assert_eq!(da, db);
                    assert_eq!(va, vb);
                }
                (
                    Column::FixedList { dtype: da, count: ca, values: va },
                    Column::FixedList { dtype: db, count: cb, values: vb },
                ) => {
                    assert_eq!(da, db);
                    assert_eq!(ca, cb);
                    assert_eq!(va, vb);
                }
                _ => panic!("column shapes differ after the round trip"),
            }
        }
    }
}

/// The native-endian entry point reports the order it used, and its output
/// still decodes back to the table.
#[test]
fn round_trip_native_endian() {
    let table = mixed_table();
    let pcd = PointCloud2::from_arrow_array(header(), &table).unwrap();
    let expected_be = 256u16.to_ne_bytes()[0] == 1;
    assert_eq!(pcd.is_bigendian, expected_be);
    let back = pcd.to_arrow_array().unwrap();
    assert_eq!(back.columns.len(), 4);
    match &back.columns[2].column {
        Column::Scalar { values, .. } => assert_eq!(values.clone(), vec![7, 0xFFFF_FFFF]),
        _ => panic!("expected a scalar column"),
    }
}

/// A column of a kind the record format cannot express is rejected with its
/// name and kind.
#[test]
fn encode_unsupported_kind() {
    let table = ColumnarTable {
        columns: vec![NamedColumn {
            name: "big".to_owned(),
            column: Column::Scalar { dtype: ArrowDataType::Int64, values: vec![1] },
        }],
    };
    let err = PointCloud2::from_arrow_array_endian(header(), &table, false).unwrap_err();
    match err {
        CodecError::UnsupportedColumnarKind { name, kind } => {
            assert_eq!(name.as_str(), "big");
            assert_eq!(kind, ArrowDataType::Int64);
        }
        other => panic!("expected an unsupported-kind error, got {:?}", other),
    }
}

/// Columns that disagree on the row count are rejected, naming the offender.
#[test]
fn encode_column_length_mismatch() {
    let table = ColumnarTable {
        columns: vec![
            NamedColumn {
                name: "a".to_owned(),
                column: Column::Scalar { dtype: ArrowDataType::UInt8, values: vec![1, 2] },
            },
            NamedColumn {
                name: "b".to_owned(),
                column: Column::Scalar { dtype: ArrowDataType::UInt8, values: vec![1] },
            },
        ],
    };
    let err = PointCloud2::from_arrow_array_endian(header(), &table, false).unwrap_err();
    match err {
        CodecError::ColumnLengthMismatch { name, expected, actual } => {
            assert_eq!(name.as_str(), "b");
            assert_eq!(expected, 2);
            assert_eq!(actual, 1);
        }
        other => panic!("expected a length-mismatch error, got {:?}", other),
    }
}

/// A fixed-list entry whose inner length differs from the declared count is
/// rejected.
#[test]
fn encode_fixed_list_arity_mismatch() {
    let table = ColumnarTable {
        columns: vec![NamedColumn {
            name: "rgb".to_owned(),
            column: Column::FixedList {
                dtype: ArrowDataType::UInt8,
                count: 3,
                values: vec![vec![1, 2, 3], vec![4, 5]],
            },
        }],
    };
    let err = PointCloud2::from_arrow_array_endian(header(), &table, false).unwrap_err();
    match err {
        CodecError::FixedListArityMismatch { name, expected, actual } => {
            assert_eq!(name.as_str(), "rgb");
            assert_eq!(expected, 3);
            assert_eq!(actual, 2);
        }
        other => panic!("expected an arity-mismatch error, got {:?}", other),
    }
}

/// An empty table encodes to an empty record set.
#[test]
fn encode_empty_table() {
    let table = ColumnarTable { columns: vec![] };
    let pcd = PointCloud2::from_arrow_array_endian(header(), &table, false).unwrap();
    assert_eq!(pcd.height, 0);
    assert_eq!(pcd.width, 1);
    assert_eq!(pcd.point_step, 0);
    assert!(pcd.data.is_empty());
    assert!(pcd.fields.is_empty());
}

/// The header handed to encode is carried through unchanged.
#[test]
fn encode_passes_header_through() {
    let h = Header { stamp: Time { sec: 12, nanosec: 34 }, frame_id: "base_link".to_owned() };
    let table = ColumnarTable {
        columns: vec![NamedColumn {
            name: "v".to_owned(),
            column: Column::Scalar { dtype: ArrowDataType::UInt8, values: vec![1] },
        }],
    };
    let pcd = PointCloud2::from_arrow_array_endian(h, &table, false).unwrap();
    assert_eq!(pcd.header.stamp, Time { sec: 12, nanosec: 34 });
    assert_eq!(pcd.header.frame_id.as_str(), "base_link");
    assert!(pcd.is_dense);
}

/// Encoding big-endian writes multi-byte scalars high byte first.
#[test]
fn encode_big_endian_bytes() {
    let table = ColumnarTable {
        columns: vec![NamedColumn {
            name: "v".to_owned(),
            column: Column::Scalar { dtype: ArrowDataType::UInt16, values: vec![0x1234] },
        }],
    };
    let be = PointCloud2::from_arrow_array_endian(header(), &table, true).unwrap();
    assert_eq!(be.data, vec![0x12u8, 0x34]);
    let le = PointCloud2::from_arrow_array_endian(header(), &table, false).unwrap();
    assert_eq!(le.data, vec![0x34u8, 0x12]);
}

/// The extension-trait entry points behave like the inherent ones.
#[test]
fn trait_entry_points() {
    let table = mixed_table();
    let pcd = <PointCloud2 as PointCloud2ArrowExt>::from_arrow_array(header(), &table).unwrap();
    let back = PointCloud2ArrowExt::to_arrow_array(&pcd).unwrap();
    assert_eq!(back.columns.len(), 4);
}
