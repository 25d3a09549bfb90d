use ros_msg_ext::datatype::{ArrowDataType, RosDataType};

#[test]
fn tag_numbers_round_trip() {
    let tags = [
        RosDataType::I8,
        RosDataType::U8,
        RosDataType::I16,
        RosDataType::U16,
        RosDataType::I32,
        RosDataType::U32,
        RosDataType::F32,
        RosDataType::F64,
    ];
    for (i, t) in tags.iter().enumerate() {
        assert_eq!(t.to_u8(), (i + 1) as u8);
        assert_eq!(RosDataType::from_u8((i + 1) as u8), Some(*t));
    }
    assert_eq!(RosDataType::from_u8(0), None);
    assert_eq!(RosDataType::from_u8(9), None);
    assert_eq!(RosDataType::from_u8(255), None);
}

#[test]
fn tag_sizes() {
    assert_eq!(RosDataType::I8.size(), 1);
    assert_eq!(RosDataType::U8.size(), 1);
    assert_eq!(RosDataType::I16.size(), 2);
    assert_eq!(RosDataType::U16.size(), 2);
    assert_eq!(RosDataType::I32.size(), 4);
    assert_eq!(RosDataType::U32.size(), 4);
    assert_eq!(RosDataType::F32.size(), 4);
    assert_eq!(RosDataType::F64.size(), 8);
}

#[test]
fn columnar_kinds_round_trip() {
    let tags = [
        RosDataType::I8,
        RosDataType::U8,
        RosDataType::I16,
        RosDataType::U16,
        RosDataType::I32,
        RosDataType::U32,
        RosDataType::F32,
        RosDataType::F64,
    ];
    for t in tags.iter() {
        let kind = t.to_arrow_datatype();
        assert_eq!(RosDataType::from_arrow_datatype(&kind), Some(*t));
    }
    // Each tag has its own columnar kind; in particular the two 16-bit tags
    // stay distinct.
    assert_eq!(RosDataType::U16.to_arrow_datatype(), ArrowDataType::UInt16);
    assert_eq!(RosDataType::I16.to_arrow_datatype(), ArrowDataType::Int16);
}

#[test]
fn unsupported_columnar_kinds() {
    assert_eq!(RosDataType::from_arrow_datatype(&ArrowDataType::Int64), None);
    assert_eq!(RosDataType::from_arrow_datatype(&ArrowDataType::UInt64), None);
    assert_eq!(RosDataType::from_arrow_datatype(&ArrowDataType::Boolean), None);
    assert_eq!(RosDataType::from_arrow_datatype(&ArrowDataType::Utf8), None);
}
