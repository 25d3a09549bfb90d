use ros_msg_ext::image::{BgrMat, Image, ImageFormatError};
use ros_msg_ext::msg::{Header, PointCloud2, PointCloud2Ext, PointField, Time};
use ros_msg_ext::points::{pointcloud2_to_points, PointFormatError, PointXyz};

fn header() -> Header {
    Header { stamp: Time { sec: 0, nanosec: 0 }, frame_id: "cam".to_owned() }
}

fn xyz_fields() -> Vec<PointField> {
    vec![
        PointField { name: "x".to_owned(), offset: 0, datatype: 7, count: 1 },
        PointField { name: "y".to_owned(), offset: 4, datatype: 7, count: 1 },
        PointField { name: "z".to_owned(), offset: 8, datatype: 7, count: 1 },
    ]
}

fn xyz_cloud(fields: Vec<PointField>, point_step: u32, data: Vec<u8>) -> PointCloud2 {
    PointCloud2 {
        header: header(),
        height: 1,
        width: (data.len() as u32) / point_step.max(1),
        fields,
        is_bigendian: false,
        point_step,
        row_step: data.len() as u32,
        data,
        is_dense: true,
    }
}

#[test]
fn points_from_cloud() {
    let mut data: Vec<u8> = Vec::new();
    for v in [1.0f32, 2.0, 3.0, 4.0, 5.0, 6.0] {
        data.extend_from_slice(&v.to_le_bytes());
    }
    let pcd = xyz_cloud(xyz_fields(), 12, data);
    let points = pointcloud2_to_points(&pcd).unwrap();
    assert_eq!(points.len(), 2);
    assert_eq!(
        points[0],
        PointXyz {
            x_bits: 1.0f32.to_bits(),
            y_bits: 2.0f32.to_bits(),
            z_bits: 3.0f32.to_bits(),
        }
    );
    assert_eq!(f32::from_bits(points[1].x_bits), 4.0);
    assert_eq!(f32::from_bits(points[1].y_bits), 5.0);
    assert_eq!(f32::from_bits(points[1].z_bits), 6.0);
}

#[test]
fn points_reads_fixed_offsets_with_wide_stride() {
    // A 16-byte stride: the fourth word of each record is ignored.
    let mut data: Vec<u8> = Vec::new();
    for v in [1.0f32, 2.0, 3.0, 99.0] {
        data.extend_from_slice(&v.to_le_bytes());
    }
    let pcd = xyz_cloud(xyz_fields(), 16, data);
    let points = pointcloud2_to_points(&pcd).unwrap();
    assert_eq!(points.len(), 1);
    assert_eq!(f32::from_bits(points[0].z_bits), 3.0);
}

#[test]
fn points_too_few_fields() {
    let mut fields = xyz_fields();
    fields.pop();
    let pcd = xyz_cloud(fields, 12, vec![0u8; 12]);
    assert_eq!(pointcloud2_to_points(&pcd), Err(PointFormatError::TooFewFields));
}

#[test]
fn points_wrong_field_names() {
    let mut fields = xyz_fields();
    fields[1].name = "intensity".to_owned();
    let pcd = xyz_cloud(fields, 12, vec![0u8; 12]);
    assert_eq!(pointcloud2_to_points(&pcd), Err(PointFormatError::WrongFieldNames));
}

#[test]
fn points_wrong_field_type() {
    let mut fields = xyz_fields();
    fields[2].datatype = 8;
    let pcd = xyz_cloud(fields, 12, vec![0u8; 12]);
    assert_eq!(pointcloud2_to_points(&pcd), Err(PointFormatError::FieldNotSingleF32));
}

#[test]
fn points_point_step_too_small() {
    let pcd = xyz_cloud(xyz_fields(), 8, vec![0u8; 16]);
    assert_eq!(pointcloud2_to_points(&pcd), Err(PointFormatError::PointStepTooSmall));
}

fn image(encoding: &str, height: u32, width: u32, step: u32, data: Vec<u8>) -> Image {
    Image {
        header: header(),
        height,
        width,
        encoding: encoding.to_owned(),
        is_bigendian: 0,
        step,
        data,
    }
}

#[test]
fn image_bgr8_is_copied() {
    let img = image("BGR8", 1, 2, 6, vec![1, 2, 3, 4, 5, 6]);
    let mat: BgrMat = img.to_mat().unwrap();
    assert_eq!(mat.rows, 1);
    assert_eq!(mat.cols, 2);
    assert_eq!(mat.data, vec![1, 2, 3, 4, 5, 6]);
}

#[test]
fn image_rgb8_swaps_channels() {
    let img = image("RGB8", 1, 2, 6, vec![10, 20, 30, 40, 50, 60]);
    let mat = img.to_mat().unwrap();
    assert_eq!(mat.data, vec![30, 20, 10, 60, 50, 40]);
}

#[test]
fn image_uyvy_not_implemented() {
    let img = image("UYVY", 1, 2, 4, vec![0u8; 8]);
    assert_eq!(img.to_mat(), Err(ImageFormatError::UyvyNotImplemented));
}

#[test]
fn image_unknown_encoding() {
    let img = image("MONO8", 1, 2, 2, vec![0u8; 2]);
    assert_eq!(img.to_mat(), Err(ImageFormatError::UnsupportedEncoding));
}

#[test]
fn image_big_endian_rejected() {
    let mut img = image("BGR8", 1, 1, 3, vec![0u8; 3]);
    img.is_bigendian = 1;
    assert_eq!(img.to_mat(), Err(ImageFormatError::BigEndianUnsupported));
}

#[test]
fn image_step_mismatch() {
    let img = image("BGR8", 1, 2, 7, vec![0u8; 7]);
    assert_eq!(
        img.to_mat(),
        Err(ImageFormatError::StepMismatch { expected: 6, actual: 7 })
    );
}

#[test]
fn image_data_size_mismatch() {
    let img = image("RGB8", 2, 1, 3, vec![0u8; 5]);
    assert_eq!(
        img.to_mat(),
        Err(ImageFormatError::DataSizeMismatch { expected: 6, actual: 5 })
    );
}

#[test]
fn row_and_point_chunks() {
    let pcd = PointCloud2 {
        header: header(),
        height: 2,
        width: 2,
        fields: vec![],
        is_bigendian: false,
        point_step: 2,
        row_step: 5,
        data: vec![0, 1, 2, 3, 4, 5, 6, 7, 8, 9],
        is_dense: true,
    };
    let rows = pcd.row_bytes_iter();
    assert_eq!(rows, vec![vec![0, 1, 2, 3, 4], vec![5, 6, 7, 8, 9]]);
    let points = pcd.point_bytes_iter();
    assert_eq!(
        points,
        vec![
            vec![vec![0, 1], vec![2, 3], vec![4u8]],
            vec![vec![5, 6], vec![7, 8], vec![9]],
        ]
    );
}
