//! Conversion of encoded image messages into a plain matrix of 3-byte BGR
//! pixels: `BGR8` data is copied as it stands, `RGB8` data has each pixel's
//! channels swapped, and the packed-YUV `UYVY` encoding is reported as
//! unavailable (its conversion needs a SIMD kernel that only a nightly
//! build carries).

use crate::msg::{Header, HeaderModel};
use vstd::prelude::*;

verus! {

/// An image message: `height` rows of `step` bytes each, holding `width`
/// pixels per row in the named encoding.
#[derive(Clone, Debug)]
pub struct Image {
    pub header: Header,
    pub height: u32,
    pub width: u32,
    pub encoding: String,
    pub is_bigendian: u8,
    pub step: u32,
    pub data: Vec<u8>,
}

/// Mathematical model of an `Image`.
#[verifier::ext_equal]
pub ghost struct ImageModel {
    pub header: HeaderModel,
    pub height: u32,
    pub width: u32,
    pub encoding: Seq<char>,
    pub is_bigendian: u8,
    pub step: u32,
    pub data: Seq<u8>,
}

impl View for Image {
    type V = ImageModel;

    open spec fn view(&self) -> ImageModel {
        ImageModel {
            header: self.header@,
            height: self.height,
            width: self.width,
            encoding: self.encoding@,
            is_bigendian: self.is_bigendian,
            step: self.step,
            data: self.data@,
        }
    }
}

/// A `rows` by `cols` matrix of 3-byte pixels in BGR channel order,
/// row-major with no padding between rows.
#[derive(Clone, Debug, PartialEq, Eq)]
pub struct BgrMat {
    pub rows: u32,
    pub cols: u32,
    pub data: Vec<u8>,
}

/// Why an image message cannot be converted to a BGR matrix.
#[derive(Clone, Copy, Debug, PartialEq, Eq, Structural)]
pub enum ImageFormatError {
    /// The encoding is none of `BGR8`, `RGB8`, `UYVY`.
    UnsupportedEncoding,
    /// `UYVY` conversion is not available in this build.
    UyvyNotImplemented,
    /// Big-endian image data is not supported.
    BigEndianUnsupported,
    /// The row stride does not equal three bytes per pixel.
    StepMismatch { expected: u64, actual: u32 },
    /// The buffer does not hold exactly the declared rows.
    DataSizeMismatch { expected: u64, actual: u64 },
}

/// The layout checks shared by the three-byte-per-pixel encodings, in the
/// order they are made: endianness, row stride, buffer length.
pub open spec fn spec_layout_error(img: ImageModel) -> Option<ImageFormatError> {
    if img.is_bigendian != 0 {
        Some(ImageFormatError::BigEndianUnsupported)
    } else if img.step != img.width * 3 {
        Some(
            ImageFormatError::StepMismatch {
                expected: (img.width * 3) as u64,
                actual: img.step,
            },
        )
    } else if img.data.len() != img.step * img.height {
        Some(
            ImageFormatError::DataSizeMismatch {
                expected: (img.step * img.height) as u64,
                actual: img.data.len() as u64,
            },
        )
    } else {
        None
    }
}

/// The error image conversion reports, if any: encodings are dispatched
/// first, then the layout of the supported ones is checked.
pub open spec fn spec_image_error(img: ImageModel) -> Option<ImageFormatError> {
    if img.encoding == "BGR8"@ || img.encoding == "RGB8"@ {
        spec_layout_error(img)
    } else if img.encoding == "UYVY"@ {
        Some(ImageFormatError::UyvyNotImplemented)
    } else {
        Some(ImageFormatError::UnsupportedEncoding)
    }
}

/// Pixel `p` of `dst` is pixel `p` of `src` with its first and third
/// channels exchanged.
pub open spec fn spec_swapped_pixel(src: Seq<u8>, dst: Seq<u8>, p: int) -> bool {
    &&& dst[3 * p] == src[3 * p + 2]
    &&& dst[3 * p + 1] == src[3 * p + 1]
    &&& dst[3 * p + 2] == src[3 * p]
}

/// Converts a `BGR8` image: the pixel bytes are already in matrix order, so
/// the buffer is copied unchanged.
#[verifier::loop_isolation(false)]
pub fn bgr8_to_mat(image: &Image) -> (r: Result<BgrMat, ImageFormatError>)
    ensures
        match r {
            Ok(m) => spec_layout_error(image@) is None && m.rows == image@.height && m.cols
                == image@.width && m.data@ == image@.data,
            Err(e) => spec_layout_error(image@) == Some(e),
        },
{
    if let Some(e) = check_layout(image) {
        return Err(e);
    }
    let len: usize = image.data.len();
    let mut out: Vec<u8> = Vec::new();
    for i in 0..len
        invariant
            out@ == image@.data.take(i as int),
    {
        proof {
            assert(image@.data.take(i as int).push(image@.data[i as int]) =~= image@.data.take(
                i + 1,
            ));
        }
        out.push(image.data[i]);
    }
    proof {
        assert(image@.data.take(len as int) =~= image@.data);
    }
    Ok(BgrMat { rows: image.height, cols: image.width, data: out })
}

/// Converts an `RGB8` image by exchanging each pixel's first and third
/// channels, so the matrix ends up in BGR order.
#[verifier::loop_isolation(false)]
pub fn rgb8_to_mat(image: &Image) -> (r: Result<BgrMat, ImageFormatError>)
    ensures
        match r {
            Ok(m) => spec_layout_error(image@) is None && m.rows == image@.height && m.cols
                == image@.width && m.data@.len() == image@.data.len() && forall|p: int|
                0 <= 3 * p + 2 < image@.data.len() ==> spec_swapped_pixel(
                    image@.data,
                    m.data@,
                    p,
                ),
            Err(e) => spec_layout_error(image@) == Some(e),
        },
{
    if let Some(e) = check_layout(image) {
        return Err(e);
    }
    let len: usize = image.data.len();
    proof {
        assert(len == (image@.width * 3) * image@.height);
        assert((image@.width * 3) * (image@.height as int) == 3 * (image@.width
            * image@.height)) by (nonlinear_arith);
        vstd::arithmetic::div_mod::lemma_fundamental_div_mod_converse(
            len as int,
            3,
            image@.width * image@.height,
            0,
        );
    }
    let total: usize = len / 3;
    proof {
        assert(3 * total == len);
    }
    let mut out: Vec<u8> = Vec::new();
    let mut p: usize = 0;
    while p < total
        invariant
            p <= total,
            out@.len() == 3 * p,
            forall|pp: int| 0 <= pp < p ==> spec_swapped_pixel(image@.data, out@, pp),
        decreases total - p,
    {
        proof {
            assert(3 * p + 3 <= 3 * total) by (nonlinear_arith)
                requires p < total;
        }
        let i: usize = 3 * p;
        let ghost out0 = out@;
        out.push(image.data[i + 2]);
        out.push(image.data[i + 1]);
        out.push(image.data[i]);
        proof {
            assert(out@.len() == 3 * p + 3);
            assert forall|pp: int| 0 <= pp < p + 1 implies spec_swapped_pixel(
                image@.data,
                out@,
                pp,
            ) by {
                if pp < p {
                    assert(3 * pp + 2 < 3 * p) by (nonlinear_arith)
                        requires 0 <= pp < p;
                    assert(out@[3 * pp] == out0[3 * pp]);
                    assert(out@[3 * pp + 1] == out0[3 * pp + 1]);
                    assert(out@[3 * pp + 2] == out0[3 * pp + 2]);
                    assert(spec_swapped_pixel(image@.data, out0, pp));
                } else {
                    assert(out@[3 * pp] == image@.data[i + 2]);
                    assert(out@[3 * pp + 1] == image@.data[i + 1]);
                    assert(out@[3 * pp + 2] == image@.data[i as int]);
                }
            }
        }
        p = p + 1;
    }
    proof {
        assert forall|q: int| 0 <= 3 * q + 2 < image@.data.len() implies spec_swapped_pixel(
            image@.data,
            out@,
            q,
        ) by {
            assert(0 <= q < total) by (nonlinear_arith)
                requires 0 <= 3 * q + 2 < 3 * total;
        }
    }
    Ok(BgrMat { rows: image.height, cols: image.width, data: out })
}

/// `UYVY` conversion is unavailable in this build and is always reported as
/// such.
pub fn uyvy_to_mat(_image: &Image) -> (r: Result<BgrMat, ImageFormatError>)
    ensures
        r == Err::<BgrMat, ImageFormatError>(ImageFormatError::UyvyNotImplemented),
{
    Err(ImageFormatError::UyvyNotImplemented)
}

/// Converts an image message to a BGR pixel matrix, dispatching on its
/// encoding, or reports the first format error.
pub fn image_to_mat(image: &Image) -> (r: Result<BgrMat, ImageFormatError>)
    ensures
        match r {
            Ok(m) => spec_image_error(image@) is None && m.rows == image@.height && m.cols
                == image@.width && m.data@.len() == image@.data.len() && (image@.encoding
                == "BGR8"@ ==> m.data@ == image@.data) && (image@.encoding == "RGB8"@
                ==> forall|p: int|
                    0 <= 3 * p + 2 < image@.data.len() ==> spec_swapped_pixel(
                        image@.data,
                        m.data@,
                        p,
                    )),
            Err(e) => spec_image_error(image@) == Some(e),
        },
{
    proof {
        reveal_strlit("BGR8");
        reveal_strlit("RGB8");
        assert("BGR8"@[0] != "RGB8"@[0]);
    }
    let bgr: String = "BGR8".to_owned();
    let rgb: String = "RGB8".to_owned();
    let uyvy: String = "UYVY".to_owned();
    if image.encoding == bgr {
        bgr8_to_mat(image)
    } else if image.encoding == rgb {
        rgb8_to_mat(image)
    } else if image.encoding == uyvy {
        uyvy_to_mat(image)
    } else {
        Err(ImageFormatError::UnsupportedEncoding)
    }
}

impl Image {
    /// Converts the image to a BGR pixel matrix; see `image_to_mat`.
    pub fn to_mat(&self) -> (r: Result<BgrMat, ImageFormatError>)
        ensures
            match r {
                Ok(m) => spec_image_error(self@) is None && m.rows == self@.height && m.cols
                    == self@.width && m.data@.len() == self@.data.len() && (self@.encoding
                    == "BGR8"@ ==> m.data@ == self@.data) && (self@.encoding == "RGB8"@
                    ==> forall|p: int|
                        0 <= 3 * p + 2 < self@.data.len() ==> spec_swapped_pixel(
                            self@.data,
                            m.data@,
                            p,
                        )),
                Err(e) => spec_image_error(self@) == Some(e),
            },
    {
        image_to_mat(self)
    }
}

/// Runs the shared layout checks of the three-byte-per-pixel encodings.
fn check_layout(image: &Image) -> (r: Option<ImageFormatError>)
    ensures
        r == spec_layout_error(image@),
{
    if image.is_bigendian != 0 {
        return Some(ImageFormatError::BigEndianUnsupported);
    }
    proof {
        assert((image.width as int) * 3 < 0x1_0000_0000_0000_0000) by (nonlinear_arith)
            requires image.width < 0x1_0000_0000;
        assert((image.step as int) * (image.height as int) < 0x1_0000_0000_0000_0000)
            by (nonlinear_arith)
            requires image.step < 0x1_0000_0000, image.height < 0x1_0000_0000;
    }
    let expected_step: u64 = (image.width as u64) * 3;
    if (image.step as u64) != expected_step {
        return Some(
            ImageFormatError::StepMismatch { expected: expected_step, actual: image.step },
        );
    }
    let expected_len: u64 = (image.step as u64) * (image.height as u64);
    if (image.data.len() as u64) != expected_len {
        return Some(
            ImageFormatError::DataSizeMismatch {
                expected: expected_len,
                actual: image.data.len() as u64,
            },
        );
    }
    None
}

} // verus!
