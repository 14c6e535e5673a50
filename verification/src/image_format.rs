//! The pixel-format codec: a closed set of encoders sharing one contract. A
//! codec reports a stable numeric identifier for the container header and
//! turns one mip level into its on-disk payload.

use vstd::prelude::*;
use crate::image_data::ImageData;
use crate::bc1;
use crate::bc5;

verus! {

/// The pixel formats a level can be encoded under.
#[derive(Clone, Copy, PartialEq, Eq, Structural, Debug)]
pub enum ImageFormat {
    /// The raw pixel store, byte for byte.
    Rgba8,
    /// 4x4 color blocks, 8 bytes each.
    Bc1,
    /// 4x4 two-channel blocks, 16 bytes each.
    Bc5,
}

/// Why an encode was refused. A codec fails only on a structurally invalid
/// buffer; quality and size are never failure conditions.
#[derive(Clone, Copy, PartialEq, Eq, Structural, Debug)]
pub enum EncodeError {
    /// A dimension is zero: there is no pixel to encode.
    EmptyImage,
    /// The store does not hold exactly four bytes per grid cell.
    LayoutMismatch,
}

impl ImageFormat {
    /// The identifier written into the container header. Fixed per variant:
    /// readers key off it, so it must never change for a shipped variant.
    pub open spec fn spec_id(self) -> u32 {
        match self {
            ImageFormat::Rgba8 => 1u32,
            ImageFormat::Bc1 => 2u32,
            ImageFormat::Bc5 => 3u32,
        }
    }

    /// Payload length, in bytes, of a `w x h` level under this format.
    pub open spec fn payload_len(self, w: int, h: int) -> int {
        match self {
            ImageFormat::Rgba8 => w * h * 4,
            ImageFormat::Bc1 => bc1::blocks(w) * bc1::blocks(h) * 8,
            ImageFormat::Bc5 => bc1::blocks(w) * bc1::blocks(h) * 16,
        }
    }

    /// The payload of a well-formed `w x h` level under this format: every
    /// byte is a function of the pixel store, the dimensions and the format
    /// alone, so encoding is deterministic.
    pub open spec fn spec_encode(self, data: Seq<u8>, w: int, h: int) -> Seq<u8> {
        match self {
            ImageFormat::Rgba8 => data,
            ImageFormat::Bc1 => bc1::payload(data, w, h),
            ImageFormat::Bc5 => bc5::payload(data, w, h),
        }
    }

    /// The stable numeric tag of this format.
    pub fn id(&self) -> (r: u32)
        ensures
            r == self.spec_id(),
    {
        match self {
            ImageFormat::Rgba8 => 1,
            ImageFormat::Bc1 => 2,
            ImageFormat::Bc5 => 3,
        }
    }

    /// Encode one mip level into its on-disk payload. Succeeds exactly on
    /// well-formed buffers; the result is pinned to `spec_encode`, so it does
    /// not depend on `quality` (a hint, accepted over its whole range) nor on
    /// anything outside the buffer.
    pub fn encode(&self, image: &ImageData, quality: u8) -> (r: Result<Vec<u8>, EncodeError>)
        requires
            16 * (image.width as int) * (image.height as int) <= usize::MAX,
        ensures
            r is Ok <==> image.wf(),
            image.wf() ==> {
                let p = r->Ok_0;
                &&& p@ == self.spec_encode(
                    image.data@, image.width as int, image.height as int,
                )
                &&& p@.len() == self.payload_len(image.width as int, image.height as int)
            },
            image.width == 0 || image.height == 0 ==> r == Result::<
                Vec<u8>, EncodeError,
            >::Err(EncodeError::EmptyImage),
            image.width >= 1 && image.height >= 1 && !image.wf() ==> r == Result::<
                Vec<u8>, EncodeError,
            >::Err(EncodeError::LayoutMismatch),
    {
        if image.width == 0 || image.height == 0 {
            return Err(EncodeError::EmptyImage);
        }
        let expected = {
            let w = image.width;
            let h = image.height;
            assert(w * h <= w * h * 4 && w * h * 4 <= 16 * w * h) by (nonlinear_arith)
                requires
                    1 <= w,
                    1 <= h;
            w * h * 4
        };
        if image.data.len() != expected {
            return Err(EncodeError::LayoutMismatch);
        }
        let w = image.width;
        let h = image.height;
        match self {
            ImageFormat::Rgba8 => {
                let mut out: Vec<u8> = Vec::new();
                out.extend_from_slice(image.data.as_slice());
                assert(out@ =~= image.data@);
                Ok(out)
            },
            ImageFormat::Bc1 => {
                assert(8 * (w as int) * (h as int) <= 16 * (w as int) * (h as int))
                    by (nonlinear_arith)
                    requires
                        1 <= w,
                        1 <= h;
                Ok(bc1::encode(&image.data, w, h))
            },
            ImageFormat::Bc5 => Ok(bc5::encode(&image.data, w, h)),
        }
    }
}

/// Encoding is deterministic: two payloads of the same pixel store, under
/// the same format, are byte-identical — whatever quality hint either run
/// used. (The identifier is likewise fixed per variant: see `id`.)
pub proof fn lemma_encode_deterministic(
    f: ImageFormat,
    data: Seq<u8>,
    w: int,
    h: int,
    r1: Seq<u8>,
    r2: Seq<u8>,
)
    requires
        r1 == f.spec_encode(data, w, h),
        r2 == f.spec_encode(data, w, h),
    ensures
        r1 == r2,
{
}

} // verus!
