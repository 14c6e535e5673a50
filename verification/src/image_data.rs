//! The pixel buffer: a row-major 8-bit RGBA store with its dimensions, and the
//! box-filter downsampling step that produces the next mip level.

use vstd::prelude::*;
use vstd::math::min;
use crate::mipmaping::half_dim;

verus! {

/// Bytes per pixel: 8-bit red, green, blue and alpha channels.
pub const CHANNELS: usize = 4;

/// A decoded raster image: `width * height` pixels, stored row-major, four
/// bytes per pixel.
pub struct ImageData {
    pub width: usize,
    pub height: usize,
    pub data: Vec<u8>,
}

/// Byte of channel `c` of the pixel at `(x, y)` in a `w`-wide row-major store.
pub open spec fn pixel_byte(data: Seq<u8>, w: int, x: int, y: int, c: int) -> u8 {
    data[(y * w + x) * 4 + c]
}

/// Byte of channel `c` of the pixel at `(x, y)`, with both coordinates
/// clamped to the image: reads past an edge repeat the edge pixel.
pub open spec fn clamped_byte(data: Seq<u8>, w: int, h: int, x: int, y: int, c: int) -> u8 {
    pixel_byte(data, w, min(x, w - 1), min(y, h - 1), c)
}

/// Byte `j` of the next mip level of a `w x h` image whose level is `ow`
/// pixels wide: the average of the corresponding 2x2 neighborhood, edge
/// pixels repeated where the neighborhood leaves the image.
pub open spec fn mip_byte(data: Seq<u8>, w: int, h: int, ow: int, j: int) -> u8 {
    let y = j / (ow * 4);
    let r = j % (ow * 4);
    let x = r / 4;
    let c = r % 4;
    let s00 = clamped_byte(data, w, h, 2 * x, 2 * y, c);
    let s10 = clamped_byte(data, w, h, 2 * x + 1, 2 * y, c);
    let s01 = clamped_byte(data, w, h, 2 * x, 2 * y + 1, c);
    let s11 = clamped_byte(data, w, h, 2 * x + 1, 2 * y + 1, c);
    (((s00 + s10 + s01 + s11) / 4) as u8)
}

/// The whole pixel store of the next mip level of a `w x h` image.
pub open spec fn mip_data(data: Seq<u8>, w: int, h: int) -> Seq<u8> {
    let ow = half_dim(w);
    let oh = half_dim(h);
    Seq::new((ow * oh * 4) as nat, |j: int| mip_byte(data, w, h, ow, j))
}

impl ImageData {
    /// A well-formed image: both dimensions at least one, and the store
    /// holding exactly one four-byte pixel per grid cell.
    pub open spec fn wf(&self) -> bool {
        &&& 1 <= self.width
        &&& 1 <= self.height
        &&& self.data@.len() == self.width * self.height * 4
    }

    /// The next mip level: a new image of the halved dimensions whose pixels
    /// average their 2x2 source neighborhood, or `None` once this image is
    /// already `1 x 1`.
    pub fn mipmap(&self) -> (r: Option<ImageData>)
        requires
            self.wf(),
        ensures
            r is None <==> (self.width == 1 && self.height == 1),
            r is Some ==> {
                let m = r->Some_0;
                &&& m.wf()
                &&& m.width == half_dim(self.width as int)
                &&& m.height == half_dim(self.height as int)
                &&& m.data@ == mip_data(self.data@, self.width as int, self.height as int)
            },
    {
        if self.width == 1 && self.height == 1 {
            return None;
        }
        let w = self.width;
        let h = self.height;
        let ow = if w / 2 < 1 { 1 } else { w / 2 };
        let oh = if h / 2 < 1 { 1 } else { h / 2 };
        let n = self.data.len();
        assert(ow * oh * 4 <= n && ow * 4 >= 4) by (nonlinear_arith)
            requires
                1 <= ow <= w,
                1 <= oh <= h,
                n == w * h * 4;
        let total = ow * oh * 4;
        let mut out: Vec<u8> = Vec::new();
        let mut j: usize = 0;
        while j < total
            invariant
                self.wf(),
                w == self.width,
                h == self.height,
                n == self.data@.len(),
                ow == half_dim(w as int),
                oh == half_dim(h as int),
                1 <= ow <= w,
                1 <= oh <= h,
                total == ow * oh * 4,
                total <= n,
                j <= total,
                out@.len() == j,
                forall|k: int| 0 <= k < j ==> out@[k] == mip_byte(
                    self.data@, w as int, h as int, ow as int, k,
                ),
            decreases total - j,
        {
            assert(ow * 4 <= total) by (nonlinear_arith)
                requires
                    1 <= oh,
                    total == ow * oh * 4,
                    1 <= ow;
            let row = ow * 4;
            let y = j / row;
            let rem = j % row;
            let x = rem / 4;
            let c = rem % 4;
            assert(y < oh && x < ow && c < 4) by (nonlinear_arith)
                requires
                    row == ow * 4,
                    1 <= ow,
                    1 <= oh,
                    j < ow * oh * 4,
                    y == j / row,
                    rem == j % row,
                    x == rem / 4,
                    c == rem % 4;
            let sx0 = 2 * x;
            let sx1 = if 2 * x + 1 < w { 2 * x + 1 } else { w - 1 };
            let sy0 = 2 * y;
            let sy1 = if 2 * y + 1 < h { 2 * y + 1 } else { h - 1 };
            assert(sx0 < w && sy0 < h) by (nonlinear_arith)
                requires
                    x < ow,
                    y < oh,
                    ow == half_dim(w as int),
                    oh == half_dim(h as int),
                    1 <= w,
                    1 <= h,
                    sx0 == 2 * x,
                    sy0 == 2 * y;
            assert((sy0 * w + sx0) * 4 + c < n && (sy0 * w + sx1) * 4 + c < n && (sy1 * w + sx0)
                * 4 + c < n && (sy1 * w + sx1) * 4 + c < n) by (nonlinear_arith)
                requires
                    n == w * h * 4,
                    sx0 < w,
                    sx1 < w,
                    sy0 < h,
                    sy1 < h,
                    c < 4;
            let s00 = self.data[(sy0 * w + sx0) * 4 + c];
            let s10 = self.data[(sy0 * w + sx1) * 4 + c];
            let s01 = self.data[(sy1 * w + sx0) * 4 + c];
            let s11 = self.data[(sy1 * w + sx1) * 4 + c];
            let avg = ((s00 as u32 + s10 as u32 + s01 as u32 + s11 as u32) / 4) as u8;
            out.push(avg);
            assert(out@[j as int] == mip_byte(self.data@, w as int, h as int, ow as int, j as int));
            j = j + 1;
        }
        assert(out@ =~= mip_data(self.data@, self.width as int, self.height as int));
        let m = ImageData { width: ow, height: oh, data: out };
        assert(m.wf()) by (nonlinear_arith)
            requires
                m.width == ow,
                m.height == oh,
                1 <= ow,
                1 <= oh,
                m.data@.len() == ow * oh * 4;
        Some(m)
    }
}

} // verus!
