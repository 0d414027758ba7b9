//! A 24-bit uncompressed BMP image held in memory.

use vstd::prelude::*;
use crate::color::Rgb;

verus! {

/// The bytes of the two BMP headers together.
pub const HEADER_SIZE: u32 = 54;

/// The largest file this format can describe.
pub const MAX_FILE_SIZE: u32 = 0xFFFF_FFFF;

/// The bytes of one stored row: three per pixel, padded to a multiple of four.
pub open spec fn row_stride(width: int) -> int {
    width * 3 + width % 4
}

/// The bytes of the pixel data of a `width` by `height` image.
pub open spec fn image_size(width: int, height: int) -> int {
    height * row_stride(width)
}

/// Where the blue byte of pixel `(x, y)` is stored; rows go bottom-up.
pub open spec fn pixel_offset(width: int, height: int, x: int, y: int) -> int {
    (height - y - 1) * row_stride(width) + x * 3
}

/// `v` as four little-endian bytes.
pub open spec fn le32(v: int) -> Seq<u8> {
    seq![(v % 256) as u8, ((v / 256) % 256) as u8, ((v / 65536) % 256) as u8, ((v / 16777216) % 256) as u8]
}

/// The file header and the information header of a `width` by `height`,
/// 24-bit, uncompressed image.
pub open spec fn bmp_header(width: int, height: int) -> Seq<u8> {
    seq![66u8, 77u8] + le32(image_size(width, height) + HEADER_SIZE) + seq![0u8, 0u8, 0u8, 0u8] + le32(
        HEADER_SIZE as int,
    ) + le32(40) + le32(width) + le32(height) + seq![1u8, 0u8, 24u8, 0u8, 0u8, 0u8, 0u8, 0u8] + le32(
        image_size(width, height),
    ) + le32(72) + le32(72) + seq![0u8, 0u8, 0u8, 0u8, 0u8, 0u8, 0u8, 0u8]
}

/// Appends `v` as four little-endian bytes.
fn push_le32(out: &mut Vec<u8>, v: u32)
    ensures
        final(out)@ == old(out)@ + le32(v as int),
{
    out.push((v % 256) as u8);
    out.push((v / 256 % 256) as u8);
    out.push((v / 65536 % 256) as u8);
    out.push((v / 16777216 % 256) as u8);
    assert(final(out)@ =~= old(out)@ + le32(v as int));
}

/// Appends the bytes of `bytes`.
fn push_all(out: &mut Vec<u8>, bytes: &[u8])
    ensures
        final(out)@ == old(out)@ + bytes@,
{
    let mut i: usize = 0;
    while i < bytes.len()
        invariant
            i <= bytes@.len(),
            out@ == old(out)@ + bytes@.subrange(0, i as int),
        decreases bytes@.len() - i,
    {
        out.push(bytes[i]);
        i = i + 1;
        assert(out@ =~= old(out)@ + bytes@.subrange(0, i as int));
    }
    assert(bytes@.subrange(0, bytes@.len() as int) =~= bytes@);
}

/// The bytes of the pixel data, where the whole file stays within the format's limit.
fn image_bytes(width: usize, height: usize) -> (r: u32)
    requires
        width <= MAX_FILE_SIZE,
        height <= MAX_FILE_SIZE,
        image_size(width as int, height as int) + HEADER_SIZE <= MAX_FILE_SIZE,
    ensures
        r == image_size(width as int, height as int),
{
    let stride: u64 = (width as u64) * 3 + (width as u64) % 4;
    assert(stride == row_stride(width as int));
    ((height as u64) * stride) as u32
}

/// An image of `width` by `height` pixels, stored as BMP pixel data.
pub struct Bitmap {
    width: usize,
    height: usize,
    pixels: Vec<u8>,
}

impl Bitmap {
    /// The number of columns.
    pub closed spec fn spec_width(&self) -> int {
        self.width as int
    }

    /// The number of rows.
    pub closed spec fn spec_height(&self) -> int {
        self.height as int
    }

    /// The pixel data: rows bottom-up, each pixel as blue, green, red.
    pub closed spec fn pixels(&self) -> Seq<u8> {
        self.pixels@
    }

    /// The pixel data has the size its dimensions call for, and the whole file
    /// stays within the format's limit.
    pub open spec fn wf(&self) -> bool {
        &&& self.spec_width() <= MAX_FILE_SIZE
        &&& self.spec_height() <= MAX_FILE_SIZE
        &&& self.pixels().len() == image_size(self.spec_width(), self.spec_height())
        &&& image_size(self.spec_width(), self.spec_height()) + HEADER_SIZE <= MAX_FILE_SIZE
    }

    /// A black image of `width` by `height` pixels.
    pub fn new(width: usize, height: usize) -> (r: Bitmap)
        requires
            width <= MAX_FILE_SIZE,
            height <= MAX_FILE_SIZE,
            image_size(width as int, height as int) + HEADER_SIZE <= MAX_FILE_SIZE,
        ensures
            r.wf(),
            r.spec_width() == width,
            r.spec_height() == height,
            forall|i: int| 0 <= i < r.pixels().len() ==> #[trigger] r.pixels()[i] == 0,
    {
        let n: usize = image_bytes(width, height) as usize;
        let mut pixels: Vec<u8> = Vec::new();
        let mut i: usize = 0;
        while i < n
            invariant
                i <= n,
                pixels.len() == i,
                forall|j: int| 0 <= j < i ==> #[trigger] pixels@[j] == 0,
            decreases n - i,
        {
            pixels.push(0);
            i = i + 1;
        }
        Bitmap { width, height, pixels }
    }

    /// The number of columns.
    pub fn width(&self) -> (r: usize)
        ensures
            r == self.spec_width(),
    {
        self.width
    }

    /// The number of rows.
    pub fn height(&self) -> (r: usize)
        ensures
            r == self.spec_height(),
    {
        self.height
    }

    /// Sets pixel `(x, y)`, counted from the top-left corner, to `color`.
    pub fn set_pixel(&mut self, x: usize, y: usize, color: Rgb)
        requires
            old(self).wf(),
            x < old(self).spec_width(),
            y < old(self).spec_height(),
        ensures
            final(self).wf(),
            final(self).spec_width() == old(self).spec_width(),
            final(self).spec_height() == old(self).spec_height(),
            final(self).pixels() == old(self).pixels().update(
                pixel_offset(old(self).spec_width(), old(self).spec_height(), x as int, y as int),
                color.b,
            ).update(
                pixel_offset(old(self).spec_width(), old(self).spec_height(), x as int, y as int) + 1,
                color.g,
            ).update(
                pixel_offset(old(self).spec_width(), old(self).spec_height(), x as int, y as int) + 2,
                color.r,
            ),
    {
        let ghost w = self.width as int;
        let ghost h = self.height as int;
        assert(pixel_offset(w, h, x as int, y as int) + 3 <= image_size(w, h)) by (nonlinear_arith)
            requires
                0 <= x < w,
                0 <= y < h,
                pixel_offset(w, h, x as int, y as int) == (h - y - 1) * (w * 3 + w % 4) + x * 3,
                image_size(w, h) == h * (w * 3 + w % 4),
                w % 4 >= 0,
        ;
        assert(0 <= (h - y - 1) * (w * 3 + w % 4)) by (nonlinear_arith)
            requires
                0 <= y < h,
                w % 4 >= 0,
                w >= 0,
        ;
        let stride: u64 = (self.width as u64) * 3 + (self.width as u64) % 4;
        let i: usize = ((self.height - y - 1) as u64 * stride + (x as u64) * 3) as usize;
        self.pixels.set(i, color.b);
        self.pixels.set(i + 1, color.g);
        self.pixels.set(i + 2, color.r);
    }

    /// The whole BMP file: both headers, then the pixel data.
    pub fn file_bytes(&self) -> (r: Vec<u8>)
        requires
            self.wf(),
        ensures
            r@ == bmp_header(self.spec_width(), self.spec_height()) + self.pixels(),
    {
        let ghost w = self.width as int;
        let ghost h = self.height as int;
        let image: u32 = image_bytes(self.width, self.height);
        let mut out: Vec<u8> = Vec::new();
        out.push(66);
        out.push(77);
        push_le32(&mut out, image + HEADER_SIZE);
        push_le32(&mut out, 0);
        push_le32(&mut out, HEADER_SIZE);
        push_le32(&mut out, 40);
        push_le32(&mut out, self.width as u32);
        push_le32(&mut out, self.height as u32);
        out.push(1);
        out.push(0);
        out.push(24);
        out.push(0);
        push_le32(&mut out, 0);
        push_le32(&mut out, image);
        push_le32(&mut out, 72);
        push_le32(&mut out, 72);
        push_le32(&mut out, 0);
        push_le32(&mut out, 0);
        assert(out@ =~= bmp_header(w, h));
        push_all(&mut out, self.pixels.as_slice());
        out
    }
}

} // verus!
