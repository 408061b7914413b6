use vstd::prelude::*;

use crate::types::Rect;

verus! {

/// An image held in memory as rows of premultiplied RGBA pixels.
pub struct CpuTexture {
    image: Vec<u8>,
    width: usize,
    height: usize,
    depth: usize,
}

impl CpuTexture {
    /// The pixel bytes, row after row.
    pub closed spec fn bytes(&self) -> Seq<u8> {
        self.image@
    }

    pub closed spec fn width(&self) -> nat {
        self.width as nat
    }

    pub closed spec fn height(&self) -> nat {
        self.height as nat
    }

    /// Bytes per pixel.
    pub closed spec fn bytes_per_pixel(&self) -> nat {
        self.depth as nat
    }

    /// The buffer holds exactly `width * height` pixels, and both extents are
    /// world coordinates.
    pub open spec fn wf(&self) -> bool {
        &&& self.bytes().len() == self.width() * self.height() * self.bytes_per_pixel()
        &&& self.width() <= i32::MAX
        &&& self.height() <= i32::MAX
        &&& self.bytes_per_pixel() == 4
        &&& self.width() * 4 <= usize::MAX
    }

    /// Takes an RGBA buffer whose colour channels are already multiplied by
    /// their alpha.
    pub fn from_premultiplied(image: Vec<u8>, width: usize, height: usize) -> (t: Self)
        requires
            image@.len() == width * height * 4,
            width * 4 <= usize::MAX,
            width <= i32::MAX,
            height <= i32::MAX,
        ensures
            t.wf(),
            t.bytes() == image@,
            t.width() == width,
            t.height() == height,
    {
        Self { image, width, height, depth: 4 }
    }

    pub fn depth(&self) -> (d: usize)
        ensures
            d == self.bytes_per_pixel(),
    {
        self.depth
    }

    pub fn size(&self) -> (s: (usize, usize))
        ensures
            s.0 == self.width(),
            s.1 == self.height(),
    {
        (self.width, self.height)
    }

    /// Bytes per row.
    pub fn pitch(&self) -> (p: usize)
        requires
            self.wf(),
        ensures
            p == self.width() * self.bytes_per_pixel(),
    {
        self.width * self.depth
    }

    pub fn buffer(&self) -> (b: &[u8])
        ensures
            b@ == self.bytes(),
    {
        self.image.as_slice()
    }

    /// Whether `frame` lies wholly inside the image.
    pub fn valid_frame(&self, frame: Rect) -> (r: bool)
        requires
            self.wf(),
        ensures
            r == (0 <= frame.x && frame.x + frame.w <= self.width() && 0 <= frame.y && frame.y
                + frame.h <= self.height()),
    {
        0 <= frame.x && (frame.x as i64 + frame.w as i64) <= (self.width as i64) && 0 <= frame.y
            && (frame.y as i64 + frame.h as i64) <= (self.height as i64)
    }
}

} // verus!
