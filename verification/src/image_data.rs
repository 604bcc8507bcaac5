//! Images as plain values.

use vstd::prelude::*;

verus! {

/// The red, green and blue channels of one pixel.
#[derive(Clone, Copy, Debug, PartialEq, Eq, Structural)]
pub struct Color {
    pub r: u8,
    pub g: u8,
    pub b: u8,
}

/// A rectangular grid of pixels, stored row by row, three bytes (red, green,
/// blue) per pixel.
#[derive(Clone, Debug)]
pub struct Image {
    pub width: u32,
    pub height: u32,
    pub data: Vec<u8>,
}

impl Image {
    /// A valid image has positive dimensions and exactly three bytes for
    /// each of its pixels.
    pub open spec fn wf(&self) -> bool {
        &&& self.width > 0
        &&& self.height > 0
        &&& self.data@.len() == 3 * (self.width * self.height)
    }

    /// The pixel in column `x` of row `y`.
    pub open spec fn pixel(&self, x: int, y: int) -> Color {
        pixel_of(self.data@, self.width as int, x, y)
    }

    /// Builds an image from its raw bytes, if there are exactly as many as
    /// the dimensions ask for and neither dimension is zero.
    pub fn from_raw(width: u32, height: u32, data: Vec<u8>) -> (img: Option<Image>)
        ensures
            img.is_some() <==> width > 0 && height > 0 && data@.len() == 3 * (width * height),
            img matches Some(i) ==> i.wf() && i.width == width && i.height == height && i.data@
                == data@,
    {
        assert(width * height <= 0xffff_ffff * 0xffff_ffff) by (nonlinear_arith)
            requires
                width <= 0xffff_ffff,
                height <= 0xffff_ffff,
        ;
        let wanted: u128 = 3 * ((width as u128) * (height as u128));
        if width > 0 && height > 0 && (data.len() as u128) == wanted {
            Some(Image { width, height, data })
        } else {
            None
        }
    }

    /// Reads the pixel in column `x` of row `y`.
    pub fn get_pixel(&self, x: u32, y: u32) -> (c: Color)
        requires
            self.wf(),
            x < self.width,
            y < self.height,
        ensures
            c == self.pixel(x as int, y as int),
    {
        let len: usize = self.data.len();
        proof {
            lemma_cell_in_grid(x as int, y as int, self.width as int, self.height as int);
            assert(3 * (y * self.width + x) + 2 < len);
        }
        let at: usize = 3 * ((y as usize) * (self.width as usize) + (x as usize));
        Color { r: self.data[at], g: self.data[at + 1], b: self.data[at + 2] }
    }
}

/// The pixel in column `x` of row `y` of a row-major RGB buffer whose rows
/// are `width` pixels long.
pub open spec fn pixel_of(data: Seq<u8>, width: int, x: int, y: int) -> Color {
    let at = 3 * (y * width + x);
    Color { r: data[at], g: data[at + 1], b: data[at + 2] }
}

/// A cell of a `width` by `height` grid has a row-major index inside it.
pub proof fn lemma_cell_in_grid(x: int, y: int, width: int, height: int)
    requires
        0 <= x < width,
        0 <= y < height,
    ensures
        0 <= y * width + x < width * height,
        0 <= y * width,
{
    assert(y * width + x < width * height && 0 <= y * width) by (nonlinear_arith)
        requires
            0 <= x < width,
            0 <= y < height,
    ;
}

} // verus!
