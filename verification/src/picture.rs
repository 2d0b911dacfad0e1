//! Pictures of 8-bit RGBA pixels.

use vstd::prelude::*;

verus! {

/// One pixel: red, green, blue and alpha, each from 0 to 255.
#[derive(Clone, Copy, Debug, PartialEq, Eq, Structural)]
pub struct Pixel {
    pub red: u8,
    pub green: u8,
    pub blue: u8,
    pub alpha: u8,
}

/// The pixel that the four bytes from `4 * i` on hold.
pub open spec fn pixel_at(bytes: Seq<u8>, i: int) -> Pixel {
    Pixel {
        red: bytes[4 * i],
        green: bytes[4 * i + 1],
        blue: bytes[4 * i + 2],
        alpha: bytes[4 * i + 3],
    }
}

/// A rectangle of pixels, row by row from the top left.
#[verifier::ext_equal]
pub struct Picture {
    pub width: nat,
    pub height: nat,
    pub pixels: Seq<Pixel>,
}

impl Picture {
    /// There is one pixel to each place.
    pub open spec fn wf(self) -> bool {
        self.pixels.len() == self.width * self.height
    }

    /// The pixel in column `x` of row `y`.
    pub open spec fn pixel(self, x: int, y: int) -> Pixel {
        self.pixels[y * self.width + x]
    }

    /// The picture with another pixel in column `x` of row `y`.
    pub open spec fn with_pixel(self, x: int, y: int, pixel: Pixel) -> Picture {
        Picture { pixels: self.pixels.update(y * self.width + x, pixel), ..self }
    }
}

/// The picture of `width` by `height` pixels that these bytes hold, four to the pixel.
pub open spec fn picture_of(width: u32, height: u32, bytes: Seq<u8>) -> Picture {
    Picture {
        width: width as nat,
        height: height as nat,
        pixels: Seq::new((width * height) as nat, |i: int| pixel_at(bytes, i)),
    }
}

/// A picture in memory. Bytes beyond the last pixel are allowed and never looked at.
#[derive(Debug)]
pub struct Image {
    pub width: u32,
    pub height: u32,
    pub data: Vec<u8>,
}

impl View for Image {
    type V = Picture;

    open spec fn view(&self) -> Picture {
        picture_of(self.width, self.height, self.data@)
    }
}

impl Image {
    /// The bytes are enough for every pixel.
    pub open spec fn wf(self) -> bool {
        4 * (self.width * self.height) <= self.data@.len()
    }

    /// A picture of `width` by `height` pixels over `data`, if there are bytes enough for it.
    pub fn from_raw(width: u32, height: u32, data: Vec<u8>) -> (image: Option<Image>)
        ensures
            image is Some <==> 4 * (width * height) <= data@.len(),
            image matches Some(img) ==> img.wf() && img.width == width && img.height == height
                && img.data == data,
    {
        assert(0 <= width * height <= 0xffff_ffff * 0xffff_ffff) by (nonlinear_arith)
            requires
                width <= 0xffff_ffff,
                height <= 0xffff_ffff,
        ;
        let needed: u128 = 4 * (width as u128 * height as u128);
        if needed <= data.len() as u128 {
            Some(Image { width, height, data })
        } else {
            None
        }
    }

    /// Reads one pixel.
    pub fn get_pixel(&self, x: u32, y: u32) -> (pixel: Pixel)
        requires
            self.wf(),
            x < self.width,
            y < self.height,
        ensures
            pixel == self@.pixel(x as int, y as int),
    {
        proof {
            lemma_cell_in_grid(x as int, y as int, self.width as int, self.height as int);
            assert(self.data.len() == self.data@.len());
        }
        let i: usize = 4 * (y as usize * self.width as usize + x as usize);
        Pixel {
            red: self.data[i],
            green: self.data[i + 1],
            blue: self.data[i + 2],
            alpha: self.data[i + 3],
        }
    }

    /// Replaces one pixel.
    pub fn put_pixel(&mut self, x: u32, y: u32, pixel: Pixel)
        requires
            old(self).wf(),
            x < old(self).width,
            y < old(self).height,
        ensures
            final(self).wf(),
            final(self).data@.len() == old(self).data@.len(),
            final(self).width == old(self).width,
            final(self).height == old(self).height,
            final(self)@ == old(self)@.with_pixel(x as int, y as int, pixel),
    {
        proof {
            lemma_cell_in_grid(x as int, y as int, self.width as int, self.height as int);
            assert(self.data.len() == self.data@.len());
        }
        let i: usize = 4 * (y as usize * self.width as usize + x as usize);
        self.data[i] = pixel.red;
        self.data[i + 1] = pixel.green;
        self.data[i + 2] = pixel.blue;
        self.data[i + 3] = pixel.alpha;
    }
}

/// A cell of a grid has its place below the number of cells.
pub proof fn lemma_cell_in_grid(x: int, y: int, width: int, height: int)
    requires
        0 <= x < width,
        0 <= y < height,
    ensures
        0 <= y * width <= y * width + x < width * height,
{
    assert(0 <= y * width && (y + 1) * width <= height * width && (y + 1) * width == y * width
        + width && height * width == width * height) by (nonlinear_arith)
        requires
            0 <= y < height,
            0 < width,
    ;
}

/// Every place below the number of cells is that of one cell.
pub proof fn lemma_place_in_grid(i: int, width: int, height: int)
    requires
        0 <= i < width * height,
        0 <= width,
        0 <= height,
    ensures
        0 <= i % width < width,
        0 <= i / width < height,
        (i / width) * width + i % width == i,
{
    assert(width > 0) by (nonlinear_arith)
        requires
            0 <= i < width * height,
            0 <= width,
    ;
    vstd::arithmetic::div_mod::lemma_fundamental_div_mod(i, width);
    assert(width * (i / width) == (i / width) * width) by (nonlinear_arith);
    assert(0 <= i / width < height) by (nonlinear_arith)
        requires
            width > 0,
            i == (i / width) * width + i % width,
            0 <= i % width < width,
            0 <= i < width * height,
    ;
}

/// A cell is found again from its place.
pub proof fn lemma_cell_of_place(x: int, y: int, width: int)
    requires
        0 <= x < width,
        0 <= y,
    ensures
        (y * width + x) % width == x,
        (y * width + x) / width == y,
{
    vstd::arithmetic::div_mod::lemma_fundamental_div_mod_converse(y * width + x, width, y, x);
}

/// Where the bytes of a pixel are: rows follow each other from the top, pixels in a row from the
/// left, and the four bytes of a pixel are its red, green, blue and alpha.
pub proof fn lemma_where_the_bytes_are(width: u32, height: u32, bytes: Seq<u8>, x: int, y: int)
    requires
        0 <= x < width,
        0 <= y < height,
    ensures
        ({
            let pic = picture_of(width, height, bytes);
            let first = 4 * (y * width + x);
            &&& pic.wf() && pic.width == width && pic.height == height
            &&& pic.pixels.len() == width * height
            &&& pic.pixel(x, y) == pic.pixels[y * width + x]
            &&& pic.pixel(x, y).red == bytes[first]
            &&& pic.pixel(x, y).green == bytes[first + 1]
            &&& pic.pixel(x, y).blue == bytes[first + 2]
            &&& pic.pixel(x, y).alpha == bytes[first + 3]
        }),
{
    lemma_cell_in_grid(x, y, width as int, height as int);
}

/// What is written is read back, and every other pixel stays as it was.
pub proof fn lemma_written_is_read(pic: Picture, x: int, y: int, pixel: Pixel, u: int, v: int)
    requires
        pic.wf(),
        0 <= x < pic.width,
        0 <= y < pic.height,
        0 <= u < pic.width,
        0 <= v < pic.height,
    ensures
        pic.with_pixel(x, y, pixel).wf(),
        pic.with_pixel(x, y, pixel).width == pic.width,
        pic.with_pixel(x, y, pixel).height == pic.height,
        pic.with_pixel(x, y, pixel).pixel(u, v) == (if u == x && v == y {
            pixel
        } else {
            pic.pixel(u, v)
        }),
{
    lemma_cell_in_grid(x, y, pic.width as int, pic.height as int);
    lemma_cell_in_grid(u, v, pic.width as int, pic.height as int);
    lemma_cell_of_place(x, y, pic.width as int);
    lemma_cell_of_place(u, v, pic.width as int);
}

/// A picture in memory is the one that its bytes hold at its size.
pub proof fn lemma_image_is_its_bytes(image: Image)
    ensures
        image@ == picture_of(image.width, image.height, image.data@),
{
}

} // verus!
