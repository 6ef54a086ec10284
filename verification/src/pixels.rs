//! Repair of fully transparent white pixels: each takes the colour of an opaque neighbour, so
//! that scaling an image does not bleed white into its edges.

use vstd::prelude::*;
use vstd::arithmetic::div_mod::lemma_fundamental_div_mod;
use vstd::arithmetic::div_mod::lemma_mod_bound;

verus! {

/// A colour with an alpha channel.
#[derive(Clone, Copy, Debug, PartialEq, Eq, Structural)]
pub struct Pixel {
    pub red: u8,
    pub green: u8,
    pub blue: u8,
    pub alpha: u8,
}

/// What an image is: its extent and its pixels in row-major order.
pub struct ImageView {
    pub width: int,
    pub height: int,
    pub pixels: Seq<Pixel>,
}

/// White with no opacity: the pixels that are repaired.
pub open spec fn blank() -> Pixel {
    Pixel { red: 255, green: 255, blue: 255, alpha: 0 }
}

impl ImageView {
    /// There is one pixel per coordinate.
    pub open spec fn valid(self) -> bool {
        &&& 0 <= self.width
        &&& 0 <= self.height
        &&& self.pixels.len() == self.width * self.height
    }

    /// Whether `(x, y)` lies on the image.
    pub open spec fn holds(self, x: int, y: int) -> bool {
        0 <= x < self.width && 0 <= y < self.height
    }

    /// The pixel at `(x, y)`.
    pub open spec fn at(self, x: int, y: int) -> Pixel {
        self.pixels[y * self.width + x]
    }

    /// The pixel among the nine around and including `(x, y)`, taken row by row from the one
    /// above left and counted from number `from`, that is the first to lie on the image and
    /// not to be fully transparent.
    pub open spec fn nearest_opaque(self, x: int, y: int, from: int) -> Option<Pixel>
        decreases 9 - from,
    {
        if from < 0 || from >= 9 {
            None
        } else {
            let nx = x + from % 3 - 1;
            let ny = y + from / 3 - 1;
            if self.holds(nx, ny) && self.at(nx, ny).alpha != 0 {
                Some(self.at(nx, ny))
            } else {
                self.nearest_opaque(x, y, from + 1)
            }
        }
    }

    /// The pixel that takes the place of the one at `(x, y)`: a blank pixel becomes the colour
    /// of its nearest opaque neighbour, still fully transparent, or black where it has none;
    /// any other pixel stays.
    pub open spec fn repaired(self, x: int, y: int) -> Pixel {
        if self.at(x, y) == blank() {
            match self.nearest_opaque(x, y, 0) {
                Some(pixel) => Pixel { red: pixel.red, green: pixel.green, blue: pixel.blue, alpha: 0 },
                None => Pixel { red: 0, green: 0, blue: 0, alpha: 0 },
            }
        } else {
            self.at(x, y)
        }
    }

    /// The pixels of the repaired image.
    pub open spec fn repaired_pixels(self) -> Seq<Pixel> {
        Seq::new(self.pixels.len(), |i: int| self.repaired(i % self.width, i / self.width))
    }

    /// Whether the image holds a blank pixel.
    pub open spec fn has_blank(self) -> bool {
        exists|i: int| 0 <= i < self.pixels.len() && #[trigger] self.pixels[i] == blank()
    }
}

/// An image held as a row-major vector of pixels.
#[derive(Clone, Debug)]
pub struct Image {
    width: u32,
    height: u32,
    pixels: Vec<Pixel>,
}

impl View for Image {
    type V = ImageView;

    closed spec fn view(&self) -> ImageView {
        ImageView { width: self.width as int, height: self.height as int, pixels: self.pixels@ }
    }
}

/// The position of `(x, y)` in a row-major vector of rows `width` wide.
proof fn lemma_position(width: int, height: int, x: int, y: int)
    requires
        0 <= x < width,
        0 <= y < height,
    ensures
        0 <= y * width + x < width * height,
        (y * width + x) % width == x,
        (y * width + x) / width == y,
{
    assert(0 <= y * width) by (nonlinear_arith)
        requires
            0 <= y,
            0 <= width,
    ;
    assert(y * width + width <= height * width) by (nonlinear_arith)
        requires
            y + 1 <= height,
            0 <= width,
    ;
    assert(height * width == width * height) by (nonlinear_arith);
    vstd::arithmetic::div_mod::lemma_fundamental_div_mod_converse(y * width + x, width, y, x);
}

impl Image {
    /// The image is consistent.
    pub open spec fn well_formed(&self) -> bool {
        self@.valid()
    }

    /// An image of the given extent over `pixels`; `None` where their number is not
    /// `width * height`.
    pub fn new(width: u32, height: u32, pixels: Vec<Pixel>) -> (r: Option<Image>)
        ensures
            r is Some <==> pixels@.len() == width * height,
            r matches Some(image) ==> image.well_formed() && image@ == (ImageView {
                width: width as int,
                height: height as int,
                pixels: pixels@,
            }),
    {
        assert(width * height <= 0xffff_ffff * 0xffff_ffff) by (nonlinear_arith)
            requires
                0 <= width <= 0xffff_ffff,
                0 <= height <= 0xffff_ffff,
        ;
        let count: u64 = (width as u64) * (height as u64);
        if pixels.len() as u64 == count {
            Some(Image { width, height, pixels })
        } else {
            None
        }
    }

    /// The width.
    pub fn width(&self) -> (r: u32)
        ensures
            r == self@.width,
    {
        self.width
    }

    /// The height.
    pub fn height(&self) -> (r: u32)
        ensures
            r == self@.height,
    {
        self.height
    }

    /// The pixels in row-major order.
    pub fn pixels(&self) -> (r: &Vec<Pixel>)
        ensures
            r@ == self@.pixels,
    {
        &self.pixels
    }

    /// The pixel at `(x, y)`, where that lies on the image.
    pub fn get_pixel(&self, x: u32, y: u32) -> (r: Option<Pixel>)
        requires
            self.well_formed(),
        ensures
            r == if self@.holds(x as int, y as int) {
                Some(self@.at(x as int, y as int))
            } else {
                None
            },
    {
        if x < self.width && y < self.height {
            let row: u64 = y as u64;
            let width: u64 = self.width as u64;
            proof {
                lemma_position(self.width as int, self.height as int, x as int, y as int);
                assert(0 <= row * width <= 0xffff_ffff * 0xffff_ffff) by (nonlinear_arith)
                    requires
                        0 <= row <= 0xffff_ffff,
                        0 <= width <= 0xffff_ffff,
                ;
            }
            let index: u64 = row * width + x as u64;
            let count: usize = self.pixels.len();
            assert(index < count);
            Some(self.pixels[index as usize])
        } else {
            None
        }
    }

    /// The first pixel that is not fully transparent among the nine around and including
    /// `point`, taken row by row from the one above left.
    pub fn find_nearest_non_transparent_pixel(&self, point: (u32, u32)) -> (r: Option<Pixel>)
        requires
            self.well_formed(),
        ensures
            r == self@.nearest_opaque(point.0 as int, point.1 as int, 0),
    {
        let mut step: u8 = 0;
        while step < 9
            invariant
                self.well_formed(),
                step <= 9,
                self@.nearest_opaque(point.0 as int, point.1 as int, 0) == self@.nearest_opaque(
                    point.0 as int,
                    point.1 as int,
                    step as int,
                ),
            decreases 9 - step,
        {
            let nx: i64 = point.0 as i64 + (step % 3) as i64 - 1;
            let ny: i64 = point.1 as i64 + (step / 3) as i64 - 1;
            if 0 <= nx && nx <= u32::MAX as i64 && 0 <= ny && ny <= u32::MAX as i64 {
                match self.get_pixel(nx as u32, ny as u32) {
                    Some(pixel) => {
                        if pixel.alpha != 0 {
                            return Some(pixel);
                        }
                    },
                    None => {},
                }
            }
            step = step + 1;
        }
        None
    }

    /// The repaired image, and whether any pixel had to be repaired.
    pub fn repair(&self) -> (r: (Image, bool))
        requires
            self.well_formed(),
        ensures
            r.0.well_formed(),
            r.0@ == (ImageView {
                width: self@.width,
                height: self@.height,
                pixels: self@.repaired_pixels(),
            }),
            r.1 == self@.has_blank(),
    {
        let mut out: Vec<Pixel> = Vec::new();
        let mut modified = false;
        let mut y: u32 = 0;
        assert(0 * self@.width == 0) by (nonlinear_arith);
        while y < self.height
            invariant
                self.well_formed(),
                y <= self.height,
                out@.len() == y * self@.width,
                forall|i: int| 0 <= i < out@.len() ==> out@[i] == self@.repaired_pixels()[i],
                modified == exists|i: int| 0 <= i < out@.len() && #[trigger] self@.pixels[i] == blank(),
            decreases self.height - y,
        {
            let mut x: u32 = 0;
            while x < self.width
                invariant
                    self.well_formed(),
                    y < self.height,
                    x <= self.width,
                    out@.len() == y * self@.width + x,
                    forall|i: int| 0 <= i < out@.len() ==> out@[i] == self@.repaired_pixels()[i],
                    modified == exists|i: int|
                        0 <= i < out@.len() && #[trigger] self@.pixels[i] == blank(),
                decreases self.width - x,
            {
                proof {
                    lemma_position(self.width as int, self.height as int, x as int, y as int);
                }
                let ghost filled = out@.len() as int;
                let ghost was = modified;
                let pixel = self.get_pixel(x, y).unwrap();
                let empty = pixel.red == 255 && pixel.green == 255 && pixel.blue == 255 && pixel.alpha
                    == 0;
                if empty {
                    modified = true;
                    match self.find_nearest_non_transparent_pixel((x, y)) {
                        Some(near) => {
                            out.push(
                                Pixel { red: near.red, green: near.green, blue: near.blue, alpha: 0 },
                            );
                        },
                        None => {
                            out.push(Pixel { red: 0, green: 0, blue: 0, alpha: 0 });
                        },
                    }
                } else {
                    out.push(pixel);
                }
                proof {
                    assert(out@[filled] == self@.repaired(x as int, y as int));
                    assert(self@.pixels[filled] == pixel);
                    if was {
                        let i = choose|i: int| 0 <= i < filled && #[trigger] self@.pixels[i] == blank();
                        assert(self@.pixels[i] == blank());
                    }
                }
                x = x + 1;
            }
            assert((y + 1) * self@.width == y * self@.width + self@.width) by (nonlinear_arith);
            y = y + 1;
        }
        proof {
            assert(self.height * self@.width == self@.width * self@.height) by (nonlinear_arith);
            assert(out@ =~= self@.repaired_pixels());
        }
        (Image { width: self.width, height: self.height, pixels: out }, modified)
    }
}

} // verus!
