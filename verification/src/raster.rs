//! RGBA images held as plain rows of pixels, with the three operations the
//! compositor needs: a transparent sheet, a quarter turn, and copying one image
//! onto another.

use crate::error::PackerError;
use vstd::prelude::*;

verus! {

/// One pixel: red, green, blue and alpha, eight bits each.
#[derive(Clone, Copy, Debug, PartialEq, Eq, Structural)]
pub struct Rgba {
    pub r: u8,
    pub g: u8,
    pub b: u8,
    pub a: u8,
}

/// The fully transparent pixel.
pub open spec fn transparent() -> Rgba {
    Rgba { r: 0, g: 0, b: 0, a: 0 }
}

/// An image of `width` x `height` pixels, stored row by row.
#[derive(Debug)]
pub struct Image {
    width: u32,
    height: u32,
    pixels: Vec<Rgba>,
}

/// An [`Image`] as a mathematical value: its size and the colour at each
/// coordinate `(x, y)`, `x` counting columns from the left and `y` rows from
/// the top.
pub struct ImageView {
    pub width: u32,
    pub height: u32,
    pub pixels: Map<(int, int), Rgba>,
}

impl ImageView {
    /// `(x, y)` is a coordinate of the image.
    pub open spec fn contains(self, x: int, y: int) -> bool {
        0 <= x < self.width && 0 <= y < self.height
    }

    /// The colour at `(x, y)`.
    pub open spec fn at(self, x: int, y: int) -> Rgba {
        self.pixels[(x, y)]
    }

    /// The image has a colour at each of its coordinates and nowhere else.
    pub open spec fn well_formed(self) -> bool {
        forall|c: (int, int)| #[trigger] self.pixels.dom().contains(c) <==> self.contains(c.0, c.1)
    }

    /// The transparent image of the given size.
    pub open spec fn blank(width: u32, height: u32) -> ImageView {
        ImageView {
            width,
            height,
            pixels: Map::new(|c: (int, int)| 0 <= c.0 < width && 0 <= c.1 < height, |c: (int, int)| transparent()),
        }
    }

    /// The image turned clockwise by a quarter: as wide as this one is high,
    /// its top row this one's left column read from the bottom up.
    pub open spec fn rotated90(self) -> ImageView {
        ImageView {
            width: self.height,
            height: self.width,
            pixels: Map::new(
                |c: (int, int)| 0 <= c.0 < self.height && 0 <= c.1 < self.width,
                |c: (int, int)| self.pixels[(c.1, self.height - 1 - c.0)],
            ),
        }
    }

    /// `other` fits on this image with its top left corner at `(x, y)`.
    pub open spec fn admits(self, other: ImageView, x: int, y: int) -> bool {
        x + other.width <= self.width && y + other.height <= self.height
    }

    /// This image with `other` copied onto it, top left corner at `(x, y)`.
    pub open spec fn overlaid(self, other: ImageView, x: int, y: int) -> ImageView {
        ImageView {
            width: self.width,
            height: self.height,
            pixels: Map::new(
                |c: (int, int)| self.contains(c.0, c.1),
                |c: (int, int)|
                    if other.contains(c.0 - x, c.1 - y) {
                        other.pixels[(c.0 - x, c.1 - y)]
                    } else {
                        self.pixels[c]
                    },
            ),
        }
    }
}

/// Where the pixel `(x, y)` of an image `width` wide is stored.
pub open spec fn offset(width: int, x: int, y: int) -> int {
    y * width + x
}

/// Every coordinate of an image has a place in its row-by-row store.
pub proof fn lemma_offset_in_store(width: int, height: int, x: int, y: int)
    requires
        0 <= x < width,
        0 <= y < height,
    ensures
        0 <= offset(width, x, y) < width * height,
{
    assert(y * width + x < width * height) by (nonlinear_arith)
        requires
            0 <= x < width,
            0 <= y < height,
    ;
    assert(0 <= y * width) by (nonlinear_arith)
        requires
            0 <= width,
            0 <= y,
    ;
}

/// Different coordinates are stored at different places.
pub proof fn lemma_offset_injective(width: int, x1: int, y1: int, x2: int, y2: int)
    requires
        0 <= x1 < width,
        0 <= x2 < width,
        offset(width, x1, y1) == offset(width, x2, y2),
    ensures
        x1 == x2,
        y1 == y2,
{
    assert(y1 == y2) by (nonlinear_arith)
        requires
            0 <= x1 < width,
            0 <= x2 < width,
            y1 * width + x1 == y2 * width + x2,
    ;
}

impl View for Image {
    type V = ImageView;

    closed spec fn view(&self) -> ImageView {
        ImageView {
            width: self.width,
            height: self.height,
            pixels: Map::new(
                |c: (int, int)| 0 <= c.0 < self.width && 0 <= c.1 < self.height,
                |c: (int, int)| self.pixels@[offset(self.width as int, c.0, c.1)],
            ),
        }
    }
}

impl Image {
    /// The store holds exactly one pixel per coordinate.
    pub closed spec fn well_formed(&self) -> bool {
        self.pixels.len() == self.width * self.height
    }

    /// A transparent image of the given size.
    pub fn new(width: u32, height: u32) -> (image: Image)
        requires
            width * height <= usize::MAX,
        ensures
            image.well_formed(),
            image@ == ImageView::blank(width, height),
    {
        let count: usize = width as usize * height as usize;
        let mut pixels: Vec<Rgba> = Vec::new();
        while pixels.len() < count
            invariant
                pixels.len() <= count,
                forall|i: int| 0 <= i < pixels.len() ==> pixels@[i] == transparent(),
            decreases count - pixels.len(),
        {
            pixels.push(Rgba { r: 0, g: 0, b: 0, a: 0 });
        }
        let image = Image { width, height, pixels };
        proof {
            assert forall|c: (int, int)| 0 <= c.0 < width && 0 <= c.1 < height implies #[trigger] image@.pixels[c]
                == transparent() by {
                lemma_offset_in_store(width as int, height as int, c.0, c.1);
            }
            assert(image@.pixels =~= ImageView::blank(width, height).pixels);
        }
        image
    }

    /// The image with the given pixels, listed row by row from the top, if
    /// there is exactly one pixel per coordinate.
    pub fn from_pixels(width: u32, height: u32, pixels: Vec<Rgba>) -> (image: Option<Image>)
        ensures
            image is Some <==> pixels.len() == width * height,
            image matches Some(made) ==> {
                &&& made.well_formed()
                &&& made@.width == width
                &&& made@.height == height
                &&& forall|x: int, y: int|
                    0 <= x < width && 0 <= y < height ==> made@.at(x, y) == pixels@[#[trigger] offset(
                        width as int,
                        x,
                        y,
                    )]
            },
    {
        assert(width * height <= 0xffff_ffff * 0xffff_ffff) by (nonlinear_arith)
            requires
                0 <= width <= 0xffff_ffff,
                0 <= height <= 0xffff_ffff,
        ;
        let wanted: u128 = width as u128 * height as u128;
        if pixels.len() as u128 != wanted {
            return None;
        }
        Some(Image { width, height, pixels })
    }

    /// The width in pixels.
    pub fn width(&self) -> (width: u32)
        ensures
            width == self@.width,
    {
        self.width
    }

    /// The height in pixels.
    pub fn height(&self) -> (height: u32)
        ensures
            height == self@.height,
    {
        self.height
    }

    /// The pixels row by row from the top.
    pub fn pixels(&self) -> (pixels: &Vec<Rgba>)
        requires
            self.well_formed(),
        ensures
            pixels.len() == self@.width * self@.height,
            forall|x: int, y: int|
                self@.contains(x, y) ==> self@.at(x, y) == pixels@[#[trigger] offset(self@.width as int, x, y)],
    {
        &self.pixels
    }

    /// The colour at `(x, y)`.
    pub fn get_pixel(&self, x: u32, y: u32) -> (pixel: Rgba)
        requires
            self.well_formed(),
            self@.contains(x as int, y as int),
        ensures
            pixel == self@.at(x as int, y as int),
    {
        proof {
            lemma_offset_in_store(self.width as int, self.height as int, x as int, y as int);
            assert(y * self.width >= 0) by (nonlinear_arith)
                requires
                    y >= 0,
                    self.width >= 0,
            ;
        }
        self.pixels[y as usize * self.width as usize + x as usize]
    }

    /// Colours the pixel at `(x, y)`.
    pub fn put_pixel(&mut self, x: u32, y: u32, pixel: Rgba)
        requires
            old(self).well_formed(),
            old(self)@.contains(x as int, y as int),
        ensures
            final(self).well_formed(),
            final(self)@.width == old(self)@.width,
            final(self)@.height == old(self)@.height,
            final(self)@.pixels == old(self)@.pixels.insert((x as int, y as int), pixel),
    {
        proof {
            lemma_offset_in_store(self.width as int, self.height as int, x as int, y as int);
            assert(y * self.width >= 0) by (nonlinear_arith)
                requires
                    y >= 0,
                    self.width >= 0,
            ;
        }
        let at = y as usize * self.width as usize + x as usize;
        self.pixels.set(at, pixel);
        proof {
            assert forall|c: (int, int)| old(self)@.contains(c.0, c.1) implies #[trigger] self@.pixels[c] == old(
                self,
            )@.pixels.insert((x as int, y as int), pixel)[c] by {
                lemma_offset_in_store(self.width as int, self.height as int, c.0, c.1);
                if offset(self.width as int, c.0, c.1) == at {
                    lemma_offset_injective(self.width as int, c.0, c.1, x as int, y as int);
                }
            }
            assert(self@.pixels =~= old(self)@.pixels.insert((x as int, y as int), pixel));
        }
    }

    /// A copy of the image.
    pub fn duplicate(&self) -> (copy: Image)
        requires
            self.well_formed(),
        ensures
            copy.well_formed(),
            copy@ == self@,
    {
        let mut pixels: Vec<Rgba> = Vec::new();
        let mut i: usize = 0;
        while i < self.pixels.len()
            invariant
                i <= self.pixels.len(),
                pixels.len() == i,
                forall|k: int| 0 <= k < i ==> pixels@[k] == self.pixels@[k],
            decreases self.pixels.len() - i,
        {
            pixels.push(self.pixels[i]);
            i += 1;
        }
        let copy = Image { width: self.width, height: self.height, pixels };
        proof {
            assert forall|c: (int, int)| self@.contains(c.0, c.1) implies #[trigger] copy@.pixels[c]
                == self@.pixels[c] by {
                lemma_offset_in_store(self.width as int, self.height as int, c.0, c.1);
            }
            assert(copy@.pixels =~= self@.pixels);
        }
        copy
    }

    /// The image turned clockwise by a quarter.
    #[verifier::loop_isolation(false)]
    pub fn rotate90(&self) -> (turned: Image)
        requires
            self.well_formed(),
        ensures
            turned.well_formed(),
            turned@ == self@.rotated90(),
    {
        let out_width: u32 = self.height;
        let out_height: u32 = self.width;
        let mut pixels: Vec<Rgba> = Vec::new();
        let mut oy: u32 = 0;
        while oy < out_height
            invariant
                oy <= out_height,
                pixels.len() == oy * out_width,
                forall|x: int, y: int|
                    0 <= x < out_width && 0 <= y < out_height && #[trigger] offset(out_width as int, x, y)
                        < pixels.len() ==> pixels@[offset(out_width as int, x, y)] == self@.at(
                        y,
                        out_width - 1 - x,
                    ),
            decreases out_height - oy,
        {
            let mut ox: u32 = 0;
            while ox < out_width
                invariant
                    ox <= out_width,
                    oy < out_height,
                    pixels.len() == oy * out_width + ox,
                    forall|x: int, y: int|
                        0 <= x < out_width && 0 <= y < out_height && #[trigger] offset(out_width as int, x, y)
                            < pixels.len() ==> pixels@[offset(out_width as int, x, y)] == self@.at(
                            y,
                            out_width - 1 - x,
                        ),
                decreases out_width - ox,
            {
                let pixel = self.get_pixel(oy, out_width - 1 - ox);
                let ghost before = pixels@;
                pixels.push(pixel);
                proof {
                    assert forall|x: int, y: int|
                        0 <= x < out_width && 0 <= y < out_height && #[trigger] offset(out_width as int, x, y)
                            < pixels.len() implies pixels@[offset(out_width as int, x, y)] == self@.at(
                        y,
                        out_width - 1 - x,
                    ) by {
                        lemma_offset_in_store(out_width as int, out_height as int, x, y);
                        if offset(out_width as int, x, y) == before.len() {
                            lemma_offset_injective(out_width as int, x, y, ox as int, oy as int);
                        }
                    }
                }
                ox += 1;
            }
            proof {
                assert(oy * out_width + out_width == (oy + 1) * out_width) by (nonlinear_arith);
            }
            oy += 1;
        }
        let turned = Image { width: out_width, height: out_height, pixels };
        proof {
            assert(out_height * out_width == out_width * out_height) by (nonlinear_arith);
            assert forall|c: (int, int)| 0 <= c.0 < out_width && 0 <= c.1 < out_height implies #[trigger] turned@.pixels[c]
                == self@.rotated90().pixels[c] by {
                lemma_offset_in_store(out_width as int, out_height as int, c.0, c.1);
            }
            assert(turned@.pixels =~= self@.rotated90().pixels);
        }
        turned
    }

    /// Copies `other` onto this image, its top left corner at `(x, y)`.
    ///
    /// An image that does not fit there is refused with
    /// [`PackerError::InternalGeometryViolation`], and nothing is copied.
    #[verifier::loop_isolation(false)]
    pub fn copy_from(&mut self, other: &Image, x: u32, y: u32) -> (copied: Result<(), PackerError>)
        requires
            old(self).well_formed(),
            other.well_formed(),
        ensures
            final(self).well_formed(),
            match copied {
                Ok(()) => old(self)@.admits(other@, x as int, y as int) && final(self)@ == old(self)@.overlaid(
                    other@,
                    x as int,
                    y as int,
                ),
                Err(e) => e == PackerError::InternalGeometryViolation && !old(self)@.admits(
                    other@,
                    x as int,
                    y as int,
                ) && final(self)@ == old(self)@,
            },
    {
        if other.width > self.width || x > self.width - other.width || other.height > self.height || y
            > self.height - other.height {
            return Err(PackerError::InternalGeometryViolation);
        }
        let ghost before = self@;
        let mut j: u32 = 0;
        while j < other.height
            invariant
                j <= other.height,
                self.well_formed(),
                self@.width == before.width,
                self@.height == before.height,
                forall|cx: int, cy: int|
                    before.contains(cx, cy) ==> #[trigger] self@.at(cx, cy) == (if other@.contains(cx - x, cy - y)
                        && cy - y < j {
                        other@.at(cx - x, cy - y)
                    } else {
                        before.at(cx, cy)
                    }),
            decreases other.height - j,
        {
            let mut i: u32 = 0;
            while i < other.width
                invariant
                    i <= other.width,
                    j < other.height,
                    self.well_formed(),
                    self@.width == before.width,
                    self@.height == before.height,
                    forall|cx: int, cy: int|
                        before.contains(cx, cy) ==> #[trigger] self@.at(cx, cy) == (if other@.contains(
                            cx - x,
                            cy - y,
                        ) && (cy - y < j || (cy - y == j && cx - x < i)) {
                            other@.at(cx - x, cy - y)
                        } else {
                            before.at(cx, cy)
                        }),
                decreases other.width - i,
            {
                let pixel = other.get_pixel(i, j);
                let ghost earlier = self@;
                self.put_pixel(x + i, y + j, pixel);
                proof {
                    assert forall|cx: int, cy: int| before.contains(cx, cy) implies #[trigger] self@.at(cx, cy) == (
                    if other@.contains(cx - x, cy - y) && (cy - y < j || (cy - y == j && cx - x < i + 1)) {
                        other@.at(cx - x, cy - y)
                    } else {
                        before.at(cx, cy)
                    }) by {
                        if cx == x + i && cy == y + j {
                        } else {
                            assert(self@.at(cx, cy) == earlier.at(cx, cy));
                        }
                    }
                }
                i += 1;
            }
            j += 1;
        }
        proof {
            assert forall|c: (int, int)| before.contains(c.0, c.1) implies #[trigger] self@.pixels[c]
                == before.overlaid(other@, x as int, y as int).pixels[c] by {
                assert(self@.at(c.0, c.1) == self@.pixels[c]);
            }
            assert(self@.pixels =~= before.overlaid(other@, x as int, y as int).pixels);
        }
        Ok(())
    }
}

} // verus!
