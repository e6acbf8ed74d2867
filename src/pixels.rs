use vstd::prelude::*;

verus! {

/// The value written over every pixel of a masked patch: black, fully transparent.
pub const MASK_PIXEL: [u8; 4] = [0, 0, 0, 0];

/// The mathematical picture of an image: its dimensions and its pixels in row-major order.
pub struct ImageModel {
    pub width: nat,
    pub height: nat,
    pub pixels: Seq<[u8; 4]>,
}

impl ImageModel {
    pub open spec fn wf(self) -> bool {
        self.pixels.len() == self.width * self.height
    }

    pub open spec fn in_bounds(self, x: int, y: int) -> bool {
        0 <= x < self.width && 0 <= y < self.height
    }

    /// The pixel at column `x` and row `y`.
    pub open spec fn pixel(self, x: int, y: int) -> [u8; 4] {
        self.pixels[y * self.width + x]
    }
}

/// The position of pixel `(x, y)` in a row-major buffer of the given width.
proof fn lemma_offset(x: int, y: int, width: int, height: int)
    requires
        0 <= x < width,
        0 <= y < height,
    ensures
        0 <= y * width + x < width * height,
{
    assert(y * width + x < width * height) by (nonlinear_arith)
        requires
            0 <= x < width,
            0 <= y < height,
    ;
    assert(0 <= y * width) by (nonlinear_arith)
        requires
            0 <= y,
            0 <= width,
    ;
}

/// Distinct in-bounds coordinates have distinct row-major positions.
proof fn lemma_offset_injective(x1: int, y1: int, x2: int, y2: int, width: int)
    requires
        0 <= x1 < width,
        0 <= x2 < width,
        0 <= y1,
        0 <= y2,
        y1 * width + x1 == y2 * width + x2,
    ensures
        x1 == x2,
        y1 == y2,
{
    if y1 < y2 {
        assert(y1 * width + width <= y2 * width) by (nonlinear_arith)
            requires
                y1 < y2,
                0 <= width,
        ;
    } else if y2 < y1 {
        assert(y2 * width + width <= y1 * width) by (nonlinear_arith)
            requires
                y2 < y1,
                0 <= width,
        ;
    }
}

/// Two well-formed images of one size that agree on every pixel are equal.
pub proof fn lemma_models_equal(a: ImageModel, b: ImageModel)
    requires
        a.wf(),
        b.wf(),
        a.width == b.width,
        a.height == b.height,
        forall|x: int, y: int| a.in_bounds(x, y) ==> a.pixel(x, y) == b.pixel(x, y),
    ensures
        a == b,
{
    let w = a.width as int;
    let h = a.height as int;
    assert forall|i: int| 0 <= i < a.pixels.len() implies a.pixels[i] == b.pixels[i] by {
        assert(w > 0) by (nonlinear_arith)
            requires
                0 <= i < w * h,
                0 <= h,
                0 <= w,
        ;
        let x = i % w;
        let y = i / w;
        vstd::arithmetic::div_mod::lemma_fundamental_div_mod(i, w);
        vstd::arithmetic::div_mod::lemma_mod_bound(i, w);
        vstd::arithmetic::div_mod::lemma_div_pos_is_pos(i, w);
        assert(y < h) by (nonlinear_arith)
            requires
                i == w * y + x,
                0 <= x,
                i < w * h,
                w > 0,
        ;
        assert(y * w + x == i) by (nonlinear_arith)
            requires
                i == w * y + x,
        ;
        assert(a.pixel(x, y) == b.pixel(x, y));
    }
    assert(a.pixels =~= b.pixels);
}

/// A width x height grid of RGBA pixels, stored row by row.
#[derive(Clone, Debug, PartialEq, Eq)]
pub struct PixelBuffer {
    width: u32,
    height: u32,
    pixels: Vec<[u8; 4]>,
}

impl View for PixelBuffer {
    type V = ImageModel;

    closed spec fn view(&self) -> ImageModel {
        ImageModel { width: self.width as nat, height: self.height as nat, pixels: self.pixels@ }
    }
}

impl PixelBuffer {
    /// Builds an image from its pixels in row-major order; `None` when their
    /// number is not `width * height`.
    pub fn from_pixels(width: u32, height: u32, pixels: Vec<[u8; 4]>) -> (r: Option<PixelBuffer>)
        ensures
            r is Some <==> pixels@.len() == width as int * height as int,
            r is Some ==> r->Some_0@.wf(),
            r is Some ==> r->Some_0@ == (ImageModel {
                width: width as nat,
                height: height as nat,
                pixels: pixels@,
            }),
    {
        proof {
            assert(width as int * height as int <= u32::MAX as int * u32::MAX as int) by (nonlinear_arith)
                requires
                    width <= u32::MAX,
                    height <= u32::MAX,
            ;
        }
        let area: u64 = width as u64 * height as u64;
        if pixels.len() as u64 == area {
            Some(PixelBuffer { width, height, pixels })
        } else {
            None
        }
    }

    pub fn width(&self) -> (r: u32)
        ensures
            r as nat == self@.width,
    {
        self.width
    }

    pub fn height(&self) -> (r: u32)
        ensures
            r as nat == self@.height,
    {
        self.height
    }

    /// `(width, height)`.
    pub fn dimensions(&self) -> (r: (u32, u32))
        ensures
            r.0 as nat == self@.width,
            r.1 as nat == self@.height,
    {
        (self.width, self.height)
    }

    /// The number of pixels.
    pub fn len(&self) -> (r: usize)
        ensures
            r == self@.pixels.len(),
    {
        self.pixels.len()
    }

    /// The pixel at `(x, y)`, or `None` outside the image.
    pub fn get_pixel(&self, x: u32, y: u32) -> (r: Option<[u8; 4]>)
        requires
            self@.wf(),
        ensures
            r is Some <==> self@.in_bounds(x as int, y as int),
            r is Some ==> r->Some_0 == self@.pixel(x as int, y as int),
    {
        if x < self.width && y < self.height {
            proof {
                lemma_offset(x as int, y as int, self.width as int, self.height as int);
            }
            let _n = self.pixels.len();
            let i = y as usize * self.width as usize + x as usize;
            Some(self.pixels[i])
        } else {
            None
        }
    }

    /// Overwrites the pixel at `(x, y)`; every other pixel keeps its value.
    pub fn put_pixel(&mut self, x: u32, y: u32, pixel: [u8; 4])
        requires
            old(self)@.wf(),
            old(self)@.in_bounds(x as int, y as int),
        ensures
            final(self)@.width == old(self)@.width,
            final(self)@.height == old(self)@.height,
            final(self)@.wf(),
            forall|i: int, j: int|
                #![trigger final(self)@.pixel(i, j)]
                old(self)@.in_bounds(i, j) ==> final(self)@.pixel(i, j) == if i == x && j == y {
                    pixel
                } else {
                    old(self)@.pixel(i, j)
                },
    {
        proof {
            lemma_offset(x as int, y as int, self.width as int, self.height as int);
        }
        let _n = self.pixels.len();
        let i = y as usize * self.width as usize + x as usize;
        self.pixels.set(i, pixel);
        proof {
            let w = self.width as int;
            assert forall|a: int, b: int| old(self)@.in_bounds(a, b) && !(a == x && b == y) implies
                #[trigger] self@.pixel(a, b) == old(self)@.pixel(a, b) by {
                lemma_offset(a, b, w, self.height as int);
                if b * w + a == i as int {
                    lemma_offset_injective(a, b, x as int, y as int, w);
                }
            }
        }
    }

    /// The pixels in row-major order.
    pub fn into_pixels(self) -> (r: Vec<[u8; 4]>)
        ensures
            r@ == self@.pixels,
    {
        self.pixels
    }
}

} // verus!
