use vstd::prelude::*;

verus! {

/// The largest value of `darkness * alpha` for one pixel.
pub const MAX_RAW: u32 = 65025;

/// One sample of a grayscale image with alpha: `darkness` is `255 - luminance`,
/// so 0 is white and 255 is black.
#[derive(Clone, Copy, Debug, PartialEq, Eq)]
pub struct Pixel {
    pub darkness: u8,
    pub alpha: u8,
}

/// A grayscale image with alpha, its pixels stored row by row: the pixel at
/// `(x, y)` is `pixels[y * width + x]`.
#[derive(Debug)]
pub struct PixelImage {
    pub width: u32,
    pub height: u32,
    pub pixels: Vec<Pixel>,
}

/// The luminance of an sRGB colour, as `image` computes it for 8-bit pixels.
pub open spec fn luma_spec(r: u8, g: u8, b: u8) -> int {
    (2126 * r + 7152 * g + 722 * b) / 10000
}

/// Relies on `image::Pixel::to_luma` for `Rgb<u8>`: the weighted sum
/// `2126 r + 7152 g + 722 b`, divided by 10000 and rounded down.
#[verifier::external_body]
fn luma(r: u8, g: u8, b: u8) -> (l: u8)
    ensures
        l as int == luma_spec(r, g, b),
{
    <image::Rgb<u8> as image::Pixel>::to_luma(&image::Rgb([r, g, b])).0[0]
}

/// The pixel of an RGBA colour: its darkness is `255` less its luminance.
pub open spec fn pixel_of_rgba(r: u8, g: u8, b: u8, a: u8) -> Pixel {
    Pixel { darkness: (255 - luma_spec(r, g, b)) as u8, alpha: a }
}

/// How much ink a pixel asks for before any curve: `darkness * alpha`.
pub open spec fn raw_spec(p: Pixel) -> u32 {
    (p.darkness as int * p.alpha as int) as u32
}

impl Pixel {
    pub fn raw(&self) -> (r: u32)
        ensures
            r == raw_spec(*self),
            r as int == self.darkness as int * self.alpha as int,
            r <= MAX_RAW,
    {
        proof {
            let d = self.darkness as int;
            let a = self.alpha as int;
            assert(0 <= d * a <= 255 * 255) by (nonlinear_arith)
                requires
                    0 <= d <= 255,
                    0 <= a <= 255,
            ;
        }
        self.darkness as u32 * self.alpha as u32
    }
}

impl PixelImage {
    /// The pixels fill the `width * height` rectangle.
    pub open spec fn wf(&self) -> bool {
        self.pixels@.len() == self.width as int * self.height as int
    }

    /// An image of the given size, its pixels taken row by row from `pixels`;
    /// `None` when their number is not `width * height`.
    pub fn new(width: u32, height: u32, pixels: Vec<Pixel>) -> (r: Option<PixelImage>)
        ensures
            r is Some <==> pixels@.len() == width as int * height as int,
            r matches Some(img) ==> img.wf() && img.width == width && img.height == height
                && img.pixels@ == pixels@,
    {
        proof {
            let w = width as int;
            let h = height as int;
            assert(0 <= w * h <= 0xffff_ffff * 0xffff_ffff) by (nonlinear_arith)
                requires
                    0 <= w <= 0xffff_ffff,
                    0 <= h <= 0xffff_ffff,
            ;
        }
        let n = width as u64 * height as u64;
        if pixels.len() as u64 == n {
            Some(PixelImage { width, height, pixels })
        } else {
            None
        }
    }

    /// The image held in `rgba`, four bytes (red, green, blue, alpha) per
    /// pixel, row by row; `None` when there are not `4 * width * height` bytes.
    pub fn from_rgba8(width: u32, height: u32, rgba: &Vec<u8>) -> (r: Option<PixelImage>)
        ensures
            r is Some <==> rgba@.len() == 4 * (width as int * height as int),
            r matches Some(img) ==> {
                &&& img.wf()
                &&& img.width == width
                &&& img.height == height
                &&& forall|i: int|
                    0 <= i < img.pixels@.len() ==> #[trigger] img.pixels@[i] == pixel_of_rgba(
                        rgba@[4 * i],
                        rgba@[4 * i + 1],
                        rgba@[4 * i + 2],
                        rgba@[4 * i + 3],
                    )
            },
    {
        proof {
            let w = width as int;
            let h = height as int;
            assert(0 <= w * h <= 0xffff_ffff * 0xffff_ffff) by (nonlinear_arith)
                requires
                    0 <= w <= 0xffff_ffff,
                    0 <= h <= 0xffff_ffff,
            ;
        }
        let n = width as u64 * height as u64;
        if rgba.len() % 4 != 0 || (rgba.len() / 4) as u64 != n {
            return None;
        }
        let len = rgba.len();
        let count = len / 4;
        let mut pixels: Vec<Pixel> = Vec::new();
        let mut i: usize = 0;
        while i < count
            invariant
                count * 4 == rgba@.len(),
                len == rgba@.len(),
                i <= count,
                pixels@.len() == i,
                forall|k: int|
                    0 <= k < i ==> #[trigger] pixels@[k] == pixel_of_rgba(
                        rgba@[4 * k],
                        rgba@[4 * k + 1],
                        rgba@[4 * k + 2],
                        rgba@[4 * k + 3],
                    ),
            decreases count - i,
        {
            let k = 4 * i;
            let l = luma(rgba[k], rgba[k + 1], rgba[k + 2]);
            proof {
                let (r, g, b) = (rgba@[k as int], rgba@[k + 1], rgba@[k + 2]);
                assert(2126 * r + 7152 * g + 722 * b <= 2550000);
            }
            pixels.push(Pixel { darkness: 255 - l, alpha: rgba[k + 3] });
            i += 1;
        }
        Some(PixelImage { width, height, pixels })
    }
}

} // verus!
