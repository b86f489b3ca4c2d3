use vstd::prelude::*;
use vstd::arithmetic::div_mod::*;
use vstd::arithmetic::mul::*;
use crate::color::Color;

verus! {

/// An image of `width` by `height` texels, stored row by row.
#[derive(Clone)]
pub struct Texture {
    pub width: usize,
    pub height: usize,
    pub data: Vec<Color>,
}

/// The light and dark squares of the texture used when an image cannot be
/// loaded.
pub open spec fn fallback_light() -> Color {
    Color { r: 204, g: 204, b: 204 }
}

pub open spec fn fallback_dark() -> Color {
    Color { r: 153, g: 153, b: 153 }
}

/// Texel (x, y) of the 64 by 64 fallback texture: squares of 8 by 8 texels,
/// light where the square's column and row add up to an even number.
pub open spec fn fallback_texel(x: int, y: int) -> Color {
    if (x / 8 + y / 8) % 2 == 0 {
        fallback_light()
    } else {
        fallback_dark()
    }
}

/// The texel stored at index `i` of an RGB image with 8-bit channels.
pub open spec fn rgb_texel(rgb: Seq<u8>, i: int) -> Color {
    Color { r: rgb[3 * i], g: rgb[3 * i + 1], b: rgb[3 * i + 2] }
}

/// The row-major index of the texel that a lookup at (x, y) reads: both
/// coordinates are clamped to the last column and row.
pub open spec fn clamped_index(width: int, height: int, x: int, y: int) -> int {
    let cx = if x < width - 1 {
        x
    } else {
        width - 1
    };
    let cy = if y < height - 1 {
        y
    } else {
        height - 1
    };
    cy * width + cx
}

/// A lookup inside the texture reads the texel at that column and row; a
/// column past the last reads the last column of the same row, and a row
/// past the last reads the last row at the same column, each dimension
/// clamped on its own.
pub proof fn lemma_lookup_clamps(width: int, height: int, x: int, y: int)
    requires
        width > 0,
        height > 0,
        x >= 0,
        y >= 0,
    ensures
        x < width && y < height ==> clamped_index(width, height, x, y) == y * width + x,
        x >= width ==> clamped_index(width, height, x, y) == clamped_index(
            width,
            height,
            width - 1,
            y,
        ),
        y >= height ==> clamped_index(width, height, x, y) == clamped_index(
            width,
            height,
            x,
            height - 1,
        ),
{
}

/// The fallback texture is a 64 by 64 checkerboard of 8 by 8 squares: the
/// texel at column `x` and row `y` is light when the square's column `x / 8`
/// and row `y / 8` add up to an even number, dark otherwise.
pub proof fn lemma_fallback_squares(x: int, y: int)
    requires
        0 <= x < 64,
        0 <= y < 64,
    ensures
        Seq::new(64 * 64, |i: int| fallback_texel(i % 64, i / 64))[y * 64 + x] == (if (x / 8 + y
            / 8) % 2 == 0 {
            Color { r: 204, g: 204, b: 204 }
        } else {
            Color { r: 153, g: 153, b: 153 }
        }),
{
    lemma_fundamental_div_mod_converse(y * 64 + x, 64, y, x);
}

/// A texture made from decoded pixels holds, at column `x` and row `y`, the
/// red, green and blue bytes of that pixel, found at offset `3 * (y * width
/// + x)` of the image's bytes.
pub proof fn lemma_decoded_pixel(width: int, height: int, rgb: Seq<u8>, x: int, y: int)
    requires
        0 <= x < width,
        0 <= y < height,
    ensures
        0 <= y * width + x < width * height,
        ({
            let c = Seq::new((width * height) as nat, |i: int| rgb_texel(rgb, i))[y * width + x];
            let o = 3 * (y * width + x);
            c.r == rgb[o] && c.g == rgb[o + 1] && c.b == rgb[o + 2]
        }),
{
    lemma_mul_inequality(y, height - 1, width);
    lemma_mul_is_distributive_sub_other_way(width, height, 1);
    lemma_mul_is_commutative(width, height);
    lemma_mul_nonnegative(y, width);
}

impl Texture {
    /// The texture holds one texel per pixel.
    pub open spec fn wf(&self) -> bool {
        self.data@.len() == self.width * self.height
    }

    /// A `width` by `height` texture, all white.
    pub fn new(width: usize, height: usize) -> (t: Texture)
        requires
            width * height <= usize::MAX,
        ensures
            t.wf(),
            t.width == width,
            t.height == height,
            forall|i: int| 0 <= i < width * height ==> #[trigger] t.data@[i] == Color::white_spec(),
    {
        let n = width * height;
        let mut data: Vec<Color> = Vec::new();
        let mut i: usize = 0;
        while i < n
            invariant
                i <= n,
                data@.len() == i,
                forall|j: int| 0 <= j < i ==> #[trigger] data@[j] == Color::white_spec(),
            decreases n - i,
        {
            data.push(Color::white());
            i = i + 1;
        }
        Texture { width, height, data }
    }

    /// A one-texel texture of the given colour.
    pub fn from_color(color: Color) -> (t: Texture)
        ensures
            t.wf(),
            t.width == 1,
            t.height == 1,
            t.data@ == seq![color],
    {
        let mut data: Vec<Color> = Vec::new();
        data.push(color);
        Texture { width: 1, height: 1, data }
    }

    /// The texture made from a decoded image: `rgb` holds the 8-bit red,
    /// green and blue channels of each pixel, row by row.
    pub fn from_rgb8(width: usize, height: usize, rgb: &[u8]) -> (t: Texture)
        requires
            rgb@.len() == 3 * (width * height),
        ensures
            t.wf(),
            t.width == width,
            t.height == height,
            t.data@ == Seq::new((width * height) as nat, |i: int| rgb_texel(rgb@, i)),
    {
        let ghost n = width * height;
        let rlen = rgb.len();
        let mut data: Vec<Color> = Vec::new();
        let mut y: usize = 0;
        while y < height
            invariant
                y <= height,
                rgb@.len() == 3 * n,
                rlen == rgb@.len(),
                n == width * height,
                data@ =~= Seq::new((y * width) as nat, |i: int| rgb_texel(rgb@, i)),
            decreases height - y,
        {
            let mut x: usize = 0;
            while x < width
                invariant
                    y < height,
                    x <= width,
                    rgb@.len() == 3 * n,
                    rlen == rgb@.len(),
                    n == width * height,
                    data@ =~= Seq::new((y * width + x) as nat, |i: int| rgb_texel(rgb@, i)),
                decreases width - x,
            {
                proof {
                    lemma_mul_inequality(y as int + 1, height as int, width as int);
                    lemma_mul_is_distributive_add_other_way(width as int, y as int, 1);
                    lemma_mul_is_commutative(width as int, y as int + 1);
                    lemma_mul_is_commutative(width as int, height as int);
                }
                let i = y * width + x;
                data.push(Color::new(rgb[3 * i], rgb[3 * i + 1], rgb[3 * i + 2]));
                x = x + 1;
            }
            proof {
                lemma_mul_is_distributive_add_other_way(width as int, y as int, 1);
            }
            y = y + 1;
        }
        proof {
            lemma_mul_is_commutative(width as int, height as int);
        }
        Texture { width, height, data }
    }

    /// The 64 by 64 checkerboard used in place of an image that cannot be
    /// loaded.
    pub fn fallback_checkerboard() -> (t: Texture)
        ensures
            t.wf(),
            t.width == 64,
            t.height == 64,
            t.data@ == Seq::new(64 * 64, |i: int| fallback_texel(i % 64, i / 64)),
    {
        let width: usize = 64;
        let height: usize = 64;
        let mut data: Vec<Color> = Vec::new();
        let mut y: usize = 0;
        while y < height
            invariant
                y <= 64,
                width == 64,
                height == 64,
                data@ =~= Seq::new((y * 64) as nat, |i: int| fallback_texel(i % 64, i / 64)),
            decreases 64 - y,
        {
            let mut x: usize = 0;
            while x < width
                invariant
                    y < 64,
                    x <= 64,
                    width == 64,
                    data@ =~= Seq::new(
                        (y * 64 + x) as nat,
                        |i: int| fallback_texel(i % 64, i / 64),
                    ),
                decreases 64 - x,
            {
                proof {
                    lemma_fundamental_div_mod_converse(y * 64 + x, 64, y as int, x as int);
                }
                let checker = ((x / 8) + (y / 8)) % 2 == 0;
                let color = if checker {
                    Color::new(204, 204, 204)
                } else {
                    Color::new(153, 153, 153)
                };
                data.push(color);
                x = x + 1;
            }
            y = y + 1;
        }
        Texture { width, height, data }
    }

    /// The texture for the result of loading an image: the decoded pixels
    /// (width, height, RGB channels) when the image could be read, the
    /// fallback checkerboard otherwise.
    pub fn from_load_result(decoded: Option<(usize, usize, Vec<u8>)>) -> (t: Texture)
        requires
            decoded matches Some((w, h, rgb)) ==> rgb@.len() == 3 * (w * h),
        ensures
            t.wf(),
            match decoded {
                Some((w, h, rgb)) => t.width == w && t.height == h && t.data@ == Seq::new(
                    (w * h) as nat,
                    |i: int| rgb_texel(rgb@, i),
                ),
                None => t.width == 64 && t.height == 64 && t.data@ == Seq::new(
                    64 * 64,
                    |i: int| fallback_texel(i % 64, i / 64),
                ),
            },
    {
        match decoded {
            Some((w, h, rgb)) => Texture::from_rgb8(w, h, rgb.as_slice()),
            None => Texture::fallback_checkerboard(),
        }
    }

    /// The texel at column `x` and row `y`, each clamped to the last column
    /// and row: the lookup of a texture sample once its coordinates have
    /// been scaled to texels.
    pub fn texel(&self, x: usize, y: usize) -> (c: Color)
        requires
            self.wf(),
            self.width > 0,
            self.height > 0,
        ensures
            0 <= clamped_index(self.width as int, self.height as int, x as int, y as int)
                < self.data@.len(),
            c == self.data@[clamped_index(self.width as int, self.height as int, x as int, y as int)],
    {
        let n = self.data.len();
        let cx = if x < self.width - 1 {
            x
        } else {
            self.width - 1
        };
        let cy = if y < self.height - 1 {
            y
        } else {
            self.height - 1
        };
        proof {
            lemma_mul_inequality(cy as int, self.height as int - 1, self.width as int);
            lemma_mul_is_distributive_sub_other_way(self.width as int, self.height as int, 1);
            lemma_mul_is_commutative(self.width as int, self.height as int);
            lemma_mul_nonnegative(cy as int, self.width as int);
        }
        self.data[cy * self.width + cx]
    }
}

} // verus!
