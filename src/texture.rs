//! Repacking of row-major images into the tiled RGBA8 layout of the GPU's
//! texture unit.
use vstd::prelude::*;
use vstd::arithmetic::div_mod::lemma_fundamental_div_mod_converse;

verus! {

/// Byte offset of the red channel inside one destination pixel.
pub const IDX_R: usize = 3;
/// Byte offset of the green channel inside one destination pixel.
pub const IDX_G: usize = 2;
/// Byte offset of the blue channel inside one destination pixel.
pub const IDX_B: usize = 1;
/// Byte offset of the alpha channel inside one destination pixel.
pub const IDX_A: usize = 0;

/// Position of the pixel `(x, y)` inside its 8x8 tile (`x, y < 8`): the low
/// three bits of x and y interleaved, x first (bit0 = x0, bit1 = y0, bit2 = x1,
/// bit3 = y1, bit4 = x2, bit5 = y2).
pub open spec fn tile_offset(x: int, y: int) -> int {
    x % 2 + 2 * (y % 2) + 4 * ((x / 2) % 2) + 8 * ((y / 2) % 2) + 16 * ((x / 4) % 2) + 32 * ((y / 4) % 2)
}

/// Index of the 8x8 tile that holds `(x, y)` in an image `width` pixels wide;
/// tiles are laid out row by row.
pub open spec fn tile_index(x: int, y: int, width: int) -> int {
    (y / 8) * (width / 8) + x / 8
}

/// Destination pixel index of the source pixel `(x, y)`.
pub open spec fn swizzle_index(x: int, y: int, width: int) -> int {
    tile_index(x, y, width) * 64 + tile_offset(x % 8, y % 8)
}

proof fn lemma_low_bits(x: u32, y: u32)
    by (bit_vector)
    ensures
        (x & 1) | ((y & 1) << 1) | ((x & 2) << 1) | ((y & 2) << 2) | ((x & 4) << 2) | ((y & 4) << 3)
            == (x % 8) % 2 + 2 * ((y % 8) % 2) + 4 * (((x % 8) / 2) % 2) + 8 * (((y % 8) / 2) % 2)
            + 16 * (((x % 8) / 4) % 2) + 32 * (((y % 8) / 4) % 2),
        (x & 1) | ((y & 1) << 1) | ((x & 2) << 1) | ((y & 2) << 2) | ((x & 4) << 2) | ((y & 4) << 3) < 64,
{
}

proof fn lemma_offset_bits_injective(a1: u32, b1: u32, a2: u32, b2: u32)
    by (bit_vector)
    requires
        a1 < 8,
        b1 < 8,
        a2 < 8,
        b2 < 8,
        a1 % 2 + 2 * (b1 % 2) + 4 * ((a1 / 2) % 2) + 8 * ((b1 / 2) % 2) + 16 * ((a1 / 4) % 2) + 32 * ((b1 / 4) % 2)
            == a2 % 2 + 2 * (b2 % 2) + 4 * ((a2 / 2) % 2) + 8 * ((b2 / 2) % 2) + 16 * ((a2 / 4) % 2) + 32 * ((b2 / 4) % 2),
    ensures
        a1 == a2,
        b1 == b2,
{
}

proof fn lemma_offset_bits_onto(s: u32)
    by (bit_vector)
    requires
        s < 64,
    ensures
        ({
            let a = s % 2 + 2 * ((s / 4) % 2) + 4 * ((s / 16) % 2);
            let b = (s / 2) % 2 + 2 * ((s / 8) % 2) + 4 * ((s / 32) % 2);
            &&& a < 8
            &&& b < 8
            &&& a % 2 + 2 * (b % 2) + 4 * ((a / 2) % 2) + 8 * ((b / 2) % 2) + 16 * ((a / 4) % 2) + 32 * ((b / 4) % 2) == s
        }),
{
}

/// Column inside its tile of the pixel stored at tile offset `s`.
pub open spec fn tile_x(s: int) -> int {
    s % 2 + 2 * ((s / 4) % 2) + 4 * ((s / 16) % 2)
}

/// Row inside its tile of the pixel stored at tile offset `s`.
pub open spec fn tile_y(s: int) -> int {
    (s / 2) % 2 + 2 * ((s / 8) % 2) + 4 * ((s / 32) % 2)
}

/// Within one 8x8 tile the swizzle is a bijection: each of the 64 positions
/// `(a, b)` gets an offset below 64, no two positions share one, and every
/// offset below 64 is taken, by the position
/// `(tile_x(s), tile_y(s))`.
pub proof fn lemma_tile_offset_bijective()
    ensures
        forall|a: int, b: int| 0 <= a < 8 && 0 <= b < 8 ==> 0 <= #[trigger] tile_offset(a, b) < 64,
        forall|a1: int, b1: int, a2: int, b2: int|
            0 <= a1 < 8 && 0 <= b1 < 8 && 0 <= a2 < 8 && 0 <= b2 < 8
            && #[trigger] tile_offset(a1, b1) == #[trigger] tile_offset(a2, b2)
            ==> a1 == a2 && b1 == b2,
        forall|s: int| 0 <= s < 64 ==> 0 <= #[trigger] tile_x(s) < 8 && 0 <= tile_y(s) < 8
            && tile_offset(tile_x(s), tile_y(s)) == s,
{
    assert forall|a1: int, b1: int, a2: int, b2: int|
        0 <= a1 < 8 && 0 <= b1 < 8 && 0 <= a2 < 8 && 0 <= b2 < 8
        && #[trigger] tile_offset(a1, b1) == #[trigger] tile_offset(a2, b2)
        implies a1 == a2 && b1 == b2 by {
        lemma_offset_bits_injective(a1 as u32, b1 as u32, a2 as u32, b2 as u32);
    }
    assert forall|s: int| 0 <= s < 64 implies 0 <= #[trigger] tile_x(s) < 8 && 0 <= tile_y(s) < 8
        && tile_offset(tile_x(s), tile_y(s)) == s by {
        lemma_offset_bits_onto(s as u32);
    }
}

proof fn lemma_swizzle_pair(x1: int, y1: int, x2: int, y2: int, width: int, height: int)
    requires
        width > 0,
        width % 8 == 0,
        height % 8 == 0,
        0 <= x1 < width,
        0 <= y1 < height,
        0 <= x2 < width,
        0 <= y2 < height,
    ensures
        0 <= swizzle_index(x1, y1, width) < width * height,
        swizzle_index(x1, y1, width) == swizzle_index(x2, y2, width) ==> x1 == x2 && y1 == y2,
{
    lemma_tile_offset_bijective();
    let w = width / 8;
    let t1 = tile_index(x1, y1, width);
    let t2 = tile_index(x2, y2, width);
    let o1 = tile_offset(x1 % 8, y1 % 8);
    let o2 = tile_offset(x2 % 8, y2 % 8);
    assert(0 <= o1 < 64);
    assert(0 <= o2 < 64);
    assert(x1 / 8 < w && x2 / 8 < w);
    assert(y1 / 8 < height / 8);
    assert(0 <= t1 <= (height / 8 - 1) * w + (w - 1)) by (nonlinear_arith)
        requires
            t1 == (y1 / 8) * w + x1 / 8,
            0 <= y1 / 8 <= height / 8 - 1,
            0 <= x1 / 8 < w,
    ;
    assert(width * height == (height / 8) * w * 64) by (nonlinear_arith)
        requires
            width == 8 * w,
            height % 8 == 0,
    ;
    assert(0 <= t1 * 64 + o1 < width * height) by (nonlinear_arith)
        requires
            0 <= t1 <= (height / 8 - 1) * w + (w - 1),
            0 <= o1 < 64,
            width * height == (height / 8) * w * 64,
    ;
    if swizzle_index(x1, y1, width) == swizzle_index(x2, y2, width) {
        assert(0 <= t2) by (nonlinear_arith)
            requires
                t2 == (y2 / 8) * w + x2 / 8,
                0 <= w,
                0 <= y2 / 8,
                0 <= x2 / 8,
        ;
        lemma_fundamental_div_mod_converse(t1 * 64 + o1, 64, t1, o1);
        lemma_fundamental_div_mod_converse(t2 * 64 + o2, 64, t2, o2);
        assert(x1 % 8 == x2 % 8 && y1 % 8 == y2 % 8);
        lemma_fundamental_div_mod_converse(t1, w, y1 / 8, x1 / 8);
        lemma_fundamental_div_mod_converse(t2, w, y2 / 8, x2 / 8);
    }
}

/// The swizzle maps the pixels of a `width` x `height` image (both multiples
/// of 8) one to one onto the destination indices below `width * height`.
pub proof fn lemma_swizzle_injective(width: int, height: int)
    requires
        width > 0,
        width % 8 == 0,
        height % 8 == 0,
    ensures
        forall|x: int, y: int| 0 <= x < width && 0 <= y < height
            ==> 0 <= #[trigger] swizzle_index(x, y, width) < width * height,
        forall|x1: int, y1: int, x2: int, y2: int|
            0 <= x1 < width && 0 <= y1 < height && 0 <= x2 < width && 0 <= y2 < height
            && #[trigger] swizzle_index(x1, y1, width) == #[trigger] swizzle_index(x2, y2, width)
            ==> x1 == x2 && y1 == y2,
{
    assert forall|x: int, y: int| 0 <= x < width && 0 <= y < height
        implies 0 <= #[trigger] swizzle_index(x, y, width) < width * height by {
        lemma_swizzle_pair(x, y, x, y, width, height);
    }
    assert forall|x1: int, y1: int, x2: int, y2: int|
        0 <= x1 < width && 0 <= y1 < height && 0 <= x2 < width && 0 <= y2 < height
        && #[trigger] swizzle_index(x1, y1, width) == #[trigger] swizzle_index(x2, y2, width)
        implies x1 == x2 && y1 == y2 by {
        lemma_swizzle_pair(x1, y1, x2, y2, width, height);
    }
}

/// Every pixel of an image up to 65535 pixels wide and high (both multiples
/// of 8) meets the precondition of `swizzle`, whose result is then
/// `swizzle_index` of its arguments alone: repeated calls give the same index.
pub proof fn lemma_swizzle_callable(width: int, height: int)
    requires
        0 < width <= 65535,
        0 <= height <= 65535,
        width % 8 == 0,
        height % 8 == 0,
    ensures
        forall|x: int, y: int| 0 <= x < width && 0 <= y < height
            ==> #[trigger] swizzle_index(x, y, width) <= u32::MAX,
{
    lemma_swizzle_injective(width, height);
    assert(width * height <= 65535 * 65535) by (nonlinear_arith)
        requires
            0 < width <= 65535,
            0 <= height <= 65535,
    ;
}

/// Given the coordinates `(x, y)` of a source pixel in an image `width` pixels
/// wide, returns the index of the destination pixel in the tiled layout.
pub fn swizzle(x: u32, y: u32, width: u32) -> (r: usize)
    requires
        swizzle_index(x as int, y as int, width as int) <= u32::MAX,
    ensures
        r == swizzle_index(x as int, y as int, width as int),
{
    proof {
        lemma_low_bits(x, y);
        assert(y >> 3 == y / 8) by (bit_vector);
        assert(x >> 3 == x / 8) by (bit_vector);
        assert(width >> 3 == width / 8) by (bit_vector);
        assert(0 <= (y / 8) * (width / 8)) by (nonlinear_arith);
    }
    let tile: u32 = (y >> 3) * (width >> 3) + (x >> 3);
    proof {
        assert(tile << 6 == tile * 64) by (bit_vector)
            requires
                tile * 64 <= u32::MAX,
        ;
    }
    let low: u32 = (x & 1) | ((y & 1) << 1) | ((x & 2) << 1) | ((y & 2) << 2) | ((x & 4) << 2) | ((y & 4) << 3);
    ((tile << 6) + low) as usize
}

/// An image in the tiled RGBA8 layout: `data` holds four bytes per pixel,
/// `width * height * 4` bytes in all.
#[derive(Clone, Debug)]
pub struct Texture {
    pub data: Vec<u8>,
    pub width: u16,
    pub height: u16,
}

/// Why a source image could not be repacked.
#[derive(Debug, Clone, Copy, PartialEq, Eq, Structural)]
pub enum TextureError {
    /// The width or the height is not a positive multiple of 8.
    UnalignedSize,
    /// The number of source bytes is not `width * height * channels`.
    PixelCountMismatch,
}

/// Whether `width` x `height` can be tiled: both are positive multiples of 8.
pub open spec fn tileable(width: int, height: int) -> bool {
    width > 0 && height > 0 && width % 8 == 0 && height % 8 == 0
}

/// Index of the source pixel that lands at `(x, y)`: with `flip_rows` the
/// source rows are read bottom to top.
pub open spec fn source_pixel(x: int, y: int, width: int, height: int, flip_rows: bool) -> int {
    if flip_rows {
        (height - 1 - y) * width + x
    } else {
        y * width + x
    }
}

/// Channel `c` (0 = R, 1 = G, 2 = B, 3 = A) of source pixel `p` in a buffer of
/// `channels` bytes per pixel; a missing alpha channel reads as 255.
pub open spec fn source_channel(pixels: Seq<u8>, channels: int, p: int, c: int) -> u8 {
    if c < channels {
        pixels[p * channels + c]
    } else {
        255
    }
}

/// The four destination bytes of the pixel `(x, y)` hold the channels of its
/// source pixel, in the order A, B, G, R.
pub open spec fn pixel_repacked(
    data: Seq<u8>,
    pixels: Seq<u8>,
    channels: int,
    width: int,
    height: int,
    flip_rows: bool,
    x: int,
    y: int,
) -> bool {
    let d = swizzle_index(x, y, width) * 4;
    let p = source_pixel(x, y, width, height, flip_rows);
    &&& data[d + IDX_R] == source_channel(pixels, channels, p, 0)
    &&& data[d + IDX_G] == source_channel(pixels, channels, p, 1)
    &&& data[d + IDX_B] == source_channel(pixels, channels, p, 2)
    &&& data[d + IDX_A] == source_channel(pixels, channels, p, 3)
}

impl Texture {
    /// Repacks a row-major image of `channels` (3 or 4) bytes per pixel into
    /// the tiled layout. The image must be tileable and the buffer must hold
    /// exactly `width * height * channels` bytes.
    pub fn from_pixels(width: u16, height: u16, pixels: &Vec<u8>, channels: usize, flip_rows: bool) -> (r: Result<Texture, TextureError>)
        requires
            channels == 3 || channels == 4,
            width * height * 4 <= usize::MAX,
        ensures
            !tileable(width as int, height as int) ==> r == Err::<Texture, TextureError>(TextureError::UnalignedSize),
            tileable(width as int, height as int) && pixels@.len() != width * height * channels
                ==> r == Err::<Texture, TextureError>(TextureError::PixelCountMismatch),
            tileable(width as int, height as int) && pixels@.len() == width * height * channels ==> {
                &&& r is Ok
                &&& r->Ok_0.width == width
                &&& r->Ok_0.height == height
                &&& r->Ok_0.data@.len() == width * height * 4
                &&& forall|x: int, y: int| 0 <= x < width && 0 <= y < height
                    ==> #[trigger] pixel_repacked(r->Ok_0.data@, pixels@, channels as int, width as int, height as int, flip_rows, x, y)
            },
    {
        if width == 0 || height == 0 || width % 8 != 0 || height % 8 != 0 {
            return Err(TextureError::UnalignedSize);
        }
        let w: usize = width as usize;
        let h: usize = height as usize;
        assert(w * h <= 65535 * 65535) by (nonlinear_arith)
            requires
                w <= 65535,
                h <= 65535,
        ;
        let n: usize = w * h;
        if pixels.len() != n * channels {
            return Err(TextureError::PixelCountMismatch);
        }
        let mut data: Vec<u8> = vec![0u8; n * 4];
        let mut x: usize = 0;
        while x < w
            invariant
                tileable(w as int, h as int),
                w == width,
                h == height,
                n == w * h,
                n * 4 <= usize::MAX,
                n <= 65535 * 65535,
                channels == 3 || channels == 4,
                pixels@.len() == n * channels,
                data@.len() == n * 4,
                x <= w,
                forall|x2: int, y2: int| 0 <= x2 < x && 0 <= y2 < h
                    ==> #[trigger] pixel_repacked(data@, pixels@, channels as int, w as int, h as int, flip_rows, x2, y2),
            decreases w - x,
        {
            let mut y: usize = 0;
            while y < h
                invariant
                    tileable(w as int, h as int),
                    w == width,
                    h == height,
                    n == w * h,
                    n * 4 <= usize::MAX,
                    n <= 65535 * 65535,
                    channels == 3 || channels == 4,
                    pixels@.len() == n * channels,
                    data@.len() == n * 4,
                    x < w,
                    y <= h,
                    forall|x2: int, y2: int| (0 <= x2 < x && 0 <= y2 < h) || (x2 == x && 0 <= y2 < y)
                        ==> #[trigger] pixel_repacked(data@, pixels@, channels as int, w as int, h as int, flip_rows, x2, y2),
                decreases h - y,
            {
                let ghost before = data@;
                proof {
                    lemma_swizzle_injective(w as int, h as int);
                }
                assert(0 <= swizzle_index(x as int, y as int, w as int) < n);
                let dst: usize = swizzle(x as u32, y as u32, w as u32);
                let row: usize = if flip_rows { h - 1 - y } else { y };
                assert(row * w + x < n) by (nonlinear_arith)
                    requires
                        row < h,
                        x < w,
                        n == w * h,
                ;
                let src: usize = (row * w + x) * channels;
                assert(src + channels <= n * channels) by (nonlinear_arith)
                    requires
                        src == (row * w + x) * channels,
                        row * w + x < n,
                ;
                let d: usize = dst * 4;
                data.set(d + IDX_R, pixels[src]);
                data.set(d + IDX_G, pixels[src + 1]);
                data.set(d + IDX_B, pixels[src + 2]);
                if channels == 4 {
                    data.set(d + IDX_A, pixels[src + 3]);
                } else {
                    data.set(d + IDX_A, 255);
                }
                assert forall|x2: int, y2: int| (0 <= x2 < x && 0 <= y2 < h) || (x2 == x && 0 <= y2 < y + 1)
                    implies #[trigger] pixel_repacked(data@, pixels@, channels as int, w as int, h as int, flip_rows, x2, y2) by {
                    if x2 != x || y2 != y {
                        assert(pixel_repacked(before, pixels@, channels as int, w as int, h as int, flip_rows, x2, y2));
                        assert(swizzle_index(x2, y2, w as int) != swizzle_index(x as int, y as int, w as int));
                        assert(0 <= swizzle_index(x2, y2, w as int) < n);
                    }
                }
                y = y + 1;
            }
            x = x + 1;
        }
        Ok(Texture { data, width, height })
    }
}

} // verus!
