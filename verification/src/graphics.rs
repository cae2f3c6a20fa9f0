//! Sprite-sheet geometry: cutting a decoded image's raw bytes into
//! per-tile pixel buffers.
//!
//! Decoding an image file and uploading a tile to the GPU belong to the
//! graphics bindings outside this library; the index arithmetic that
//! picks each tile's bytes out of the sheet is exact and lives here.

use vstd::prelude::*;

verus! {

/// How many whole tiles of the given size fit across and down an image.
pub fn sheet_dims(
    image_width: usize,
    image_height: usize,
    tile_width: usize,
    tile_height: usize,
) -> (r: (usize, usize))
    requires
        tile_width >= 1,
        tile_height >= 1,
    ensures
        r.0 == image_width as int / tile_width as int,
        r.1 == image_height as int / tile_height as int,
{
    (image_width / tile_width, image_height / tile_height)
}

/// The byte at channel `e` of the pixel `(ox, oy)` of an image stored
/// row-major at `bpp` bytes per pixel.
pub open spec fn spec_image_byte(data: Seq<u8>, image_width: int, bpp: int, ox: int, oy: int, e: int) -> u8 {
    data[(oy * image_width + ox) * bpp + e]
}

/// The bytes of one pixel of the image.
pub open spec fn spec_tile_pixel(data: Seq<u8>, image_width: int, bpp: int, ox: int, oy: int) -> Seq<u8> {
    Seq::new(bpp as nat, |e: int| spec_image_byte(data, image_width, bpp, ox, oy, e))
}

/// The bytes of the first `a` pixels of one tile row taken from image
/// row `oy`, starting at column `ox0`.
pub open spec fn spec_tile_row(
    data: Seq<u8>,
    image_width: int,
    bpp: int,
    ox0: int,
    oy: int,
    a: int,
) -> Seq<u8>
    decreases a,
{
    if a <= 0 {
        Seq::empty()
    } else {
        spec_tile_row(data, image_width, bpp, ox0, oy, a - 1) + spec_tile_pixel(
            data,
            image_width,
            bpp,
            ox0 + (a - 1),
            oy,
        )
    }
}

/// The image row a tile's row `b` reads: tiles are emitted bottom row
/// first, so row `b` of the tile at tile coordinate `y` reads image row
/// `y * tile_height + tile_height - 1 - b`.
pub open spec fn spec_tile_source_row(tile_height: int, y: int, b: int) -> int {
    y * tile_height + tile_height - 1 - b
}

/// The bytes of the first `b` rows of the tile at tile coordinates
/// `(x, y)`.
pub open spec fn spec_tile_bytes(
    data: Seq<u8>,
    image_width: int,
    bpp: int,
    tile_width: int,
    tile_height: int,
    x: int,
    y: int,
    b: int,
) -> Seq<u8>
    decreases b,
{
    if b <= 0 {
        Seq::empty()
    } else {
        spec_tile_bytes(data, image_width, bpp, tile_width, tile_height, x, y, b - 1)
            + spec_tile_row(
            data,
            image_width,
            bpp,
            x * tile_width,
            spec_tile_source_row(tile_height, y, b - 1),
            tile_width,
        )
    }
}

/// Cuts the tile at tile coordinates `(x, y)` out of a raw image buffer,
/// emitting its pixels row by row from the bottom row up, `bpp` bytes
/// per pixel.
#[verifier::rlimit(50)]
pub fn extract_tile(
    data: &Vec<u8>,
    image_width: usize,
    image_height: usize,
    bpp: usize,
    tile_width: usize,
    tile_height: usize,
    x: usize,
    y: usize,
) -> (r: Vec<u8>)
    requires
        1 <= bpp,
        1 <= tile_width,
        1 <= tile_height,
        data@.len() == image_width * image_height * bpp,
        (x + 1) * tile_width <= image_width,
        (y + 1) * tile_height <= image_height,
    ensures
        r@ == spec_tile_bytes(
            data@,
            image_width as int,
            bpp as int,
            tile_width as int,
            tile_height as int,
            x as int,
            y as int,
            tile_height as int,
        ),
        r@.len() == tile_height * tile_width * bpp,
{
    let ghost gw: int = image_width as int;
    let ghost gbpp: int = bpp as int;
    proof {
        assert(x * tile_width + tile_width <= image_width) by (nonlinear_arith)
            requires
                (x + 1) * tile_width <= image_width,
                tile_width >= 1,
                x >= 0;
    }
    let row_base: usize = x * tile_width;
    let total: usize = data.len();
    let mut r: Vec<u8> = Vec::new();
    let mut b: usize = 0;
    proof {
        assert((b as int) * (tile_width as int) * (bpp as int) == 0) by (nonlinear_arith)
            requires
                b == 0;
    }
    while b < tile_height
        invariant
            b <= tile_height,
            1 <= bpp,
            1 <= tile_width,
            1 <= tile_height,
            gw == image_width as int,
            gbpp == bpp as int,
            data@.len() == image_width * image_height * bpp,
            data@.len() <= usize::MAX,
            (x + 1) * tile_width <= image_width,
            (y + 1) * tile_height <= image_height,
            row_base == x * tile_width,
            r@ == spec_tile_bytes(
                data@,
                gw,
                gbpp,
                tile_width as int,
                tile_height as int,
                x as int,
                y as int,
                b as int,
            ),
            r@.len() == b * tile_width * bpp,
        decreases tile_height - b,
    {
        let ghost r_rows: Seq<u8> = r@;
        proof {
            assert(y * tile_height + tile_height <= image_height) by (nonlinear_arith)
                requires
                    (y + 1) * tile_height <= image_height,
                    tile_height >= 1,
                    y >= 0;
        }
        let oy: usize = y * tile_height + tile_height - 1 - b;
        let mut a: usize = 0;
        proof {
            assert((a as int) * (bpp as int) == 0) by (nonlinear_arith)
                requires
                    a == 0;
        }
        while a < tile_width
            invariant
                a <= tile_width,
                b < tile_height,
                1 <= bpp,
                1 <= tile_width,
                1 <= tile_height,
                gw == image_width as int,
                gbpp == bpp as int,
                data@.len() == image_width * image_height * bpp,
                data@.len() <= usize::MAX,
                (x + 1) * tile_width <= image_width,
                (y + 1) * tile_height <= image_height,
                row_base == x * tile_width,
                oy == spec_tile_source_row(tile_height as int, y as int, b as int),
                oy < image_height,
                r@ == r_rows + spec_tile_row(data@, gw, gbpp, row_base as int, oy as int, a as int),
                r@.len() == b * tile_width * bpp + a * bpp,
                r_rows.len() == b * tile_width * bpp,
            decreases tile_width - a,
        {
            let ghost r_pixels: Seq<u8> = r@;
            proof {
                assert(x * tile_width + a < image_width) by (nonlinear_arith)
                    requires
                        (x + 1) * tile_width <= image_width,
                        a < tile_width,
                        tile_width >= 1,
                        x >= 0,
                        a >= 0;
            }
            let ox: usize = row_base + a;
            proof {
                assert(oy * image_width + ox <= image_width * image_height * bpp && (oy
                    * image_width + ox) * bpp + bpp <= image_width * image_height * bpp)
                    by (nonlinear_arith)
                    requires
                        0 <= oy,
                        oy < image_height,
                        0 <= ox,
                        ox < image_width,
                        bpp >= 1,
                        image_width >= 1;
            }
            let pixel_base: usize = (oy * image_width + ox) * bpp;
            let mut e: usize = 0;
            while e < bpp
                invariant
                    e <= bpp,
                    1 <= bpp,
                    gw == image_width as int,
                    gbpp == bpp as int,
                    data@.len() == image_width * image_height * bpp,
                    data@.len() <= usize::MAX,
                    oy < image_height,
                    ox < image_width,
                    pixel_base == (oy * image_width + ox) * bpp,
                    pixel_base + bpp <= data@.len(),
                    r@ == r_pixels + spec_tile_pixel(data@, gw, gbpp, ox as int, oy as int).take(
                        e as int,
                    ),
                    r@.len() == r_pixels.len() + e,
                decreases bpp - e,
            {
                let byte: u8 = data[pixel_base + e];
                r.push(byte);
                proof {
                    let pix = spec_tile_pixel(data@, gw, gbpp, ox as int, oy as int);
                    assert(pix[e as int] == byte);
                    assert(pix.take(e as int).push(byte) =~= pix.take(e as int + 1));
                }
                e = e + 1;
            }
            proof {
                let pix = spec_tile_pixel(data@, gw, gbpp, ox as int, oy as int);
                assert(pix.take(gbpp) =~= pix);
                assert(r@ =~= r_rows + (spec_tile_row(data@, gw, gbpp, row_base as int, oy as int, a as int)
                    + pix));
                assert(spec_tile_row(data@, gw, gbpp, row_base as int, oy as int, a as int + 1)
                    == spec_tile_row(data@, gw, gbpp, row_base as int, oy as int, a as int) + pix);
                assert((a + 1) * bpp == a * bpp + bpp) by (nonlinear_arith);
            }
            a = a + 1;
        }
        proof {
            assert(spec_tile_bytes(
                data@,
                gw,
                gbpp,
                tile_width as int,
                tile_height as int,
                x as int,
                y as int,
                b as int + 1,
            ) == r_rows + spec_tile_row(data@, gw, gbpp, row_base as int, oy as int, tile_width as int));
            assert((b + 1) * tile_width * bpp == b * tile_width * bpp + tile_width * bpp) by (nonlinear_arith);
        }
        b = b + 1;
    }
    r
}

} // verus!
