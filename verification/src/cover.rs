//! Book covers as they are cached: 4 bits per pixel, two pixels to a byte.
//!
//! The panel shows 16 grey levels, so a nibble per pixel is everything that survives being
//! displayed. Rows are byte-aligned: the server keeps the aspect ratio of a cover, so that any
//! width can occur, an odd one included.
use vstd::arithmetic::div_mod::lemma_fundamental_div_mod_converse;
use vstd::prelude::*;

use crate::jpeg::{blocks_along, finest_across, finest_down, first_across, first_scan, fit_to_decode,
    is_fit_to_decode, largest_mean, markers, no_headers, ScanView, FILE_LIMIT};

verus! {

/// Thumbnail size to ask the server for, in physical pixels.
pub const COVER_WIDTH: u32 = 88;

/// Thumbnail size to ask the server for, in physical pixels.
pub const COVER_HEIGHT: u32 = 132;

/// A grey picture, one byte per pixel, row by row.
#[derive(Debug)]
pub struct GrayImage {
    pub width: u32,
    pub height: u32,
    pub pixels: Vec<u8>,
}

impl GrayImage {
    /// There are as many pixels as the size says.
    pub open spec fn wf(self) -> bool {
        self.pixels@.len() == self.width * self.height
    }
}

/// The pixels of a picture, row by row: grey values, or red, green and blue.
pub enum Pixels {
    Grey(Seq<u8>),
    Colour(Seq<(u8, u8, u8)>),
}

/// The picture that a JPEG file holds: its width, its height and its pixels; none where the file
/// cannot be decoded.
pub uninterp spec fn jpeg_picture(jpeg: Seq<u8>) -> Option<(u32, u32, Pixels)>;

/// Whether a grey value is the luminance of a colour to within one step, by the weights of sRGB in
/// ten thousandths.
pub open spec fn shade_of(gray: u8, colour: (u8, u8, u8)) -> bool {
    let (r, g, b) = colour;
    let luminance = 2126 * r + 7152 * g + 722 * b;
    luminance - 10000 <= 10000 * gray <= luminance + 10000
}

/// Whether a picture is the grey one of the given pixels: the same where they are grey already, and
/// their luminance where they are coloured.
pub open spec fn shades_of(gray: Seq<u8>, pixels: Pixels) -> bool {
    match pixels {
        Pixels::Grey(values) => gray == values,
        Pixels::Colour(colours) => {
            &&& gray.len() == colours.len()
            &&& forall|i: int| 0 <= i < gray.len() ==> shade_of(#[trigger] gray[i], colours[i])
        },
    }
}

/// `image::load_from_memory_with_format` for JPEG and `to_luma8` on its result. Whether the file can
/// be decoded, and what picture it holds, are functions of the file, named `jpeg_picture`. The
/// result is the grey one of that picture, with as many pixels as its size says. A grey picture is
/// handed on unchanged. Of a coloured one each grey value is the luminance to within one step; which
/// of the neighbouring steps it is, is left unsaid: the luminance is computed in floating point,
/// and its last bit differs between targets with and without a fused multiply-add.
///
/// The decoder may panic on a file that is not fit for it; every other fault of a file it reports as
/// an error.
#[verifier::external_body]
fn decode_luma(jpeg: &[u8]) -> (r: Result<GrayImage, String>)
    requires
        fit_to_decode(jpeg@),
    ensures
        match (r, jpeg_picture(jpeg@)) {
            (Ok(gray), Some((width, height, pixels))) => {
                &&& gray.wf()
                &&& gray.width == width
                &&& gray.height == height
                &&& shades_of(gray.pixels@, pixels)
            },
            (Err(_), None) => true,
            _ => false,
        },
{
    match image::load_from_memory_with_format(jpeg, image::ImageFormat::Jpeg) {
        Ok(picture) => {
            let gray = picture.to_luma8();
            let (width, height) = gray.dimensions();
            Ok(GrayImage { width, height, pixels: gray.into_raw() })
        },
        Err(e) => Err(e.to_string()),
    }
}

/// The grey level of a pixel, of 16.
pub open spec fn level_of(gray: u8) -> int {
    gray as int / 16
}

/// The grey value at which a level is shown: 0 is black, 15 is full white.
pub open spec fn shown(level: int) -> int {
    level * 17
}

/// Bytes in a row of the given width.
pub open spec fn stride_of(width: int) -> int {
    (width + 1) / 2
}

/// The byte at column `col` of row `y`: two levels, the right one absent past the end of the row.
pub open spec fn packed_byte(gray: Seq<u8>, width: int, y: int, col: int) -> u8 {
    let left = level_of(gray[y * width + 2 * col]);
    let right = if 2 * col + 1 < width {
        level_of(gray[y * width + 2 * col + 1])
    } else {
        0
    };
    (left * 16 + right) as u8
}

/// A grey picture packed to 4 bits per pixel.
pub open spec fn packed(gray: Seq<u8>, width: int, height: int) -> Seq<u8> {
    let stride = stride_of(width);
    Seq::new((stride * height) as nat, |i: int| packed_byte(gray, width, i / stride, i % stride))
}

/// The level of the pixel at `x`, `y` of a packed picture.
pub open spec fn level_at(pixels: Seq<u8>, width: int, x: int, y: int) -> int {
    let byte = pixels[y * stride_of(width) + x / 2] as int;
    if x % 2 == 0 {
        byte / 16
    } else {
        byte % 16
    }
}

/// A packed picture as it is shown, one grey value per pixel.
pub open spec fn unpacked(pixels: Seq<u8>, width: int, height: int) -> Seq<u8> {
    Seq::new(
        (width * height) as nat,
        |i: int| shown(level_at(pixels, width, i % width, i / width)) as u8,
    )
}

/// A cached cover.
#[derive(Debug)]
pub struct CachedCover {
    pub width: u32,
    pub height: u32,
    pub pixels: Vec<u8>,
}

/// One pixel of a picture in colour.
#[derive(Debug, Clone, Copy, PartialEq, Eq, Structural)]
pub struct Rgb8Pixel {
    pub r: u8,
    pub g: u8,
    pub b: u8,
}

impl CachedCover {
    /// There are as many bytes as the size says, and as many pixels as can be counted.
    pub open spec fn wf(self) -> bool {
        &&& self.pixels@.len() == stride_of(self.width as int) * self.height
        &&& self.width * self.height <= usize::MAX
    }

    /// Whether this is the packed form of a grey picture of the same size.
    pub open spec fn packs(self, gray: Seq<u8>) -> bool {
        &&& gray.len() == self.width * self.height
        &&& self.pixels@ == packed(gray, self.width as int, self.height as int)
    }

    /// Whether this is the packed form of the grey picture of the given pixels.
    pub open spec fn packs_shades_of(self, pixels: Pixels) -> bool {
        exists|gray: Seq<u8>| shades_of(gray, pixels) && #[trigger] self.packs(gray)
    }

    /// Whether this is the packed form of the picture that a JPEG file holds.
    pub open spec fn packs_jpeg(self, jpeg: Seq<u8>) -> bool {
        match jpeg_picture(jpeg) {
            Some((width, height, pixels)) => {
                &&& self.wf()
                &&& self.width == width
                &&& self.height == height
                &&& self.packs_shades_of(pixels)
            },
            None => false,
        }
    }

    /// Bytes in a row of the given width.
    pub fn stride(width: u32) -> (r: usize)
        ensures
            r == stride_of(width as int),
    {
        let w: u64 = width as u64;
        ((w + 1) / 2) as usize
    }

    /// Packs a grey picture.
    pub fn from_gray(gray: &GrayImage) -> (r: Self)
        requires
            gray.wf(),
        ensures
            r.wf(),
            r.width == gray.width,
            r.height == gray.height,
            r.pixels@ == packed(gray.pixels@, gray.width as int, gray.height as int),
    {
        let width: usize = gray.width as usize;
        let height: usize = gray.height as usize;
        let stride: usize = Self::stride(gray.width);
        let ghost all = packed(gray.pixels@, width as int, height as int);
        let mut pixels: Vec<u8> = Vec::new();
        proof {
            lemma_rows(0, stride as int);
        }
        for y in 0..height
            invariant
                width == gray.width,
                height == gray.height,
                stride == stride_of(width as int),
                gray.wf(),
                all == packed(gray.pixels@, width as int, height as int),
                pixels@ == all.take(y * stride),
        {
            assert((y + 1) * stride <= height * stride) by (nonlinear_arith)
                requires
                    y + 1 <= height,
            ;
            assert((y + 1) * stride == y * stride + stride) by (nonlinear_arith);
            assert((y + 1) * width <= height * width) by (nonlinear_arith)
                requires
                    y + 1 <= height,
            ;
            assert((y + 1) * width == y * width + width) by (nonlinear_arith);
            assert(height * width == width * height) by (nonlinear_arith);
            assert(height * stride == stride * height) by (nonlinear_arith);
            for col in 0..stride
                invariant
                    width == gray.width,
                    height == gray.height,
                    stride == stride_of(width as int),
                    gray.wf(),
                    all == packed(gray.pixels@, width as int, height as int),
                    y < height,
                    y * stride + stride <= all.len(),
                    y * width + width <= gray.pixels@.len(),
                    pixels@ == all.take(y * stride + col),
            {
                proof {
                    lemma_fundamental_div_mod_converse(
                        y * stride + col,
                        stride as int,
                        y as int,
                        col as int,
                    );
                }
                assert(0 <= y * width) by (nonlinear_arith);
                assert(gray.pixels.len() == gray.pixels@.len());
                let at: usize = y * width + 2 * col;
                let left: u8 = gray.pixels[at] / 16;
                let right: u8 = if 2 * col + 1 < width {
                    gray.pixels[at + 1] / 16
                } else {
                    0
                };
                pixels.push(left * 16 + right);
                assert(pixels@ =~= all.take(y * stride + col + 1));
            }
            proof {
                lemma_rows(y as int, stride as int);
            }
        }
        assert(pixels@ =~= all) by {
            assert(height * stride == stride * height) by (nonlinear_arith);
        }
        assert(0 <= stride * height) by (nonlinear_arith);
        assert(gray.pixels.len() == gray.pixels@.len());
        CachedCover { width: gray.width, height: gray.height, pixels }
    }

    /// Decodes a JPEG thumbnail and packs it. A file that the decoder cannot be handed is an error
    /// as well.
    pub fn pack(jpeg: &[u8]) -> (r: Result<Self, String>)
        ensures
            match r {
                Ok(cover) => fit_to_decode(jpeg@) && cover.packs_jpeg(jpeg@),
                Err(_) => !fit_to_decode(jpeg@) || jpeg_picture(jpeg@) is None,
            },
    {
        if !is_fit_to_decode(jpeg) {
            return Err("unsupported JPEG file".to_string());
        }
        match decode_luma(jpeg) {
            Ok(gray) => {
                let cover = Self::from_gray(&gray);
                assert(cover.packs(gray.pixels@));
                Ok(cover)
            },
            Err(e) => Err(e),
        }
    }

    /// Grey level of a pixel, 0..=15.
    pub fn level(&self, x: usize, y: usize) -> (r: u8)
        requires
            y * stride_of(self.width as int) + x / 2 < self.pixels@.len(),
        ensures
            r == level_at(self.pixels@, self.width as int, x as int, y as int),
            r <= 15,
    {
        let stride: usize = Self::stride(self.width);
        assert(self.pixels.len() == self.pixels@.len());
        assert(0 <= y * stride) by (nonlinear_arith);
        let byte: u8 = self.pixels[y * stride + x / 2];
        if x % 2 == 0 {
            byte / 16
        } else {
            byte % 16
        }
    }

    /// Expands back to colour, row by row.
    pub fn to_image(&self) -> (r: Vec<Rgb8Pixel>)
        requires
            self.wf(),
        ensures
            r@.len() == self.width * self.height,
            forall|i: int|
                #![trigger r@[i]]
                0 <= i < r@.len() ==> ({
                    let v = unpacked(self.pixels@, self.width as int, self.height as int)[i];
                    r@[i] == Rgb8Pixel { r: v, g: v, b: v }
                }),
    {
        let width: usize = self.width as usize;
        let height: usize = self.height as usize;
        let ghost all = unpacked(self.pixels@, width as int, height as int);
        let mut out: Vec<Rgb8Pixel> = Vec::new();
        proof {
            lemma_rows(0, width as int);
        }
        for y in 0..height
            invariant
                self.wf(),
                width == self.width,
                height == self.height,
                all == unpacked(self.pixels@, width as int, height as int),
                out@.len() == y * width,
                forall|i: int|
                    #![trigger out@[i]]
                    0 <= i < out@.len() ==> out@[i] == (Rgb8Pixel {
                        r: all[i],
                        g: all[i],
                        b: all[i],
                    }),
        {
            assert((y + 1) * width <= width * height) by (nonlinear_arith)
                requires
                    y + 1 <= height,
            ;
            assert((y + 1) * width == y * width + width) by (nonlinear_arith);
            for x in 0..width
                invariant
                    self.wf(),
                    width == self.width,
                    height == self.height,
                    all == unpacked(self.pixels@, width as int, height as int),
                    y < height,
                    y * width + width <= all.len(),
                    out@.len() == y * width + x,
                    forall|i: int|
                        #![trigger out@[i]]
                        0 <= i < out@.len() ==> out@[i] == (Rgb8Pixel {
                            r: all[i],
                            g: all[i],
                            b: all[i],
                        }),
            {
                proof {
                    lemma_fundamental_div_mod_converse(
                        y * width + x,
                        width as int,
                        y as int,
                        x as int,
                    );
                    lemma_within(width as int, height as int, x as int, y as int);
                }
                // Doubling the nibble sends 15 to 255, where a bare shift would stop at 240 and
                // grey out the whites.
                let value: u8 = self.level(x, y) * 17;
                out.push(Rgb8Pixel { r: value, g: value, b: value });
            }
            proof {
                lemma_rows(y as int, width as int);
            }
        }
        assert(height * width == width * height) by (nonlinear_arith);
        out
    }
}

/// Where a row begins, and the next one.
proof fn lemma_rows(y: int, row: int)
    ensures
        0 * row == 0,
        (y + 1) * row == y * row + row,
{
    assert((y + 1) * row == y * row + row) by (nonlinear_arith);
}

/// A pixel within the picture lies within its packed bytes.
proof fn lemma_within(width: int, height: int, x: int, y: int)
    requires
        0 <= x < width,
        0 <= y < height,
    ensures
        0 <= y * stride_of(width) + x / 2 < stride_of(width) * height,
        0 <= x / 2 < stride_of(width),
        0 <= y * width + x < width * height,
{
    let s = stride_of(width);
    assert(y * s + s <= s * height) by (nonlinear_arith)
        requires
            y + 1 <= height,
            s >= 0,
    ;
    assert(y * width + width <= width * height) by (nonlinear_arith)
        requires
            y + 1 <= height,
            width >= 0,
    ;
    assert(0 <= y * s) by (nonlinear_arith)
        requires
            0 <= y,
            0 <= s,
    ;
    assert(0 <= y * width) by (nonlinear_arith)
        requires
            0 <= y,
            0 <= width,
    ;
}

/// Packing keeps the level of every pixel.
pub proof fn packing_keeps_levels(gray: Seq<u8>, width: int, height: int, x: int, y: int)
    requires
        0 <= x < width,
        0 <= y < height,
        gray.len() == width * height,
    ensures
        level_at(packed(gray, width, height), width, x, y) == level_of(gray[y * width + x]),
{
    let s = stride_of(width);
    lemma_within(width, height, x, y);
    lemma_fundamental_div_mod_converse(y * s + x / 2, s, y, x / 2);
}

/// The half byte past the end of an odd row stays clear.
pub proof fn padding_is_clear(gray: Seq<u8>, width: int, height: int, y: int)
    requires
        0 <= y < height,
        0 < width,
        width % 2 == 1,
        gray.len() == width * height,
    ensures
        packed(gray, width, height)[y * stride_of(width) + stride_of(width) - 1] as int % 16 == 0,
{
    let s = stride_of(width);
    lemma_within(width, height, width - 1, y);
    lemma_fundamental_div_mod_converse(y * s + s - 1, s, y, s - 1);
}

/// White stays white and black stays black, and every grey value comes back to within its level.
pub proof fn shades_survive(gray: u8)
    ensures
        0 <= shown(level_of(gray)) <= 255,
        -16 < shown(level_of(gray)) - gray < 16,
        level_of(shown(level_of(gray)) as u8) == level_of(gray),
        gray == 255 ==> shown(level_of(gray)) == 255,
        gray == 0 ==> shown(level_of(gray)) == 0,
{
}

/// Packing what a packed picture shows gives the same bytes back.
pub proof fn packing_round_trips(gray: Seq<u8>, width: int, height: int)
    requires
        0 <= width,
        0 <= height,
        gray.len() == width * height,
    ensures
        packed(unpacked(packed(gray, width, height), width, height), width, height) == packed(
            gray,
            width,
            height,
        ),
{
    let once = packed(gray, width, height);
    let view = unpacked(once, width, height);
    let twice = packed(view, width, height);
    let s = stride_of(width);
    assert forall|i: int| 0 <= i < once.len() implies twice[i] == once[i] by {
        let y = i / s;
        let col = i % s;
        assert(s > 0) by (nonlinear_arith)
            requires
                i < s * height,
                0 <= i,
                0 <= height,
        ;
        assert(0 <= y < height && 0 <= col < s) by (nonlinear_arith)
            requires
                0 <= i < s * height,
                s > 0,
                y == i / s,
                col == i % s,
        ;
        lemma_same_level(gray, width, height, 2 * col, y);
        if 2 * col + 1 < width {
            lemma_same_level(gray, width, height, 2 * col + 1, y);
        }
    }
    assert(twice =~= once);
}

/// What a packed picture shows at a pixel has the level of the picture that was packed.
proof fn lemma_same_level(gray: Seq<u8>, width: int, height: int, x: int, y: int)
    requires
        0 <= x < width,
        0 <= y < height,
        gray.len() == width * height,
    ensures
        level_of(unpacked(packed(gray, width, height), width, height)[y * width + x]) == level_of(
            gray[y * width + x],
        ),
{
    lemma_within(width, height, x, y);
    lemma_fundamental_div_mod_converse(y * width + x, width, y, x);
    packing_keeps_levels(gray, width, height, x, y);
    shades_survive(gray[y * width + x]);
}

/// A short side takes few blocks.
proof fn lemma_few_blocks(length: u16, finest: u8)
    requires
        1 <= finest <= 4,
        length <= COVER_HEIGHT,
    ensures
        0 <= blocks_along(length, finest) <= 20,
        length <= COVER_WIDTH ==> blocks_along(length, finest) <= 12,
{
    if finest == 1 {
        assert(blocks_along(length, 1) == (length + 7) / 8);
    } else if finest == 2 {
        assert(blocks_along(length, 2) == 2 * ((length + 15) / 16));
    } else if finest == 3 {
        assert(blocks_along(length, 3) == 3 * ((length + 23) / 24));
    } else {
        assert(blocks_along(length, 4) == 4 * ((length + 31) / 32));
    }
}

/// Thumbnails of the size that is asked for are never turned down, as long as they are written the
/// ordinary way: in one scan, with factors of a byte and differences of the usual classes, and with
/// a first component that is the finest.
pub proof fn ordinary_thumbnails_are_decoded(jpeg: Seq<u8>, scan: ScanView)
    requires
        jpeg.len() <= FILE_LIMIT,
        first_scan(jpeg, 2, no_headers()) == Some(scan),
        !scan.frame.progressive,
        scan.frame.width <= COVER_WIDTH,
        scan.frame.height <= COVER_HEIGHT,
        first_across(scan.frame.sampling) == finest_across(scan.frame.sampling),
        1 <= finest_across(scan.frame.sampling) <= 4,
        1 <= finest_down(scan.frame.sampling) <= 4,
        scan.factor <= 255,
        scan.class <= 11,
        markers(jpeg, 0xDA, scan.at) == 0,
        markers(jpeg, 0xC4, scan.at) == 0,
    ensures
        fit_to_decode(jpeg),
{
    let wide = blocks_along(scan.frame.width, finest_across(scan.frame.sampling));
    let tall = blocks_along(scan.frame.height, finest_down(scan.frame.sampling));
    lemma_few_blocks(scan.frame.width, finest_across(scan.frame.sampling));
    lemma_few_blocks(scan.frame.height, finest_down(scan.frame.sampling));
    assert(wide * tall <= 12 * 20) by (nonlinear_arith)
        requires
            0 <= wide <= 12,
            0 <= tall <= 20,
    ;
    let mean = 2047 * scan.factor;
    assert((wide * tall) * mean <= 240 * (2047 * 255)) by (nonlinear_arith)
        requires
            wide * tall <= 240,
            0 <= mean <= 2047 * 255,
    ;
    assert(largest_mean(jpeg, scan) == 1 * ((wide * tall) * mean));
}

} // verus!
