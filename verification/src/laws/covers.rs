//! Laws of covers: from the file of the server to the picture in the row.
use vstd::arithmetic::div_mod::lemma_fundamental_div_mod_converse;
use vstd::prelude::*;

use crate::cover::{jpeg_picture, packing_keeps_levels, shade_of, shades_of, unpacked, CachedCover,
    GrayImage, Pixels, Rgb8Pixel};
use crate::jpeg::{blocks, blocks_along, finest_across, finest_down, first_scan, fit_to_decode,
    is_fit_to_decode, largest_difference, largest_mean, marker_here, markers, number_at, read_headers,
    Scan};

verus! {

/// The half byte that holds the pixel at `x`, `y`: rows begin with whole bytes, two pixels to a byte,
/// the left one in the high half.
pub open spec fn nibble(pixels: Seq<u8>, width: int, x: int, y: int) -> int {
    let byte = pixels[y * ((width + 1) / 2) + x / 2] as int;
    if x % 2 == 0 {
        byte / 16
    } else {
        byte % 16
    }
}

/// Whether a pixel lies within a picture.
pub open spec fn within(width: u32, height: u32, x: int, y: int) -> bool {
    0 <= x < width && 0 <= y < height
}

/// Where a pixel stands, row by row.
pub proof fn lemma_place(width: int, height: int, x: int, y: int)
    requires
        0 <= x < width,
        0 <= y < height,
    ensures
        0 <= y * width + x < width * height,
        (y * width + x) % width == x,
        (y * width + x) / width == y,
{
    assert(y * width + width <= width * height) by (nonlinear_arith)
        requires
            y + 1 <= height,
            width >= 0,
    ;
    assert(0 <= y * width) by (nonlinear_arith)
        requires
            0 <= y,
            0 <= width,
    ;
    lemma_fundamental_div_mod_converse(y * width + x, width, y, x);
}

/// A picture is kept in sixteen shades, every pixel in its place and its shade a sixteenth of its
/// grey value.
pub proof fn pictures_are_kept_in_sixteen_shades(gray: &GrayImage, r: CachedCover, x: int, y: int)
    requires
        call_ensures(CachedCover::from_gray, (gray,), r),
        gray.pixels@.len() == gray.width * gray.height,
    ensures
        r.width == gray.width,
        r.height == gray.height,
        within(r.width, r.height, x, y) ==> nibble(r.pixels@, r.width as int, x, y)
            == gray.pixels@[y * gray.width + x] as int / 16,
{
    if within(r.width, r.height, x, y) {
        packing_keeps_levels(gray.pixels@, gray.width as int, gray.height as int, x, y);
    }
}

/// The shade of a pixel is the one that is kept for it.
pub proof fn a_shade_is_the_one_kept(cover: &CachedCover, x: usize, y: usize, r: u8)
    requires
        call_ensures(CachedCover::level, (cover, x, y), r),
    ensures
        r == nibble(cover.pixels@, cover.width as int, x as int, y as int),
{
}

/// Whether a picture shows a cover: every pixel in its place, grey, and from black for shade 0 to
/// white for shade 15 in equal steps.
pub open spec fn shows_cover(pixels: Seq<Rgb8Pixel>, cover: CachedCover) -> bool {
    &&& pixels.len() == cover.width * cover.height
    &&& forall|x: int, y: int|
        #![trigger within(cover.width, cover.height, x, y)]
        within(cover.width, cover.height, x, y) ==> {
            let shade = 17 * nibble(cover.pixels@, cover.width as int, x, y);
            let pixel = pixels[y * cover.width + x];
            pixel.r == shade && pixel.g == shade && pixel.b == shade
        }
}

/// What a cover is shown as, pixel by pixel.
pub proof fn lemma_shows_cover(pixels: Seq<Rgb8Pixel>, cover: CachedCover)
    requires
        pixels.len() == cover.width * cover.height,
        forall|i: int|
            #![trigger pixels[i]]
            0 <= i < pixels.len() ==> ({
                let v = unpacked(cover.pixels@, cover.width as int, cover.height as int)[i];
                pixels[i] == Rgb8Pixel { r: v, g: v, b: v }
            }),
    ensures
        shows_cover(pixels, cover),
{
    let width = cover.width as int;
    let height = cover.height as int;
    assert forall|x: int, y: int|
        #![trigger within(cover.width, cover.height, x, y)]
        within(cover.width, cover.height, x, y) implies {
        let shade = 17 * nibble(cover.pixels@, width, x, y);
        let pixel = pixels[y * cover.width + x];
        pixel.r == shade && pixel.g == shade && pixel.b == shade
    } by {
        lemma_place(width, height, x, y);
        let i = y * width + x;
        assert(pixels[i].r == unpacked(cover.pixels@, width, height)[i]);
    }
}

/// A cover is expanded pixel by pixel, each in its place.
pub proof fn covers_expand_in_place(cover: &CachedCover, r: Vec<Rgb8Pixel>)
    requires
        call_ensures(CachedCover::to_image, (cover,), r),
    ensures
        shows_cover(r@, *cover),
{
    lemma_shows_cover(r@, *cover);
}

/// What is packed and expanded again shows every pixel in its place, less than a step of sixteen
/// off; white stays white and black stays black.
pub proof fn packed_pictures_look_like_themselves(
    gray: &GrayImage,
    cover: CachedCover,
    r: Vec<Rgb8Pixel>,
    i: int,
)
    requires
        call_ensures(CachedCover::from_gray, (gray,), cover),
        call_ensures(CachedCover::to_image, (&cover,), r),
        gray.pixels@.len() == gray.width * gray.height,
        0 <= i < gray.pixels@.len(),
    ensures
        r@.len() == gray.pixels@.len(),
        r@[i].r == r@[i].g && r@[i].g == r@[i].b,
        -16 < r@[i].r - gray.pixels@[i] < 16,
        gray.pixels@[i] == 255 ==> r@[i].r == 255,
        gray.pixels@[i] == 0 ==> r@[i].r == 0,
{
    let width = gray.width as int;
    let height = gray.height as int;
    let x = i % width;
    let y = i / width;
    assert(width > 0) by (nonlinear_arith)
        requires
            0 <= i < width * height,
            width >= 0,
    ;
    assert(0 <= x < width && 0 <= y < height && i == y * width + x) by (nonlinear_arith)
        requires
            0 <= i < width * height,
            width > 0,
            x == i % width,
            y == i / width,
    ;
    lemma_shows_cover(r@, cover);
    pictures_are_kept_in_sixteen_shades(gray, cover, x, y);
    assert(within(cover.width, cover.height, x, y));
}

/// A cover shows the picture that its file holds, in the size of the picture: the shade of a grey
/// pixel is a sixteenth of its value, that of a coloured one a sixteenth of its luminance, give or
/// take a step. A file that cannot be decoded gives none.
pub proof fn a_cover_shows_its_file(
    jpeg: &[u8],
    r: Result<CachedCover, String>,
    x: int,
    y: int,
)
    requires
        call_ensures(CachedCover::pack, (jpeg,), r),
    ensures
        r is Ok <==> fit_to_decode(jpeg@) && jpeg_picture(jpeg@) is Some,
        r matches Ok(cover) ==> {
            let (width, height, pixels) = jpeg_picture(jpeg@)->0;
            let shade = nibble(cover.pixels@, cover.width as int, x, y);
            let i = y * width + x;
            &&& cover.width == width
            &&& cover.height == height
            &&& within(width, height, x, y) ==> match pixels {
                Pixels::Grey(values) => shade == values[i] as int / 16,
                Pixels::Colour(colours) => {
                    let luminance = 2126 * colours[i].0 + 7152 * colours[i].1 + 722 * colours[i].2;
                    luminance - 170000 < 160000 * shade <= luminance + 10000
                },
            }
        },
{
    if let Ok(cover) = r {
        if within(cover.width, cover.height, x, y) {
            lemma_packs(cover, jpeg@, x, y);
        }
    }
}

/// A cover of a file has the shades of its picture.
pub proof fn lemma_packs(cover: CachedCover, jpeg: Seq<u8>, x: int, y: int)
    requires
        cover.packs_jpeg(jpeg),
        within(cover.width, cover.height, x, y),
    ensures
        ({
            let (width, height, pixels) = jpeg_picture(jpeg)->0;
            let shade = nibble(cover.pixels@, cover.width as int, x, y);
            let i = y * width + x;
            match pixels {
                Pixels::Grey(values) => shade == values[i] as int / 16,
                Pixels::Colour(colours) => {
                    let luminance = 2126 * colours[i].0 + 7152 * colours[i].1 + 722 * colours[i].2;
                    luminance - 170000 < 160000 * shade <= luminance + 10000
                },
            }
        }),
{
    let (width, height, pixels) = jpeg_picture(jpeg)->0;
    let gray = choose|gray: Seq<u8>| shades_of(gray, pixels) && #[trigger] cover.packs(gray);
    lemma_place(width as int, height as int, x, y);
    packing_keeps_levels(gray, width as int, height as int, x, y);
    let i = y * width + x;
    if let Pixels::Colour(colours) = pixels {
        assert(shade_of(gray[i], colours[i]));
    }
}

/// Whether the first component is the finest across.
pub open spec fn finest_first(sampling: Seq<u8>) -> bool {
    &&& sampling.len() > 0
    &&& forall|i: int| 0 <= i < sampling.len() ==> #[trigger] sampling[i] / 16 <= sampling[0] / 16
    &&& forall|i: int| 0 <= i < sampling.len() ==> 1 <= #[trigger] sampling[i] / 16 <= 4
    &&& forall|i: int| 0 <= i < sampling.len() ==> 1 <= #[trigger] sampling[i] % 16 <= 4
}

proof fn lemma_finest(sampling: Seq<u8>)
    requires
        forall|i: int| 0 <= i < sampling.len() ==> 1 <= #[trigger] sampling[i] / 16 <= 4,
        forall|i: int| 0 <= i < sampling.len() ==> 1 <= #[trigger] sampling[i] % 16 <= 4,
    ensures
        1 <= finest_across(sampling) <= 4,
        1 <= finest_down(sampling) <= 4,
        sampling.len() > 0 ==> exists|i: int|
            0 <= i < sampling.len() && #[trigger] sampling[i] / 16 == finest_across(sampling),
        forall|i: int|
            0 <= i < sampling.len() ==> #[trigger] sampling[i] / 16 <= finest_across(sampling),
    decreases sampling.len(),
{
    if sampling.len() > 0 {
        let front = sampling.drop_last();
        assert forall|i: int| 0 <= i < front.len() implies 1 <= #[trigger] front[i] / 16 <= 4 && 1
            <= front[i] % 16 <= 4 by {
            assert(front[i] == sampling[i]);
        }
        lemma_finest(front);
        let last = sampling[sampling.len() - 1];
        assert(1 <= last / 16 <= 4 && 1 <= last % 16 <= 4);
        if front.len() > 0 && finest_across(front) >= last / 16 {
            let i = choose|i: int|
                0 <= i < front.len() && #[trigger] front[i] / 16 == finest_across(front);
            assert(sampling[i] / 16 == finest_across(sampling));
        } else {
            assert(sampling[sampling.len() - 1] / 16 == finest_across(sampling));
        }
        assert forall|i: int| 0 <= i < sampling.len() implies #[trigger] sampling[i] / 16
            <= finest_across(sampling) by {
            if i < front.len() {
                assert(front[i] / 16 <= finest_across(front));
            }
        }
    }
}

/// Ordinary files are handed to the decoder: those whose first component is the finest, be they
/// progressive and of three components, or else of up to 500 by 500 pixels, written in one scan with
/// factors of a byte and differences of the usual classes.
pub proof fn ordinary_files_are_fit(jpeg: &[u8], scan: Scan, r: bool)
    requires
        call_ensures(read_headers, (jpeg,), Some(scan)),
        call_ensures(is_fit_to_decode, (jpeg,), r),
        jpeg@.len() <= 0x7fff_ffff,
        finest_first(scan.frame.sampling@),
    ensures
        scan.frame.progressive && scan.frame.sampling@.len() == 3 ==> r,
        !scan.frame.progressive && scan.frame.width <= 500 && scan.frame.height <= 500 && scan.factor
            <= 255 && scan.class <= 11 && (forall|i: int|
            scan.at <= i < jpeg@.len() - 1 && #[trigger] jpeg@[i] == 0xFF ==> jpeg@[i + 1] != 0xDA
                && jpeg@[i + 1] != 0xC4) ==> r,
{
    let sampling = scan.frame.sampling@;
    lemma_finest(sampling);
    let k = choose|k: int|
        0 <= k < sampling.len() && #[trigger] sampling[k] / 16 == finest_across(sampling);
    assert(sampling[k] / 16 <= sampling[0] / 16 && sampling[0] / 16 <= finest_across(sampling));
    if !scan.frame.progressive && scan.frame.width <= 500 && scan.frame.height <= 500 && scan.factor
        <= 255 && scan.class <= 11 && (forall|i: int|
        scan.at <= i < jpeg@.len() - 1 && #[trigger] jpeg@[i] == 0xFF ==> jpeg@[i + 1] != 0xDA
            && jpeg@[i + 1] != 0xC4) {
        lemma_no_markers(jpeg@, 0xDA, scan.at as nat);
        lemma_no_markers(jpeg@, 0xC4, scan.at as nat);
        let wide = blocks_along(scan.frame.width, finest_across(sampling));
        let tall = blocks_along(scan.frame.height, finest_down(sampling));
        lemma_blocks(scan.frame.width, finest_across(sampling));
        lemma_blocks(scan.frame.height, finest_down(sampling));
        assert(0 <= wide * tall <= 64 * 64) by (nonlinear_arith)
            requires
                0 <= wide <= 64,
                0 <= tall <= 64,
        ;
        let mean = 2047 * scan.factor;
        assert((wide * tall) * mean <= 4096 * (2047 * 255)) by (nonlinear_arith)
            requires
                0 <= wide * tall <= 4096,
                0 <= mean <= 2047 * 255,
        ;
        assert(largest_mean(jpeg@, scan@) == 1 * ((wide * tall) * mean));
    }
}

proof fn lemma_blocks(length: u16, finest: u8)
    requires
        1 <= finest <= 4,
        length <= 500,
    ensures
        0 <= blocks_along(length, finest) <= 64,
{
    if finest == 1 {
        assert(blocks_along(length, 1) == (length + 7) / 8);
    } else if finest == 2 {
        assert(blocks_along(length, 2) == 2 * ((length + 15) / 16));
    } else if finest == 3 {
        assert(blocks_along(length, 3) == 3 * ((length + 23) / 24));
    } else {
        assert(blocks_along(length, 4) == 4 * ((length + 31) / 32));
    }
}

proof fn lemma_no_markers(jpeg: Seq<u8>, code: u8, at: nat)
    requires
        forall|i: int|
            at <= i < jpeg.len() - 1 && #[trigger] jpeg[i] == 0xFF ==> jpeg[i + 1] != code,
    ensures
        markers(jpeg, code, at) == 0,
    decreases jpeg.len() - at,
{
    if at + 1 < jpeg.len() {
        lemma_no_markers(jpeg, code, at + 1);
        assert(jpeg[at as int] == 0xFF ==> jpeg[at as int + 1] != code);
    }
}

/// The sum of numbers.
pub open spec fn sum(numbers: Seq<int>) -> int
    decreases numbers.len(),
{
    if numbers.len() == 0 {
        0
    } else {
        sum(numbers.drop_last()) + numbers.last()
    }
}

proof fn lemma_sum(numbers: Seq<int>, limit: int)
    requires
        limit >= 0,
        forall|i: int| 0 <= i < numbers.len() ==> -limit <= #[trigger] numbers[i] <= limit,
    ensures
        -(numbers.len() * limit) <= sum(numbers) <= numbers.len() * limit,
    decreases numbers.len(),
{
    if numbers.len() > 0 {
        let front = numbers.drop_last();
        assert forall|i: int| 0 <= i < front.len() implies -limit <= #[trigger] front[i] <= limit by {
            assert(front[i] == numbers[i]);
        }
        lemma_sum(front, limit);
        assert(-limit <= numbers[numbers.len() - 1] <= limit);
        assert(numbers.len() * limit == front.len() * limit + limit) by (nonlinear_arith)
            requires
                numbers.len() == front.len() + 1,
        ;
    } else {
        assert(numbers.len() * limit == 0) by (nonlinear_arith)
            requires
                numbers.len() == 0,
        ;
    }
}

/// In a file that is handed to the decoder and is not progressive, no mean of a block leaves 32 bits,
/// and it can be rounded within them: not after any number of differences that its scans can hold.
pub proof fn means_stay_within_32_bits(
    jpeg: &[u8],
    scan: Scan,
    r: bool,
    differences: Seq<int>,
    class: u8,
)
    requires
        call_ensures(read_headers, (jpeg,), Some(scan)),
        call_ensures(is_fit_to_decode, (jpeg,), r),
        r,
        !scan.frame.progressive,
        class == if markers(jpeg@, 0xC4, scan.at as nat) > 0 {
            15
        } else {
            scan.class
        },
        differences.len() <= (1 + markers(jpeg@, 0xDA, scan.at as nat)) * blocks(scan.frame@),
        forall|i: int|
            0 <= i < differences.len() ==> -largest_difference(class) <= #[trigger] differences[i]
                <= largest_difference(class),
    ensures
        i32::MIN <= sum(differences) * scan.factor,
        sum(differences) * scan.factor + 1028 <= i32::MAX,
{
    let most = largest_difference(class);
    let n = differences.len() as int;
    let count = (1 + markers(jpeg@, 0xDA, scan.at as nat)) * blocks(scan.frame@);
    let factor = scan.factor as int;
    lemma_sum(differences, most);
    assert(n * most <= count * most) by (nonlinear_arith)
        requires
            0 <= n <= count,
            most >= 0,
    ;
    let total = sum(differences);
    assert(-((count * most) * factor) <= total * factor <= (count * most) * factor)
        by (nonlinear_arith)
        requires
            -(count * most) <= total <= count * most,
            factor >= 0,
    ;
    let scans = 1 + markers(jpeg@, 0xDA, scan.at as nat) as int;
    let area = blocks(scan.frame@);
    assert(((scans * area) * most) * factor == scans * (area * (most * factor))) by (nonlinear_arith);
    assert(largest_mean(jpeg@, scan@) == scans * (area * (most * factor)));
}

/// A frame is read as it stands in the file: how it is coded, its size and the sampling of its
/// components; and so is the number of components in the scan that follows.
pub proof fn a_frame_is_read_as_it_stands(jpeg: &[u8], r: Option<Scan>)
    requires
        call_ensures(read_headers, (jpeg,), r),
        jpeg@.len() > 11,
        jpeg@[2] == 0xFF,
        jpeg@[3] == 0xC0 || jpeg@[3] == 0xC1 || jpeg@[3] == 0xC2,
        jpeg@[4] * 256 + jpeg@[5] == 8 + 3 * jpeg@[11],
        jpeg@.len() >= 12 + 3 * jpeg@[11] + 5,
        jpeg@[12 + 3 * jpeg@[11]] == 0xFF,
        jpeg@[13 + 3 * jpeg@[11]] == 0xDA,
    ensures
        r matches Some(scan) && {
            &&& scan.frame.progressive <==> jpeg@[3] == 0xC2
            &&& scan.frame.height == jpeg@[7] * 256 + jpeg@[8]
            &&& scan.frame.width == jpeg@[9] * 256 + jpeg@[10]
            &&& scan.frame.sampling@.len() == jpeg@[11]
            &&& forall|i: int|
                0 <= i < jpeg@[11] ==> #[trigger] scan.frame.sampling@[i] == jpeg@[13 + 3 * i]
            &&& scan.components == jpeg@[16 + 3 * jpeg@[11]]
            &&& scan.at == 14 + 3 * jpeg@[11]
        },
{
    reveal_with_fuel(first_scan, 3);
    let n = jpeg@[11] as int;
    assert(number_at(jpeg@, 4) == 8 + 3 * n);
    assert(marker_here(jpeg@, 2));
    assert(marker_here(jpeg@, 12 + 3 * n));
}

} // verus!
