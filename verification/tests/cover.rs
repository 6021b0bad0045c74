use pocket_calibre::cover::{CachedCover, GrayImage, Rgb8Pixel};
use pocket_calibre::jpeg::{is_fit_to_decode, read_headers};

fn gray(width: u32, height: u32, raw: Vec<u8>) -> GrayImage {
    let picture = image::GrayImage::from_raw(width, height, raw).unwrap();
    let (width, height) = picture.dimensions();
    GrayImage { width, height, pixels: picture.into_raw() }
}

#[test]
fn cover_packing_round_trip() {
    // Width 3 is odd on purpose: the server preserves aspect ratio, so it
    // hands back whatever width fits, and rows still have to land on a
    // byte boundary.
    let gray = gray(3, 2, vec![0, 15, 255, 16, 240, 128]);
    let packed = CachedCover::from_gray(&gray);

    assert_eq!((packed.width, packed.height), (3, 2));
    // Two bytes per row rather than three for the whole image.
    assert_eq!(packed.pixels.len(), 4);

    assert_eq!(packed.level(0, 0), 0);
    assert_eq!(packed.level(1, 0), 0);
    assert_eq!(packed.level(2, 0), 15);
    assert_eq!(packed.level(0, 1), 1);
    assert_eq!(packed.level(1, 1), 15);
    assert_eq!(packed.level(2, 1), 8);

    // The padding nibble of an odd row must stay clear, or it would read
    // back as a stray dark pixel at the start of the next row.
    assert_eq!(packed.pixels[1] & 0x0f, 0);
}

#[test]
fn white_survives_the_round_trip() {
    let gray = gray(2, 1, vec![255, 0]);
    let packed = CachedCover::from_gray(&gray);

    // Duplicating the nibble is what keeps white at 255; a bare shift left
    // would cap it at 240 and tint every cover grey.
    let white = packed.level(0, 0);
    assert_eq!(white << 4 | white, 255);

    let black = packed.level(1, 0);
    assert_eq!(black << 4 | black, 0);
}

#[test]
fn pictures_come_back_in_sixteen_shades() {
    let packed = CachedCover::from_gray(&gray(3, 2, vec![0, 15, 255, 16, 240, 128]));
    let shades: Vec<u8> = packed.to_image().iter().map(|p| p.r).collect();
    assert_eq!(shades, [0, 0, 255, 17, 255, 136]);
    assert_eq!(packed.to_image()[5], Rgb8Pixel { r: 136, g: 136, b: 136 });
}

#[test]
fn an_empty_picture_packs_to_nothing() {
    let packed = CachedCover::from_gray(&GrayImage { width: 0, height: 4, pixels: Vec::new() });
    assert_eq!(packed.pixels.len(), 0);
    assert!(packed.to_image().is_empty());
}

#[test]
fn rows_take_whole_bytes() {
    assert_eq!(CachedCover::stride(0), 0);
    assert_eq!(CachedCover::stride(1), 1);
    assert_eq!(CachedCover::stride(88), 44);
    assert_eq!(CachedCover::stride(89), 45);
    assert_eq!(CachedCover::stride(u32::MAX), 1 << 31);
}

#[test]
fn a_thumbnail_is_decoded_and_packed() {
    let picture = image::GrayImage::from_pixel(5, 3, image::Luma([255u8]));
    let mut jpeg = Vec::new();
    image::codecs::jpeg::JpegEncoder::new_with_quality(&mut jpeg, 100)
        .encode_image(&picture)
        .unwrap();
    let cover = CachedCover::pack(&jpeg).unwrap();
    assert_eq!((cover.width, cover.height), (5, 3));
    assert_eq!(cover.pixels, [255, 255, 240, 255, 255, 240, 255, 255, 240]);
}

#[test]
fn what_is_no_jpeg_is_no_cover() {
    assert!(CachedCover::pack(b"").is_err());
    assert!(CachedCover::pack(b"<html>not found</html>").is_err());
}

fn encoded(colour: [u8; 3]) -> Vec<u8> {
    let picture = image::RgbImage::from_pixel(9, 4, image::Rgb(colour));
    let mut jpeg = Vec::new();
    image::codecs::jpeg::JpegEncoder::new_with_quality(&mut jpeg, 100)
        .encode_image(&picture)
        .unwrap();
    jpeg
}

#[test]
fn colours_become_their_luminance() {
    // 0.2126, 0.7152 and 0.0722 of 255 are 54, 182 and 18.
    for (colour, level) in [
        ([255, 0, 0], 3),
        ([0, 255, 0], 11),
        ([0, 0, 255], 1),
        ([255, 255, 255], 15),
        ([0, 0, 0], 0),
    ] {
        let cover = CachedCover::pack(&encoded(colour)).unwrap();
        assert_eq!((cover.width, cover.height), (9, 4));
        for y in 0..4 {
            for x in 0..9 {
                assert_eq!(cover.level(x, y), level);
            }
        }
    }
}

#[test]
fn ordinary_files_can_be_decoded() {
    let jpeg = encoded([10, 200, 90]);
    assert!(is_fit_to_decode(&jpeg));
    let scan = read_headers(&jpeg).unwrap();
    assert!(!scan.frame.progressive);
    assert_eq!((scan.frame.width, scan.frame.height), (9, 4));
    assert_eq!((scan.frame.sampling.len(), scan.components), (3, 3));
    assert_eq!((scan.factor, scan.class), (1, 11));
    assert!(CachedCover::pack(&jpeg).is_ok());
    assert!(CachedCover::pack(&jpeg[..jpeg.len() / 4]).is_err());
}

#[test]
fn thumbnails_of_any_quality_are_decoded() {
    for quality in [1, 20, 75, 100] {
        let picture = image::RgbImage::from_pixel(88, 132, image::Rgb([70, 80, 90]));
        let mut jpeg = Vec::new();
        image::codecs::jpeg::JpegEncoder::new_with_quality(&mut jpeg, quality)
            .encode_image(&picture)
            .unwrap();
        assert!(read_headers(&jpeg).unwrap().factor <= 255);
        let cover = CachedCover::pack(&jpeg).unwrap();
        assert_eq!((cover.width, cover.height), (88, 132));
    }
}

#[test]
fn grey_files_keep_their_values() {
    for value in [0u8, 15, 16, 100, 127, 128, 239, 240, 255] {
        let picture = image::GrayImage::from_pixel(8, 8, image::Luma([value]));
        let mut jpeg = Vec::new();
        image::codecs::jpeg::JpegEncoder::new_with_quality(&mut jpeg, 100)
            .encode_image(&picture)
            .unwrap();
        let cover = CachedCover::pack(&jpeg).unwrap();
        assert_eq!(cover.level(3, 5), value / 16);
    }
}
