use pocket_calibre::cover::CachedCover;
use pocket_calibre::jpeg::{is_fit_to_decode, read_headers, Colours};

const BASELINE: u8 = 0xC0;
const PROGRESSIVE: u8 = 0xC2;

fn sized_frame(code: u8, width: u16, height: u16, sampling: &[u8]) -> Vec<u8> {
    let count = sampling.len() as u8;
    let mut bytes = vec![0xFF, code, 0, 8 + 3 * count, 8];
    bytes.extend(height.to_be_bytes());
    bytes.extend(width.to_be_bytes());
    bytes.push(count);
    for (i, s) in sampling.iter().enumerate() {
        bytes.extend([i as u8 + 1, *s, 0]);
    }
    bytes
}

fn frame(code: u8, sampling: &[u8]) -> Vec<u8> {
    sized_frame(code, 16, 16, sampling)
}

fn scan(count: u8) -> Vec<u8> {
    let mut bytes = vec![0xFF, 0xDA, 0, 6 + 2 * count, count];
    for i in 0..count {
        bytes.extend([i + 1, 0]);
    }
    bytes.extend([0, 63, 0]);
    bytes
}

fn adobe(transform: u8) -> Vec<u8> {
    let mut bytes = vec![0xFF, 0xEE, 0, 14];
    bytes.extend(b"Adobe\0\0\0\0\0\0");
    bytes.push(transform);
    bytes
}

/// A quantization table with factors of one byte.
fn factors(first: u8) -> Vec<u8> {
    let mut bytes = vec![0xFF, 0xDB, 0, 67, 0, first];
    bytes.extend([1; 63]);
    bytes
}

/// A quantization table with factors of two bytes.
fn wide_factors(first: u16) -> Vec<u8> {
    let mut bytes = vec![0xFF, 0xDB, 0, 131, 0x10];
    bytes.extend(first.to_be_bytes());
    bytes.extend([1; 126]);
    bytes
}

/// A Huffman table with one code of each length from 1 on.
fn codes(kind: u8, symbols: &[u8]) -> Vec<u8> {
    let count = symbols.len();
    let mut bytes = vec![0xFF, 0xC4, 0, 19 + count as u8, kind];
    bytes.extend((1..=16).map(|length| u8::from(length <= count)));
    bytes.extend(symbols);
    bytes
}

fn file(parts: &[Vec<u8>]) -> Vec<u8> {
    let mut bytes = vec![0xFF, 0xD8];
    for part in parts {
        bytes.extend(part);
    }
    bytes
}

#[test]
fn headers_tell_the_frame_and_the_first_scan() {
    let bytes = file(&[
        factors(16),
        codes(0x00, &[3, 12]),
        sized_frame(PROGRESSIVE, 300, 200, &[0x22, 0x11, 0x11]),
        wide_factors(700),
        codes(0x10, &[0xF0, 0x53]),
        scan(1),
        scan(3),
    ]);
    let found = read_headers(&bytes).unwrap();
    assert!(found.frame.progressive);
    assert_eq!((found.frame.width, found.frame.height), (300, 200));
    assert_eq!(found.frame.sampling, [0x22, 0x11, 0x11]);
    assert_eq!(found.colours, Colours::YCbCr);
    assert_eq!((found.factor, found.class), (700, 12));
    assert_eq!(found.components, 1);
    assert_eq!(&bytes[found.at - 2..found.at], [0xFF, 0xDA]);
    assert_eq!(&bytes[found.at..], [&scan(1)[2..], &scan(3)[..]].concat());
}

#[test]
fn other_segments_are_stepped_over() {
    let comment = vec![0xFF, 0xFE, 0, 5, 0xFF, 0xDA, 0xFF];
    let padding = vec![0xFF, 0xFF, 0x00, 0x17, 0xFF];
    let short = vec![0xFF, 0xE0, 0, 6, b'J', b'F', b'I', b'F', 0xFF];
    let bytes = file(&[comment, short, padding, frame(BASELINE, &[0x11]), scan(1)]);
    let found = read_headers(&bytes).unwrap();
    assert!(!found.frame.progressive);
    assert_eq!(found.frame.sampling, [0x11]);
    assert_eq!(found.colours, Colours::Luma);
    assert_eq!(found.components, 1);
}

#[test]
fn broken_headers_lead_nowhere() {
    let one = frame(BASELINE, &[0x11]);
    assert!(read_headers(b"").is_none());
    assert!(read_headers(b"\xFF\xD8").is_none());
    assert!(read_headers(&file(&[scan(1)])).is_none());
    assert!(read_headers(&file(&[one.clone()])).is_none());
    assert!(read_headers(&file(&[one.clone(), one.clone(), scan(1)])).is_none());
    assert!(read_headers(&file(&[vec![0xFF, 0xFE, 0, 1], one.clone(), scan(1)])).is_none());
    assert!(read_headers(&file(&[vec![0xFF, 0xD9, 0, 2], one.clone(), scan(1)])).is_none());
    assert!(read_headers(&file(&[vec![0xFF, 0xFE, 9, 0], one.clone(), scan(1)])).is_none());
    let mut wrong = one.clone();
    wrong[9] = 2;
    assert!(read_headers(&file(&[wrong, scan(1)])).is_none());
    // The decoder reports all of these as errors.
    assert!(is_fit_to_decode(&file(&[scan(1)])));
    assert!(CachedCover::pack(&file(&[scan(1)])).is_err());
    assert!(CachedCover::pack(&file(&[one])).is_err());
}

#[test]
fn rows_are_laid_out_by_the_first_component() {
    let coarse_first = [0x11, 0x22, 0x11];
    let split = file(&[frame(BASELINE, &coarse_first), scan(1)]);
    assert!(!is_fit_to_decode(&split));
    assert_eq!(CachedCover::pack(&split).unwrap_err(), "unsupported JPEG file");
    assert!(is_fit_to_decode(&file(&[frame(BASELINE, &coarse_first), scan(3)])));
    assert!(!is_fit_to_decode(&file(&[frame(PROGRESSIVE, &coarse_first), scan(3)])));
    let fine_first = [0x22, 0x11, 0x12];
    assert!(is_fit_to_decode(&file(&[frame(BASELINE, &fine_first), scan(1)])));
    assert!(is_fit_to_decode(&file(&[frame(PROGRESSIVE, &fine_first), scan(3)])));
    // Only the sampling across counts.
    assert!(is_fit_to_decode(&file(&[frame(PROGRESSIVE, &[0x11, 0x12, 0x11]), scan(3)])));
}

#[test]
fn narrow_pictures_need_no_finest_component_first() {
    let coarse_first = [0x11, 0x21, 0x21];
    let narrow = |code| sized_frame(code, 8, 40, &coarse_first);
    assert!(is_fit_to_decode(&file(&[narrow(PROGRESSIVE), scan(1)])));
    assert!(is_fit_to_decode(&file(&[narrow(BASELINE), scan(1)])));
    assert!(!is_fit_to_decode(&file(&[sized_frame(BASELINE, 9, 40, &coarse_first), scan(1)])));
    // One that is to be doubled in both directions does not fit.
    let doubled = sized_frame(PROGRESSIVE, 8, 40, &[0x11, 0x22, 0x11]);
    assert!(!is_fit_to_decode(&file(&[doubled, scan(1)])));
}

#[test]
fn single_components_are_rounded_up_in_sixteen_bits() {
    let fit = |width, height, sampling| {
        is_fit_to_decode(&file(&[sized_frame(BASELINE, width, height, &[sampling]), scan(1)]))
    };
    assert!(!fit(65535, 8, 0x22));
    assert!(!fit(8, 65529, 0x21));
    assert!(fit(65528, 65528, 0x22));
    assert!(fit(65535, 8, 0x11));
    let progressive = sized_frame(PROGRESSIVE, 65535, 8, &[0x22]);
    assert!(is_fit_to_decode(&file(&[progressive, scan(1)])));
}

#[test]
fn progressive_colours_fit_the_components() {
    let four = [0x22, 0x11, 0x11, 0x22];
    let fit = |parts: &[Vec<u8>]| is_fit_to_decode(&file(parts));
    assert!(fit(&[adobe(2), frame(PROGRESSIVE, &four), scan(4)]));
    assert!(fit(&[adobe(1), frame(PROGRESSIVE, &four), scan(4)]));
    assert!(!fit(&[frame(PROGRESSIVE, &four), adobe(1), scan(4)]));
    assert!(fit(&[frame(PROGRESSIVE, &four), adobe(1), adobe(2), scan(4)]));
    assert!(!fit(&[frame(PROGRESSIVE, &four), scan(4), adobe(1), scan(1)]));
    assert!(fit(&[frame(PROGRESSIVE, &four), scan(4), adobe(2), scan(1)]));
    assert!(fit(&[frame(PROGRESSIVE, &[0x11; 4]), adobe(1), scan(4)]));
    assert!(fit(&[frame(BASELINE, &four), adobe(1), scan(4)]));
    assert!(fit(&[frame(PROGRESSIVE, &[0x11; 3]), adobe(2), scan(3)]));

    let pair = frame(PROGRESSIVE, &[0x11, 0x11]);
    assert!(!fit(&[adobe(2), pair.clone(), scan(2)]));
    assert!(CachedCover::pack(&file(&[adobe(2), pair.clone(), scan(2)])).is_err());
    assert!(fit(&[adobe(0), pair.clone(), scan(2)]));
    assert!(fit(&[pair, scan(2)]));

    let grey = frame(PROGRESSIVE, &[0x11]);
    assert!(fit(&[adobe(2), grey.clone(), scan(1)]));
    assert!(!fit(&[grey.clone(), adobe(2), scan(1)]));
    // The bytes of a marker within a comment are no segment.
    let comment = vec![0xFF, 0xFE, 0, 4, 0xFF, 0xEE];
    assert!(fit(&[grey, comment, scan(1)]));
}

#[test]
fn means_stay_in_range() {
    let fit = |parts: &[Vec<u8>]| is_fit_to_decode(&file(parts));
    let grey = |width, height| sized_frame(BASELINE, width, height, &[0x11]);
    let table = codes(0x00, &[0, 15]);
    // One block with the largest factor and difference is the most there is room for.
    assert!(fit(&[wide_factors(65535), table.clone(), grey(8, 8), scan(1)]));
    assert!(!fit(&[wide_factors(65535), table.clone(), grey(16, 8), scan(1)]));
    assert!(!fit(&[wide_factors(65535), table.clone(), grey(8, 8), scan(1), scan(1)]));
    let progressive = sized_frame(PROGRESSIVE, 16, 8, &[0x11]);
    assert!(fit(&[wide_factors(65535), table.clone(), progressive, scan(1)]));
    // Factors of a byte.
    assert!(fit(&[factors(255), table.clone(), grey(8 * 257, 8), scan(1)]));
    assert!(!fit(&[factors(255), table.clone(), grey(8 * 258, 8), scan(1)]));
    // The usual classes, and tables that come after the first scan.
    let usual = codes(0x00, &[0, 11]);
    assert!(fit(&[factors(16), usual.clone(), grey(1600, 2560), scan(1)]));
    assert!(!fit(&[factors(16), usual.clone(), grey(1600, 2560), scan(1), table]));
    // Blocks are counted up to whole units.
    let sampled = sized_frame(BASELINE, 8 * 4113, 8, &[0x22, 0x11, 0x11]);
    assert!(fit(&[factors(255), usual.clone(), grey(8 * 4113, 8), scan(1)]));
    assert!(!fit(&[factors(255), usual, sampled, scan(3)]));
}

#[test]
fn one_block_is_decoded_exactly() {
    // A difference of 200 in class 8, four times, over the middle grey: 128 + 800 / 8 = 228.
    let parts = |first| {
        file(&[
            factors(first),
            codes(0x00, &[0, 8]),
            codes(0x10, &[0]),
            sized_frame(BASELINE, 8, 8, &[0x11]),
            scan(1),
            vec![0b1011_0010, 0b0001_1111, 0xFF, 0xD9],
        ])
    };
    let cover = CachedCover::pack(&parts(4)).unwrap();
    assert_eq!((cover.width, cover.height), (8, 8));
    assert_eq!(cover.pixels, [0xEE; 32]);
    let cover = CachedCover::pack(&parts(1)).unwrap();
    assert_eq!(cover.pixels, [0x99; 32]);
}
