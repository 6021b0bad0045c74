//! The headers of a JPEG file, read as far as its first scan.
//!
//! The decoder is made for pictures as they are written in practice. On a few others it panics: its
//! buffers do not fit, or its arithmetic overflows in a build that checks it. The headers tell these
//! apart, so that they are looked at before a file is handed to the decoder.
use vstd::prelude::*;

verus! {

/// What the samples of the components stand for.
#[derive(Debug, Clone, Copy, PartialEq, Eq, Structural)]
pub enum Colours {
    YCbCr,
    Luma,
    Cmyk,
    Ycck,
}

/// The frame of a picture: whether it is coded progressively, its size, and how finely each of its
/// components is sampled.
#[derive(Debug)]
pub struct Frame {
    pub progressive: bool,
    pub width: u16,
    pub height: u16,
    pub sampling: Vec<u8>,
}

/// The frame of a picture.
#[verifier::ext_equal]
pub struct FrameView {
    pub progressive: bool,
    pub width: u16,
    pub height: u16,
    pub sampling: Seq<u8>,
}

impl View for Frame {
    type V = FrameView;

    open spec fn view(&self) -> FrameView {
        FrameView {
            progressive: self.progressive,
            width: self.width,
            height: self.height,
            sampling: self.sampling@,
        }
    }
}

/// What the headers have told so far: the frame, what its samples stand for, the largest factor of
/// the means of blocks, and the largest class of their differences.
#[derive(Debug)]
pub struct Headers {
    pub frame: Option<Frame>,
    pub colours: Colours,
    pub factor: u16,
    pub class: u8,
}

/// What the headers have told so far.
#[verifier::ext_equal]
pub struct HeadersView {
    pub frame: Option<FrameView>,
    pub colours: Colours,
    pub factor: u16,
    pub class: u8,
}

impl View for Headers {
    type V = HeadersView;

    open spec fn view(&self) -> HeadersView {
        HeadersView {
            frame: match self.frame {
                Some(frame) => Some(frame@),
                None => None,
            },
            colours: self.colours,
            factor: self.factor,
            class: self.class,
        }
    }
}

/// The first scan of a file: the headers before it, how many of the components it holds, and where
/// its own header begins.
#[derive(Debug)]
pub struct Scan {
    pub frame: Frame,
    pub colours: Colours,
    pub factor: u16,
    pub class: u8,
    pub components: u8,
    pub at: usize,
}

/// The first scan of a file.
#[verifier::ext_equal]
pub struct ScanView {
    pub frame: FrameView,
    pub colours: Colours,
    pub factor: u16,
    pub class: u8,
    pub components: u8,
    pub at: nat,
}

impl View for Scan {
    type V = ScanView;

    open spec fn view(&self) -> ScanView {
        ScanView {
            frame: self.frame@,
            colours: self.colours,
            factor: self.factor,
            class: self.class,
            components: self.components,
            at: self.at as nat,
        }
    }
}

/// How finely a component is sampled across: the high half of its byte.
pub open spec fn across(sampling: u8) -> u8 {
    sampling / 16
}

/// How finely a component is sampled down: the low half of its byte.
pub open spec fn down(sampling: u8) -> u8 {
    sampling % 16
}

/// A component with one sample per unit in both directions.
pub const PLAIN: u8 = 0x11;

/// The greater of two numbers.
pub open spec fn greater(a: int, b: int) -> int {
    if a >= b {
        a
    } else {
        b
    }
}

/// The greatest byte; 0 where there is none.
pub open spec fn greatest(bytes: Seq<u8>) -> u8
    decreases bytes.len(),
{
    if bytes.len() == 0 {
        0
    } else {
        greater(greatest(bytes.drop_last()) as int, bytes.last() as int) as u8
    }
}

/// The sum of the bytes.
pub open spec fn total(bytes: Seq<u8>) -> nat
    decreases bytes.len(),
{
    if bytes.len() == 0 {
        0
    } else {
        total(bytes.drop_last()) + bytes.last() as nat
    }
}

/// Whether a marker begins here. Bytes of padding do not make one.
pub open spec fn marker_here(jpeg: Seq<u8>, at: int) -> bool {
    jpeg[at] == 0xFF && jpeg[at + 1] != 0xFF && jpeg[at + 1] != 0
}

/// The number in two bytes, the high one first.
pub open spec fn number_at(jpeg: Seq<u8>, at: int) -> u16 {
    (jpeg[at] * 256 + jpeg[at + 1]) as u16
}

/// How many bytes the decoder steps over for a segment of the given size: it looks for a name of
/// five bytes in one kind, though there be room for four.
pub open spec fn stepped_over(code: u8, size: u16) -> int {
    if code == 0xE0 && size == 6 {
        7
    } else {
        size as int
    }
}

/// The frame whose header begins at `at`.
pub open spec fn frame_at(jpeg: Seq<u8>, progressive: bool, at: int) -> FrameView {
    FrameView {
        progressive,
        width: number_at(jpeg, at + 5),
        height: number_at(jpeg, at + 3),
        sampling: Seq::new(jpeg[at + 7] as nat, |i: int| jpeg[at + 9 + 3 * i]),
    }
}

/// What the samples stand for once the number of components is known.
pub open spec fn frame_colours(colours: Colours, count: u8) -> Colours {
    if count == 1 {
        Colours::Luma
    } else if count == 4 && colours == Colours::YCbCr {
        Colours::Cmyk
    } else {
        colours
    }
}

/// Whether the name of the segment on colours stands here.
pub open spec fn adobe_here(jpeg: Seq<u8>, at: int) -> bool {
    &&& at + 5 <= jpeg.len()
    &&& jpeg[at] == 0x41
    &&& jpeg[at + 1] == 0x64
    &&& jpeg[at + 2] == 0x6F
    &&& jpeg[at + 3] == 0x62
    &&& jpeg[at + 4] == 0x65
}

/// What the samples stand for after the segment on colours that begins at `at`.
pub open spec fn adobe_colours(jpeg: Seq<u8>, at: int, size: u16, colours: Colours) -> Colours {
    if size < 14 || !adobe_here(jpeg, at + 2) {
        colours
    } else if jpeg[at + 13] == 0 {
        Colours::Cmyk
    } else if jpeg[at + 13] == 1 {
        Colours::YCbCr
    } else if jpeg[at + 13] == 2 {
        Colours::Ycck
    } else {
        colours
    }
}

/// The largest factor of the means of blocks in the quantization tables from `at` to `end`.
pub open spec fn largest_factor(jpeg: Seq<u8>, at: int, end: int) -> u16
    decreases end - at,
{
    if at >= end {
        0
    } else if jpeg[at] / 16 == 0 && at + 65 <= end {
        greater(jpeg[at + 1] as int, largest_factor(jpeg, at + 65, end) as int) as u16
    } else if jpeg[at] / 16 == 1 && at + 129 <= end {
        greater(number_at(jpeg, at + 1) as int, largest_factor(jpeg, at + 129, end) as int) as u16
    } else {
        0
    }
}

/// The largest class of differences in the Huffman tables from `at` to `end`.
pub open spec fn largest_class(jpeg: Seq<u8>, at: int, end: int) -> u8
    decreases end - at,
{
    if end - at <= 16 {
        0
    } else {
        let next = at + 17 + total(jpeg.subrange(at + 1, at + 17));
        if next > end {
            0
        } else {
            let here = if jpeg[at] / 16 == 0 {
                greatest(jpeg.subrange(at + 17, next))
            } else {
                0
            };
            greater(here as int, largest_class(jpeg, next, end) as int) as u8
        }
    }
}

/// What the headers have told before any of them.
pub open spec fn no_headers() -> HeadersView {
    HeadersView { frame: None, colours: Colours::YCbCr, factor: 0, class: 0 }
}

/// What the headers have told after a segment that begins at `at`; nothing where the decoder gives
/// the file up.
pub open spec fn after_segment(
    jpeg: Seq<u8>,
    code: u8,
    at: int,
    size: u16,
    h: HeadersView,
) -> Option<HeadersView> {
    if code == 0xC0 || code == 0xC1 || code == 0xC2 {
        if h.frame is Some || size < 8 || size != 8 + 3 * jpeg[at + 7] {
            None
        } else {
            Some(
                HeadersView {
                    frame: Some(frame_at(jpeg, code == 0xC2, at)),
                    colours: frame_colours(h.colours, jpeg[at + 7]),
                    ..h
                },
            )
        }
    } else if code == 0xDB {
        let found = largest_factor(jpeg, at + 2, at + size);
        Some(HeadersView { factor: greater(h.factor as int, found as int) as u16, ..h })
    } else if code == 0xC4 {
        let found = largest_class(jpeg, at + 2, at + size);
        Some(HeadersView { class: greater(h.class as int, found as int) as u8, ..h })
    } else if code == 0xEE {
        Some(HeadersView { colours: adobe_colours(jpeg, at, size, h.colours), ..h })
    } else {
        Some(h)
    }
}

/// The first scan of a file, reading from `at` on; nothing where the decoder gives the file up
/// before it comes to a scan.
pub open spec fn first_scan(jpeg: Seq<u8>, at: nat, h: HeadersView) -> Option<ScanView>
    decreases jpeg.len() - at,
{
    let data: int = at as int + 2;
    if data > jpeg.len() {
        None
    } else if !marker_here(jpeg, at as int) {
        first_scan(jpeg, at + 1, h)
    } else if data + 2 > jpeg.len() {
        None
    } else {
        let code = jpeg[data - 1];
        let size = number_at(jpeg, data);
        let over = stepped_over(code, size);
        if code == 0xDA {
            match h.frame {
                Some(frame) if data + 3 <= jpeg.len() => Some(
                    ScanView {
                        frame,
                        colours: h.colours,
                        factor: h.factor,
                        class: h.class,
                        components: jpeg[data + 2],
                        at: data as nat,
                    },
                ),
                _ => None,
            }
        } else if code == 0xD9 || code == 0xCC || code == 0xDC || size < 2 || data + over
            > jpeg.len() {
            None
        } else {
            match after_segment(jpeg, code, data, size, h) {
                Some(then) => first_scan(jpeg, (data + over) as nat, then),
                None => None,
            }
        }
    }
}

/// How finely the finest component is sampled across.
pub open spec fn finest_across(sampling: Seq<u8>) -> u8
    decreases sampling.len(),
{
    if sampling.len() == 0 {
        1
    } else {
        greater(finest_across(sampling.drop_last()) as int, across(sampling.last()) as int) as u8
    }
}

/// How finely the finest component is sampled down.
pub open spec fn finest_down(sampling: Seq<u8>) -> u8
    decreases sampling.len(),
{
    if sampling.len() == 0 {
        1
    } else {
        greater(finest_down(sampling.drop_last()) as int, down(sampling.last()) as int) as u8
    }
}

/// How finely the first component is sampled across.
pub open spec fn first_across(sampling: Seq<u8>) -> u8 {
    if sampling.len() == 0 {
        0
    } else {
        across(sampling[0])
    }
}

/// Whether a component is to be doubled in both directions.
pub open spec fn doubled(sampling: u8, wide: u8, tall: u8) -> bool {
    wide == 2 * across(sampling) && 2 * down(sampling) <= tall < 3 * down(sampling)
}

/// Whether some component is to be doubled in both directions.
pub open spec fn some_doubled(sampling: Seq<u8>) -> bool {
    exists|i: int|
        0 <= i < sampling.len() && doubled(
            #[trigger] sampling[i],
            finest_across(sampling),
            finest_down(sampling),
        )
}

/// Whether some component has more than one sample per unit.
pub open spec fn subsampled(sampling: Seq<u8>) -> bool {
    exists|i: int| 0 <= i < sampling.len() && #[trigger] sampling[i] != PLAIN
}

/// Whether the rows of all components fit the buffers, which are laid out by the first: it is the
/// finest across, or all components come in one scan, and not progressively, or none is to be
/// doubled in both directions. Where they come one by one, the picture must then be so narrow that
/// one unit holds a row.
pub open spec fn rows_fit(scan: ScanView) -> bool {
    let frame = scan.frame;
    ||| first_across(frame.sampling) == finest_across(frame.sampling)
    ||| !frame.progressive && scan.components == frame.sampling.len()
    ||| !some_doubled(frame.sampling) && (frame.progressive || frame.width <= 8 * first_across(
        frame.sampling,
    ))
}

/// Whether the size of a picture of a single component, not plain, can be rounded up in 16 bits.
pub open spec fn size_fits(frame: FrameView) -> bool {
    frame.progressive || frame.sampling.len() != 1 || !subsampled(frame.sampling) || (frame.width
        <= 65528 && frame.height <= 65528)
}

/// Whether the bytes from `at` on hold a segment that turns the samples to luminance and colour.
pub open spec fn turned_here(jpeg: Seq<u8>, at: int) -> bool {
    &&& at + 16 <= jpeg.len()
    &&& jpeg[at] == 0xFF
    &&& jpeg[at + 1] == 0xEE
    &&& adobe_here(jpeg, at + 4)
    &&& jpeg[at + 15] == 1
}

/// Whether such a segment may stand anywhere from `at` on.
pub open spec fn turned(jpeg: Seq<u8>, at: nat) -> bool {
    exists|i: int| at <= i && #[trigger] turned_here(jpeg, i)
}

/// Whether a progressive frame has the components that its colours ask for: four at several
/// samplings are never taken for three, and fewer than three never for four.
pub open spec fn colours_fit(jpeg: Seq<u8>, scan: ScanView) -> bool {
    let count = scan.frame.sampling.len();
    scan.frame.progressive ==> {
        &&& count < 3 ==> scan.colours != Colours::Ycck
        &&& count == 4 && subsampled(scan.frame.sampling) ==> scan.colours != Colours::YCbCr
            && !turned(jpeg, scan.at)
    }
}

/// How often the marker of the given code may stand from `at` on.
pub open spec fn markers(jpeg: Seq<u8>, code: u8, at: nat) -> nat
    decreases jpeg.len() - at,
{
    if at + 1 >= jpeg.len() {
        0
    } else {
        let here: nat = if jpeg[at as int] == 0xFF && jpeg[at as int + 1] == code {
            1
        } else {
            0
        };
        here + markers(jpeg, code, at + 1)
    }
}

/// Blocks along a side of the given length, where the finest component has `finest` per unit.
pub open spec fn blocks_along(length: u16, finest: u8) -> int {
    finest * ((length + 8 * finest - 1) / (8 * finest as int))
}

/// Blocks of the finest component.
pub open spec fn blocks(frame: FrameView) -> int {
    blocks_along(frame.width, finest_across(frame.sampling)) * blocks_along(
        frame.height,
        finest_down(frame.sampling),
    )
}

/// The largest difference of a class; the tables in use where there are none have the class 11.
pub open spec fn largest_difference(class: u8) -> int {
    if class <= 11 {
        2047
    } else if class == 12 {
        4095
    } else if class == 13 {
        8191
    } else if class == 14 {
        16383
    } else {
        32767
    }
}

/// The largest mean that the blocks of a picture can come to: each difference adds to the mean
/// before it, in each scan. Tables after the first scan may bring any class.
pub open spec fn largest_mean(jpeg: Seq<u8>, scan: ScanView) -> int {
    let class = if markers(jpeg, 0xC4, scan.at) > 0 {
        15
    } else {
        scan.class
    };
    (1 + markers(jpeg, 0xDA, scan.at)) * (blocks(scan.frame) * (largest_difference(class)
        * scan.factor))
}

/// The largest mean that the decoder can round.
pub const MEAN_LIMIT: u32 = 0x7FFF_FBFB;

/// Whether the means of the blocks stay in range. Where blocks come progressively they are cut to
/// 16 bits.
pub open spec fn means_fit(jpeg: Seq<u8>, scan: ScanView) -> bool {
    scan.frame.progressive || largest_mean(jpeg, scan) <= MEAN_LIMIT
}

/// The longest file: the decoder counts bytes in 31 bits.
pub const FILE_LIMIT: usize = 0x7FFF_FFFF;

/// Whether the decoder can be handed a file: it gives it up before the first scan, or the picture
/// fits its buffers and its arithmetic.
pub open spec fn fit_to_decode(jpeg: Seq<u8>) -> bool {
    &&& jpeg.len() <= FILE_LIMIT
    &&& match first_scan(jpeg, 2, no_headers()) {
        Some(scan) => rows_fit(scan) && size_fits(scan.frame) && colours_fit(jpeg, scan)
            && means_fit(jpeg, scan),
        None => true,
    }
}

fn bigger(a: u8, b: u8) -> (r: u8)
    ensures
        r == greater(a as int, b as int),
{
    if a >= b {
        a
    } else {
        b
    }
}

fn number(jpeg: &[u8], at: usize) -> (r: u16)
    requires
        at + 2 <= jpeg@.len(),
    ensures
        r == number_at(jpeg@, at as int),
{
    assert(jpeg.len() == jpeg@.len());
    jpeg[at] as u16 * 256 + jpeg[at + 1] as u16
}

/// The sampling of the components of a frame.
fn read_sampling(jpeg: &[u8], data: usize, count: u8) -> (r: Vec<u8>)
    requires
        data + 8 + 3 * count <= jpeg@.len(),
    ensures
        r@ == Seq::new(count as nat, |i: int| jpeg@[data + 9 + 3 * i]),
{
    let mut sampling: Vec<u8> = Vec::new();
    for i in 0..count
        invariant
            data + 8 + 3 * count <= jpeg@.len(),
            sampling@ == Seq::new(i as nat, |k: int| jpeg@[data + 9 + 3 * k]),
    {
        assert(jpeg.len() == jpeg@.len());
        let step: usize = 3 * (i as usize);
        sampling.push(jpeg[data + 9 + step]);
        assert(sampling@ =~= Seq::new((i + 1) as nat, |k: int| jpeg@[data + 9 + 3 * k]));
    }
    sampling
}

fn is_adobe_here(jpeg: &[u8], at: usize) -> (r: bool)
    requires
        at <= jpeg@.len(),
    ensures
        r == adobe_here(jpeg@, at as int),
{
    assert(jpeg.len() == jpeg@.len());
    jpeg.len() - at >= 5 && jpeg[at] == 0x41 && jpeg[at + 1] == 0x64 && jpeg[at + 2] == 0x6F
        && jpeg[at + 3] == 0x62 && jpeg[at + 4] == 0x65
}

fn read_colours(jpeg: &[u8], at: usize, size: u16, colours: Colours) -> (r: Colours)
    requires
        size >= 2,
        at + size <= jpeg@.len(),
    ensures
        r == adobe_colours(jpeg@, at as int, size, colours),
{
    assert(jpeg.len() == jpeg@.len());
    if size < 14 || !is_adobe_here(jpeg, at + 2) {
        return colours;
    }
    match jpeg[at + 13] {
        0 => Colours::Cmyk,
        1 => Colours::YCbCr,
        2 => Colours::Ycck,
        _ => colours,
    }
}

/// The largest factor in the quantization tables from `start` to `end`.
fn read_factor(jpeg: &[u8], start: usize, end: usize) -> (r: u16)
    requires
        start <= end <= jpeg@.len(),
    ensures
        r == largest_factor(jpeg@, start as int, end as int),
{
    assert(jpeg.len() == jpeg@.len());
    let mut at: usize = start;
    let mut found: u16 = 0;
    while at < end
        invariant
            jpeg.len() == jpeg@.len(),
            start <= at <= end <= jpeg@.len(),
            largest_factor(jpeg@, start as int, end as int) == greater(
                found as int,
                largest_factor(jpeg@, at as int, end as int) as int,
            ),
        decreases end - at,
    {
        let wide = jpeg[at] / 16;
        let (value, length): (u16, usize) = if wide == 0 && end - at >= 65 {
            (jpeg[at + 1] as u16, 65)
        } else if wide == 1 && end - at >= 129 {
            (number(jpeg, at + 1), 129)
        } else {
            return found;
        };
        if value > found {
            found = value;
        }
        at = at + length;
    }
    found
}

fn sum_of(bytes: &[u8], from: usize, to: usize) -> (r: usize)
    requires
        from <= to <= bytes@.len(),
        to - from <= 16,
    ensures
        r == total(bytes@.subrange(from as int, to as int)),
{
    assert(bytes.len() == bytes@.len());
    let mut sum: usize = 0;
    for i in from..to
        invariant
            bytes.len() == bytes@.len(),
            from <= to <= bytes@.len(),
            to - from <= 16,
            sum == total(bytes@.subrange(from as int, i as int)),
            sum <= 255 * (i - from),
    {
        assert(bytes@.subrange(from as int, i + 1).drop_last() =~= bytes@.subrange(
            from as int,
            i as int,
        ));
        sum = sum + bytes[i] as usize;
    }
    sum
}

fn greatest_of(bytes: &[u8], from: usize, to: usize) -> (r: u8)
    requires
        from <= to <= bytes@.len(),
    ensures
        r == greatest(bytes@.subrange(from as int, to as int)),
{
    assert(bytes.len() == bytes@.len());
    let mut found: u8 = 0;
    for i in from..to
        invariant
            bytes.len() == bytes@.len(),
            from <= to <= bytes@.len(),
            found == greatest(bytes@.subrange(from as int, i as int)),
    {
        assert(bytes@.subrange(from as int, i + 1).drop_last() =~= bytes@.subrange(
            from as int,
            i as int,
        ));
        found = bigger(found, bytes[i]);
    }
    found
}

/// The largest class in the Huffman tables from `start` to `end`.
fn read_class(jpeg: &[u8], start: usize, end: usize) -> (r: u8)
    requires
        start <= end <= jpeg@.len(),
    ensures
        r == largest_class(jpeg@, start as int, end as int),
{
    assert(jpeg.len() == jpeg@.len());
    let mut at: usize = start;
    let mut found: u8 = 0;
    while end - at > 16
        invariant
            jpeg.len() == jpeg@.len(),
            start <= at <= end <= jpeg@.len(),
            largest_class(jpeg@, start as int, end as int) == greater(
                found as int,
                largest_class(jpeg@, at as int, end as int) as int,
            ),
        decreases end - at,
    {
        let count: usize = sum_of(jpeg, at + 1, at + 17);
        if end - at - 17 < count {
            return found;
        }
        let next: usize = at + 17 + count;
        if jpeg[at] / 16 == 0 {
            found = bigger(found, greatest_of(jpeg, at + 17, next));
        }
        at = next;
    }
    found
}

/// Takes in the segment that begins at `at`.
fn read_segment(jpeg: &[u8], code: u8, at: usize, size: u16, h: Headers) -> (r: Option<Headers>)
    requires
        size >= 2,
        at + size <= jpeg@.len(),
    ensures
        match (r, after_segment(jpeg@, code, at as int, size, h@)) {
            (Some(then), Some(told)) => then@ == told,
            (None, None) => true,
            _ => false,
        },
{
    assert(jpeg.len() == jpeg@.len());
    let mut h = h;
    let end: usize = at + size as usize;
    if code == 0xC0 || code == 0xC1 || code == 0xC2 {
        if h.frame.is_some() || size < 8 || size != 8 + 3 * jpeg[at + 7] as u16 {
            return None;
        }
        let count: u8 = jpeg[at + 7];
        h.colours = if count == 1 {
            Colours::Luma
        } else if count == 4 && h.colours == Colours::YCbCr {
            Colours::Cmyk
        } else {
            h.colours
        };
        h.frame = Some(
            Frame {
                progressive: code == 0xC2,
                width: number(jpeg, at + 5),
                height: number(jpeg, at + 3),
                sampling: read_sampling(jpeg, at, count),
            },
        );
    } else if code == 0xDB {
        let found = read_factor(jpeg, at + 2, end);
        if found > h.factor {
            h.factor = found;
        }
    } else if code == 0xC4 {
        h.class = bigger(h.class, read_class(jpeg, at + 2, end));
    } else if code == 0xEE {
        h.colours = read_colours(jpeg, at, size, h.colours);
    }
    Some(h)
}

/// Reads the headers of a file up to its first scan.
pub fn read_headers(jpeg: &[u8]) -> (r: Option<Scan>)
    ensures
        match (r, first_scan(jpeg@, 2, no_headers())) {
            (Some(scan), Some(found)) => scan@ == found,
            (None, None) => true,
            _ => false,
        },
{
    let mut at: usize = 2;
    let mut h = Headers { frame: None, colours: Colours::YCbCr, factor: 0, class: 0 };
    assert(jpeg.len() == jpeg@.len());
    while at < jpeg.len() && 2 <= jpeg.len() - at
        invariant
            jpeg.len() == jpeg@.len(),
            first_scan(jpeg@, 2, no_headers()) == first_scan(jpeg@, at as nat, h@),
        decreases jpeg.len() - at,
    {
        let data: usize = at + 2;
        if jpeg[at] != 0xFF || jpeg[at + 1] == 0xFF || jpeg[at + 1] == 0 {
            at = at + 1;
            continue;
        }
        if jpeg.len() - data < 2 {
            return None;
        }
        let code: u8 = jpeg[at + 1];
        let size: u16 = number(jpeg, data);
        let over: usize = if code == 0xE0 && size == 6 {
            7
        } else {
            size as usize
        };
        if code == 0xDA {
            return match h.frame {
                Some(frame) if jpeg.len() - data >= 3 => Some(
                    Scan {
                        frame,
                        colours: h.colours,
                        factor: h.factor,
                        class: h.class,
                        components: jpeg[data + 2],
                        at: data,
                    },
                ),
                _ => None,
            };
        }
        if code == 0xD9 || code == 0xCC || code == 0xDC || size < 2 || jpeg.len() - data < over {
            return None;
        }
        match read_segment(jpeg, code, data, size, h) {
            Some(then) => {
                h = then;
            },
            None => {
                return None;
            },
        }
        at = data + over;
    }
    None
}

/// The finest sampling of the components, across and down.
fn finest(sampling: &Vec<u8>) -> (r: (u8, u8))
    ensures
        r == (finest_across(sampling@), finest_down(sampling@)),
        1 <= r.0 <= 15,
        1 <= r.1 <= 15,
{
    let mut wide: u8 = 1;
    let mut tall: u8 = 1;
    for i in 0..sampling.len()
        invariant
            wide == finest_across(sampling@.take(i as int)),
            tall == finest_down(sampling@.take(i as int)),
            1 <= wide <= 15,
            1 <= tall <= 15,
    {
        assert(sampling@.take(i + 1).drop_last() =~= sampling@.take(i as int));
        wide = bigger(wide, sampling[i] / 16);
        tall = bigger(tall, sampling[i] % 16);
    }
    assert(sampling@.take(sampling@.len() as int) =~= sampling@);
    (wide, tall)
}

fn is_some_doubled(sampling: &Vec<u8>, wide: u8, tall: u8) -> (r: bool)
    requires
        (wide, tall) == (finest_across(sampling@), finest_down(sampling@)),
    ensures
        r == some_doubled(sampling@),
{
    for i in 0..sampling.len()
        invariant
            (wide, tall) == (finest_across(sampling@), finest_down(sampling@)),
            forall|k: int| 0 <= k < i ==> !doubled(#[trigger] sampling@[k], wide, tall),
    {
        let across_here: u8 = sampling[i] / 16;
        let down_here: u8 = sampling[i] % 16;
        if wide == 2 * across_here && 2 * down_here <= tall && tall < 3 * down_here {
            assert(doubled(sampling@[i as int], wide, tall));
            return true;
        }
    }
    false
}

fn is_subsampled(sampling: &Vec<u8>) -> (r: bool)
    ensures
        r == subsampled(sampling@),
{
    for i in 0..sampling.len()
        invariant
            forall|k: int| 0 <= k < i ==> #[trigger] sampling@[k] == PLAIN,
    {
        if sampling[i] != PLAIN {
            assert(sampling@[i as int] != PLAIN);
            return true;
        }
    }
    false
}

fn is_turned(jpeg: &[u8], from: usize) -> (r: bool)
    requires
        from <= jpeg@.len(),
    ensures
        r == turned(jpeg@, from as nat),
{
    let mut at: usize = from;
    assert(jpeg.len() == jpeg@.len());
    while jpeg.len() - at >= 16
        invariant
            jpeg.len() == jpeg@.len(),
            from <= at <= jpeg@.len(),
            forall|i: int| from <= i < at ==> !#[trigger] turned_here(jpeg@, i),
        decreases jpeg.len() - at,
    {
        if jpeg[at] == 0xFF && jpeg[at + 1] == 0xEE && is_adobe_here(jpeg, at + 4) && jpeg[at + 15]
            == 1 {
            assert(turned_here(jpeg@, at as int));
            return true;
        }
        at = at + 1;
    }
    false
}

fn count_markers(jpeg: &[u8], code: u8, from: usize) -> (r: usize)
    requires
        from <= jpeg@.len(),
    ensures
        r == markers(jpeg@, code, from as nat),
        r <= jpeg@.len(),
{
    let mut at: usize = from;
    let mut count: usize = 0;
    assert(jpeg.len() == jpeg@.len());
    while jpeg.len() - at > 1
        invariant
            jpeg.len() == jpeg@.len(),
            from <= at <= jpeg@.len(),
            count <= at - from,
            markers(jpeg@, code, from as nat) == count + markers(jpeg@, code, at as nat),
        decreases jpeg.len() - at,
    {
        if jpeg[at] == 0xFF && jpeg[at + 1] == code {
            count = count + 1;
        }
        at = at + 1;
    }
    count
}

fn count_blocks(length: u16, finest: u8) -> (r: u128)
    requires
        1 <= finest <= 15,
    ensures
        r == blocks_along(length, finest),
        r <= 1_000_000,
{
    let unit: u32 = 8 * finest as u32;
    let units: u32 = (length as u32 + unit - 1) / unit;
    assert(units <= length + unit - 1) by (nonlinear_arith)
        requires
            unit >= 1,
            units == (length + unit - 1) / unit as int,
    ;
    assert(finest * units <= 15 * 65654) by (nonlinear_arith)
        requires
            finest <= 15,
            0 <= units <= 65654,
    ;
    finest as u128 * units as u128
}

fn are_means_fit(jpeg: &[u8], scan: &Scan, wide: u8, tall: u8) -> (r: bool)
    requires
        jpeg@.len() <= FILE_LIMIT,
        scan.at <= jpeg@.len(),
        (wide, tall) == (finest_across(scan.frame.sampling@), finest_down(scan.frame.sampling@)),
        1 <= wide <= 15,
        1 <= tall <= 15,
    ensures
        r == means_fit(jpeg@, scan@),
{
    if scan.frame.progressive {
        return true;
    }
    let class: u8 = if count_markers(jpeg, 0xC4, scan.at) > 0 {
        15
    } else {
        scan.class
    };
    let difference: u128 = if class <= 11 {
        2047
    } else if class == 12 {
        4095
    } else if class == 13 {
        8191
    } else if class == 14 {
        16383
    } else {
        32767
    };
    let scans: u128 = 1 + count_markers(jpeg, 0xDA, scan.at) as u128;
    let along: u128 = count_blocks(scan.frame.width, wide);
    let along_down: u128 = count_blocks(scan.frame.height, tall);
    let factor: u128 = scan.factor as u128;
    assert(along * along_down <= 1_000_000 * 1_000_000) by (nonlinear_arith)
        requires
            along <= 1_000_000,
            along_down <= 1_000_000,
    ;
    let blocks: u128 = along * along_down;
    assert(difference * factor <= 32767 * 65535) by (nonlinear_arith)
        requires
            difference <= 32767,
            factor <= 65535,
    ;
    let largest: u128 = difference * factor;
    assert(blocks * largest <= 1_000_000_000_000 * 2_147_385_345) by (nonlinear_arith)
        requires
            blocks <= 1_000_000_000_000,
            largest <= 2_147_385_345,
    ;
    let mean: u128 = blocks * largest;
    assert(scans * mean <= 0x8000_0000 * 2_147_385_345_000_000_000_000) by (nonlinear_arith)
        requires
            scans <= 0x8000_0000,
            mean <= 2_147_385_345_000_000_000_000,
    ;
    scans * mean <= MEAN_LIMIT as u128
}

/// Whether the decoder can be handed a file.
pub fn is_fit_to_decode(jpeg: &[u8]) -> (r: bool)
    ensures
        r == fit_to_decode(jpeg@),
{
    assert(jpeg.len() == jpeg@.len());
    if jpeg.len() > FILE_LIMIT {
        return false;
    }
    match read_headers(jpeg) {
        Some(scan) => {
            proof {
                lemma_scan_within(jpeg@, 2, no_headers());
            }
            let frame = &scan.frame;
            let sampling = &frame.sampling;
            let (wide, tall) = finest(sampling);
            let first: u8 = if sampling.len() == 0 {
                0
            } else {
                sampling[0] / 16
            };
            let whole = !frame.progressive && scan.components as usize == sampling.len();
            let rows = first == wide || whole || (!is_some_doubled(sampling, wide, tall) && (
            frame.progressive || frame.width <= 8 * first as u16));
            let plain = !is_subsampled(sampling);
            let size = frame.progressive || sampling.len() != 1 || plain || (frame.width <= 65528
                && frame.height <= 65528);
            let few = sampling.len() < 3 && scan.colours == Colours::Ycck;
            let many = sampling.len() == 4 && !plain && (scan.colours == Colours::YCbCr
                || is_turned(jpeg, scan.at));
            rows && size && !(frame.progressive && (few || many)) && are_means_fit(
                jpeg,
                &scan,
                wide,
                tall,
            )
        },
        None => true,
    }
}

/// A scan that is found lies within the file.
proof fn lemma_scan_within(jpeg: Seq<u8>, at: nat, h: HeadersView)
    ensures
        first_scan(jpeg, at, h) matches Some(scan) ==> scan.at <= jpeg.len(),
    decreases jpeg.len() - at,
{
    let data: int = at as int + 2;
    if data <= jpeg.len() {
        if !marker_here(jpeg, at as int) {
            lemma_scan_within(jpeg, at + 1, h);
        } else if data + 2 <= jpeg.len() {
            let code = jpeg[data - 1];
            let size = number_at(jpeg, data);
            let over = stepped_over(code, size);
            if code != 0xDA && size >= 2 && data + over <= jpeg.len() {
                if let Some(then) = after_segment(jpeg, code, data, size, h) {
                    lemma_scan_within(jpeg, (data + over) as nat, then);
                }
            }
        }
    }
}

} // verus!
