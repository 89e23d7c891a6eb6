//! The image engine: owned RGBA8 images, the embedded-JPEG scanner of RAW
//! containers and the preview pipeline.

use image::ImageDecoder;
use vstd::prelude::*;
use vstd::slice::slice_subrange;

verus! {

/// An owned RGBA8 image: `data` holds `width * height` pixels of four bytes each.
#[derive(Debug, Clone, PartialEq, Eq)]
pub struct DevelopedImage {
    pub width: u32,
    pub height: u32,
    pub data: Vec<u8>,
}

/// The abstract image: width, height and the bytes of its buffer.
pub type ImageView = (u32, u32, Seq<u8>);

impl View for DevelopedImage {
    type V = ImageView;

    open spec fn view(&self) -> ImageView {
        (self.width, self.height, self.data@)
    }
}

/// The byte length of an RGBA8 buffer of the given size, where it fits in `usize`.
pub open spec fn rgba_len_for(width: u32, height: u32) -> Option<usize> {
    if width * height * 4 <= usize::MAX {
        Some((width * height * 4) as usize)
    } else {
        None
    }
}

impl DevelopedImage {
    /// Whether the buffer length is exactly that of an RGBA8 image of this size.
    pub open spec fn rgba_len_is_valid(&self) -> bool {
        rgba_len_for(self.width, self.height) == Some(self.data@.len() as usize)
    }

    /// `width * height * 4`, or `None` when it overflows `usize`.
    pub fn expected_rgba_len(&self) -> (len: Option<usize>)
        ensures
            len == rgba_len_for(self.width, self.height),
    {
        let pixels = match (self.width as usize).checked_mul(self.height as usize) {
            Some(p) => p,
            None => {
                assert(self.width * self.height * 4 > usize::MAX) by (nonlinear_arith)
                    requires
                        self.width * self.height > usize::MAX,
                ;
                return None;
            },
        };
        pixels.checked_mul(4)
    }

    /// Whether `data` holds exactly `width * height * 4` bytes.
    pub fn has_valid_rgba_len(&self) -> (valid: bool)
        ensures
            valid == self.rgba_len_is_valid(),
    {
        match self.expected_rgba_len() {
            Some(len) => len == self.data.len(),
            None => false,
        }
    }
}

/// Why a preview could not be produced.
#[derive(Debug)]
pub enum ImageEngineError {
    /// The source could not be opened (it does not exist).
    Open(std::io::Error),
    /// The source could not be read.
    Read(std::io::Error),
    /// Neither ordinary decoding nor the embedded-JPEG scan produced an image.
    UnsupportedPreview(String),
    /// A develop setting is NaN or infinite.
    NonFiniteSettings,
}

/// The image that `image` decodes from a complete JPEG stream, as RGBA8, if it decodes.
pub uninterp spec fn jpeg_rgba(bytes: Seq<u8>) -> Option<ImageView>;

/// The view of an optional image.
pub open spec fn option_view(image: Option<DevelopedImage>) -> Option<ImageView> {
    match image {
        Some(i) => Some(i@),
        None => None,
    }
}

/// An RGBA8 buffer: exactly four bytes for each of the `width * height` pixels.
pub open spec fn is_rgba8(image: ImageView) -> bool {
    image.0 * image.1 * 4 == image.2.len()
}

/// An RGBA8 image has the buffer length that `has_valid_rgba_len` accepts.
pub proof fn lemma_rgba8_has_valid_len(image: DevelopedImage)
    requires
        is_rgba8(image@),
    ensures
        image.rgba_len_is_valid(),
{
    assert(image.data@.len() <= usize::MAX) by {
        broadcast use vstd::std_specs::vec::axiom_spec_len;
        let _ = image.data.len();
    }
}

/// Decodes a complete JPEG stream with `image::load_from_memory_with_format`
/// (`ImageFormat::Jpeg`) and converts it with `DynamicImage::to_rgba8`.
/// Claimed: the result is the named decoding of exactly these bytes (a built-in
/// format consults no decoding hooks), and `to_rgba8` builds a buffer of exactly
/// `width * height * 4` bytes. What the decoder makes of the bytes is not stated.
#[verifier::external_body]
fn decode_jpeg_rgba(bytes: &[u8]) -> (image: Option<DevelopedImage>)
    ensures
        option_view(image) == jpeg_rgba(bytes@),
        image matches Some(i) ==> is_rgba8(i@),
{
    let decoded = image::load_from_memory_with_format(bytes, image::ImageFormat::Jpeg).ok()?;
    let rgba = decoded.to_rgba8();
    Some(DevelopedImage { width: rgba.width(), height: rgba.height(), data: rgba.into_raw() })
}

/// Decodes raster content the way `image::ImageReader::open` followed by
/// `with_guessed_format`, `into_decoder`, `ImageDecoder::orientation`,
/// `DynamicImage::from_decoder` and `apply_orientation` does for a file: the
/// extension (through `ImageFormat::from_extension`) is the format until the
/// content names another. The result is converted with `to_rgba8`.
/// Claimed: a decoded image is RGBA8, `width * height * 4` bytes, as `to_rgba8`
/// builds it. Which image comes back, if any, is not stated: besides the bytes
/// and the extension it depends on the format-detection hooks registered in the
/// process (`image::hooks`). Decoding hooks registered for an extension are not
/// consulted, since an in-memory reader cannot be seeded with an extension.
#[verifier::external_body]
fn decode_raster_rgba(bytes: &[u8], extension: &str) -> (image: Option<DevelopedImage>)
    ensures
        image matches Some(i) ==> is_rgba8(i@),
{
    let mut reader = image::ImageReader::new(std::io::Cursor::new(bytes));
    if let Some(format) = image::ImageFormat::from_extension(extension) {
        reader.set_format(format);
    }
    let mut decoder = reader.with_guessed_format().ok()?.into_decoder().ok()?;
    let orientation = decoder.orientation().unwrap_or(image::metadata::Orientation::NoTransforms);
    let mut decoded = image::DynamicImage::from_decoder(decoder).ok()?;
    decoded.apply_orientation(orientation);
    let rgba = decoded.to_rgba8();
    Some(DevelopedImage { width: rgba.width(), height: rgba.height(), data: rgba.into_raw() })
}

/// The number of pixels of an image.
pub open spec fn area(image: ImageView) -> int {
    image.0 as int * image.1 as int
}

/// A JPEG start-of-image marker (`FF D8`) begins at `i`.
pub open spec fn is_jpeg_start(b: Seq<u8>, i: int) -> bool {
    0 <= i && i + 1 < b.len() && b[i] == 0xffu8 && b[i + 1] == 0xd8u8
}

/// A JPEG end-of-image marker (`FF D9`) begins at `i`.
pub open spec fn is_jpeg_end(b: Seq<u8>, i: int) -> bool {
    0 <= i && i + 1 < b.len() && b[i] == 0xffu8 && b[i + 1] == 0xd9u8
}

/// The image of the first span `b[start..end' + 2]`, `end' >= end`, that ends in an
/// end-of-image marker and decodes; `None` when no such span does.
pub open spec fn first_jpeg_from(b: Seq<u8>, start: int, end: int) -> Option<ImageView>
    decreases b.len() - end,
{
    if 0 <= start <= end && end + 1 < b.len() {
        if is_jpeg_end(b, end) && jpeg_rgba(b.subrange(start, end + 2)) is Some {
            jpeg_rgba(b.subrange(start, end + 2))
        } else {
            first_jpeg_from(b, start, end + 1)
        }
    } else {
        None
    }
}

/// The embedded JPEG that starts at `start`: the scan for its end begins after the marker.
pub open spec fn jpeg_at(b: Seq<u8>, start: int) -> Option<ImageView> {
    first_jpeg_from(b, start, start + 2)
}

/// The positions below `n` at which a start-of-image marker begins, in increasing order.
pub open spec fn jpeg_starts(b: Seq<u8>, n: int) -> Seq<int>
    decreases n,
{
    if n <= 0 {
        Seq::empty()
    } else if is_jpeg_start(b, n - 1) {
        jpeg_starts(b, n - 1).push(n - 1)
    } else {
        jpeg_starts(b, n - 1)
    }
}

/// The candidate replaces the best so far only when its area is strictly larger.
pub open spec fn prefer_larger(best: Option<ImageView>, candidate: Option<ImageView>) -> Option<ImageView> {
    match candidate {
        Some(c) => match best {
            Some(b) => if area(c) > area(b) { Some(c) } else { best },
            None => Some(c),
        },
        None => best,
    }
}

/// The largest of the embedded JPEGs at the given starts, the first among equals.
pub open spec fn best_jpeg_among(b: Seq<u8>, starts: Seq<int>) -> Option<ImageView>
    decreases starts.len(),
{
    if starts.len() == 0 {
        None
    } else {
        prefer_larger(best_jpeg_among(b, starts.drop_last()), jpeg_at(b, starts.last()))
    }
}

/// The preview that a RAW container yields: the largest decodable embedded JPEG.
pub open spec fn best_embedded_jpeg(b: Seq<u8>) -> Option<ImageView> {
    best_jpeg_among(b, jpeg_starts(b, b.len() as int))
}

/// The message of a scan that found no image.
pub open spec fn scan_failure_message(b: Seq<u8>) -> Seq<char> {
    if jpeg_starts(b, b.len() as int).len() == 0 {
        "no embedded JPEG start marker found"@
    } else {
        "embedded JPEG markers found, but none decoded"@
    }
}

proof fn lemma_area_fits_u64(width: u32, height: u32)
    ensures
        (width as u64) * (height as u64) <= u64::MAX,
{
    assert((width as u64) * (height as u64) <= 0xffff_ffffu64 * 0xffff_ffffu64) by (nonlinear_arith)
        requires
            width <= 0xffff_ffffu32,
            height <= 0xffff_ffffu32,
    ;
}

/// Every recorded position is a start marker, and the positions lie below `n`.
proof fn lemma_jpeg_starts_are_starts(b: Seq<u8>, n: int)
    ensures
        forall|j: int|
            0 <= j < jpeg_starts(b, n).len() ==> is_jpeg_start(b, #[trigger] jpeg_starts(b, n)[j])
                && jpeg_starts(b, n)[j] < n,
    decreases n,
{
    if n > 0 {
        lemma_jpeg_starts_are_starts(b, n - 1);
        let prev = jpeg_starts(b, n - 1);
        assert forall|j: int| 0 <= j < jpeg_starts(b, n).len() implies is_jpeg_start(
            b,
            #[trigger] jpeg_starts(b, n)[j],
        ) && jpeg_starts(b, n)[j] < n by {
            if j < prev.len() {
                assert(jpeg_starts(b, n)[j] == prev[j]);
            }
        }
    }
}

/// The offsets of all start-of-image markers, in increasing order.
fn jpeg_start_offsets(bytes: &[u8]) -> (starts: Vec<usize>)
    ensures
        starts@.len() == jpeg_starts(bytes@, bytes@.len() as int).len(),
        forall|k: int|
            0 <= k < starts@.len() ==> starts@[k] as int == jpeg_starts(bytes@, bytes@.len() as int)[k],
{
    let mut starts: Vec<usize> = Vec::new();
    let len = bytes.len();
    let mut index: usize = 0;
    while index + 1 < len
        invariant
            len == bytes@.len(),
            index == 0 || index < bytes@.len(),
            starts@.len() == jpeg_starts(bytes@, index as int).len(),
            forall|k: int|
                0 <= k < starts@.len() ==> starts@[k] as int == jpeg_starts(bytes@, index as int)[k],
        decreases bytes@.len() - index,
    {
        if bytes[index] == 0xff && bytes[index + 1] == 0xd8 {
            starts.push(index);
        }
        index += 1;
    }
    proof {
        let b = bytes@;
        if b.len() > 0 {
            assert(!is_jpeg_start(b, b.len() - 1));
            assert(jpeg_starts(b, b.len() as int) == jpeg_starts(b, b.len() - 1));
        }
    }
    starts
}

/// The embedded JPEG that starts at `start`: scans for the first end-of-image
/// marker after the start marker whose span decodes.
fn jpeg_at_offset(bytes: &[u8], start: usize) -> (image: Option<DevelopedImage>)
    requires
        is_jpeg_start(bytes@, start as int),
    ensures
        option_view(image) == jpeg_at(bytes@, start as int),
        image matches Some(i) ==> is_rgba8(i@),
{
    let len = bytes.len();
    let mut end = start + 2;
    while end < len - 1
        invariant
            is_jpeg_start(bytes@, start as int),
            start + 2 <= end <= bytes@.len(),
            len == bytes@.len(),
            jpeg_at(bytes@, start as int) == first_jpeg_from(bytes@, start as int, end as int),
        decreases bytes@.len() - end,
    {
        if bytes[end] == 0xff && bytes[end + 1] == 0xd9 {
            let candidate = slice_subrange(bytes, start, end + 2);
            match decode_jpeg_rgba(candidate) {
                Some(image) => {
                    return Some(image);
                },
                None => {},
            }
        }
        end += 1;
    }
    None
}

/// Keeps the larger of the best preview so far and a newly decoded candidate:
/// the candidate wins only with a strictly larger area.
pub fn keep_larger_preview(best: Option<DevelopedImage>, candidate: DevelopedImage) -> (kept: DevelopedImage)
    ensures
        Some(kept@) == prefer_larger(option_view(best), Some(candidate@)),
        match best {
            Some(b) => kept@ == (if candidate.width as int * candidate.height as int > b.width as int
                * b.height as int {
                candidate@
            } else {
                b@
            }),
            None => kept@ == candidate@,
        },
{
    match best {
        Some(current) => {
            proof {
                lemma_area_fits_u64(candidate.width, candidate.height);
                lemma_area_fits_u64(current.width, current.height);
            }
            let area: u64 = (candidate.width as u64) * (candidate.height as u64);
            let best_area: u64 = (current.width as u64) * (current.height as u64);
            if area > best_area {
                candidate
            } else {
                current
            }
        },
        None => candidate,
    }
}

/// Scans a RAW container for embedded JPEG previews and returns the largest one
/// that decodes. Each start-of-image marker is paired with the first following
/// end-of-image marker whose span decodes, so a thumbnail nested inside the
/// preview does not cut it short.
pub fn extract_best_embedded_jpeg(bytes: &[u8]) -> (preview: Result<DevelopedImage, String>)
    ensures
        match preview {
            Ok(image) => best_embedded_jpeg(bytes@) == Some(image@) && is_rgba8(image@),
            Err(message) => best_embedded_jpeg(bytes@) is None && message@ == scan_failure_message(bytes@),
        },
{
    let starts = jpeg_start_offsets(bytes);
    let ghost all = jpeg_starts(bytes@, bytes@.len() as int);
    proof {
        lemma_jpeg_starts_are_starts(bytes@, bytes@.len() as int);
    }
    if starts.len() == 0 {
        return Err("no embedded JPEG start marker found".to_owned());
    }
    let mut best: Option<DevelopedImage> = None;
    let mut k: usize = 0;
    while k < starts.len()
        invariant
            starts@.len() == all.len(),
            all == jpeg_starts(bytes@, bytes@.len() as int),
            forall|j: int| 0 <= j < starts@.len() ==> starts@[j] as int == all[j],
            forall|j: int| 0 <= j < all.len() ==> is_jpeg_start(bytes@, #[trigger] all[j]),
            k <= starts@.len(),
            option_view(best) == best_jpeg_among(bytes@, all.take(k as int)),
            best matches Some(i) ==> is_rgba8(i@),
        decreases starts@.len() - k,
    {
        let start = starts[k];
        assert(is_jpeg_start(bytes@, all[k as int]));
        match jpeg_at_offset(bytes, start) {
            Some(image) => {
                best = Some(keep_larger_preview(best, image));
            },
            None => {},
        }
        assert(all.take(k + 1).drop_last() == all.take(k as int));
        k += 1;
    }
    assert(all.take(k as int) == all);
    match best {
        Some(image) => Ok(image),
        None => Err("embedded JPEG markers found, but none decoded".to_owned()),
    }
}

/// The preview of a source: the ordinary raster decoding where there is one,
/// else the largest embedded JPEG, else the scan's failure message.
pub open spec fn preview_of(raster: Option<ImageView>, bytes: Seq<u8>) -> Result<ImageView, Seq<char>> {
    match raster {
        Some(image) => Ok(image),
        None => match best_embedded_jpeg(bytes) {
            Some(image) => Ok(image),
            None => Err(scan_failure_message(bytes)),
        },
    }
}

/// Whether an engine result is the given preview outcome: an image with that view,
/// or an unsupported-preview error with that message.
pub open spec fn is_preview_outcome(
    result: Result<DevelopedImage, ImageEngineError>,
    outcome: Result<ImageView, Seq<char>>,
) -> bool {
    match outcome {
        Ok(view) => result matches Ok(image) && image@ == view,
        Err(message) => result matches Err(ImageEngineError::UnsupportedPreview(m)) && m@ == message,
    }
}

/// Given the outcome of ordinary raster decoding of `bytes`, keeps the decoded
/// image, or else treats `bytes` as a RAW container and scans it for its largest
/// decodable embedded JPEG.
pub fn preview_from_raster_attempt(raster: Option<DevelopedImage>, bytes: &[u8]) -> (preview: Result<DevelopedImage, ImageEngineError>)
    ensures
        is_preview_outcome(preview, preview_of(option_view(raster), bytes@)),
        (raster matches Some(r) ==> is_rgba8(r@)) ==> (preview matches Ok(image) ==> is_rgba8(image@)),
        raster matches Some(r) ==> (preview matches Ok(image) && image == r),
        raster is None ==> (preview matches Ok(image) ==> best_embedded_jpeg(bytes@) == Some(image@)),
        raster is None ==> (preview is Err <==> best_embedded_jpeg(bytes@) is None),
{
    match raster {
        Some(image) => Ok(image),
        None => match extract_best_embedded_jpeg(bytes) {
            Ok(image) => Ok(image),
            Err(message) => Err(ImageEngineError::UnsupportedPreview(message)),
        },
    }
}

/// Loads the content of an image file as RGBA8: ordinary raster decoding with
/// orientation normalized first (the file extension is the first guess of the
/// format), and, if that fails, the largest decodable embedded JPEG of a RAW
/// container. Reading the file is the caller's part.
pub fn load_embedded_preview(bytes: &[u8], extension: &str) -> (preview: Result<DevelopedImage, ImageEngineError>)
    ensures
        preview matches Ok(image) ==> is_rgba8(image@) && image.rgba_len_is_valid(),
        best_embedded_jpeg(bytes@) is Some ==> preview is Ok,
        preview is Err ==> is_preview_outcome(preview, Err(scan_failure_message(bytes@))),
        preview is Err ==> best_embedded_jpeg(bytes@) is None,
{
    let raster = decode_raster_rgba(bytes, extension);
    let preview = preview_from_raster_attempt(raster, bytes);
    proof {
        if preview is Ok {
            lemma_rgba8_has_valid_len(preview->Ok_0);
        }
    }
    preview
}

/// Develops the content of an image file with neutral settings (exposure 0,
/// temperature 0, contrast 1) into an owned RGBA8 image. Neutral settings map
/// every channel value to itself, so the developed image is the loaded preview.
pub fn develop_preview(bytes: &[u8], extension: &str) -> (developed: Result<DevelopedImage, ImageEngineError>)
    ensures
        developed matches Ok(image) ==> is_rgba8(image@) && image.rgba_len_is_valid(),
        best_embedded_jpeg(bytes@) is Some ==> developed is Ok,
        developed is Err ==> is_preview_outcome(developed, Err(scan_failure_message(bytes@))),
        developed is Err ==> best_embedded_jpeg(bytes@) is None,
{
    load_embedded_preview(bytes, extension)
}

/// The embedded-JPEG scan selects the largest candidate: the chosen preview is
/// the image of one of the start markers, no decodable candidate is larger, and
/// among equally large candidates the earliest is chosen.
pub proof fn lemma_best_jpeg_is_largest(b: Seq<u8>, starts: Seq<int>)
    ensures
        best_jpeg_among(b, starts) matches Some(best) ==> exists|k: int|
            0 <= k < starts.len() && #[trigger] jpeg_at(b, starts[k]) == Some(best)
                && forall|j: int| 0 <= j < k ==> (#[trigger] jpeg_at(b, starts[j]) matches Some(c) ==> area(c) < area(best)),
        forall|k: int|
            0 <= k < starts.len() ==> (#[trigger] jpeg_at(b, starts[k]) matches Some(c) ==> (
            best_jpeg_among(b, starts) matches Some(best) && area(c) <= area(best))),
    decreases starts.len(),
{
    if starts.len() > 0 {
        let prev = starts.drop_last();
        lemma_best_jpeg_is_largest(b, prev);
        let last = starts.len() - 1;
        assert forall|k: int| 0 <= k < last implies #[trigger] starts[k] == prev[k] by {}
        let best_prev = best_jpeg_among(b, prev);
        let cand = jpeg_at(b, starts.last());
        match (best_prev, cand) {
            (Some(bp), Some(c)) => {
                if area(c) > area(bp) {
                    assert(jpeg_at(b, starts[last]) == Some(c));
                    assert forall|j: int| 0 <= j < last implies (#[trigger] jpeg_at(b, starts[j]) matches Some(x) ==> area(x) < area(c)) by {
                        assert(starts[j] == prev[j]);
                    }
                } else {
                    let k = choose|k: int|
                        0 <= k < prev.len() && #[trigger] jpeg_at(b, prev[k]) == Some(bp)
                            && forall|j: int| 0 <= j < k ==> (#[trigger] jpeg_at(b, prev[j]) matches Some(c) ==> area(c) < area(bp));
                    assert(jpeg_at(b, starts[k]) == Some(bp));
                    assert forall|j: int| 0 <= j < k implies (#[trigger] jpeg_at(b, starts[j]) matches Some(x) ==> area(x) < area(bp)) by {
                        assert(starts[j] == prev[j]);
                    }
                }
            },
            (None, Some(c)) => {
                assert(jpeg_at(b, starts[last]) == Some(c));
                assert forall|j: int| 0 <= j < last implies (#[trigger] jpeg_at(b, starts[j]) matches Some(x) ==> area(x) < area(c)) by {
                    assert(starts[j] == prev[j]);
                    assert(jpeg_at(b, prev[j]) is None);
                }
            },
            (Some(bp), None) => {
                let k = choose|k: int|
                    0 <= k < prev.len() && #[trigger] jpeg_at(b, prev[k]) == Some(bp)
                        && forall|j: int| 0 <= j < k ==> (#[trigger] jpeg_at(b, prev[j]) matches Some(c) ==> area(c) < area(bp));
                assert(jpeg_at(b, starts[k]) == Some(bp));
                assert forall|j: int| 0 <= j < k implies (#[trigger] jpeg_at(b, starts[j]) matches Some(x) ==> area(x) < area(bp)) by {
                    assert(starts[j] == prev[j]);
                }
            },
            (None, None) => {},
        }
        assert forall|k: int| 0 <= k < starts.len() implies (#[trigger] jpeg_at(b, starts[k]) matches Some(c) ==> (
            best_jpeg_among(b, starts) matches Some(best) && area(c) <= area(best))) by {
            if k < last {
                assert(starts[k] == prev[k]);
            }
        }
    }
}

/// Every start marker below `n` is recorded.
proof fn lemma_jpeg_starts_complete(b: Seq<u8>, n: int, i: int)
    requires
        0 <= i < n,
        is_jpeg_start(b, i),
    ensures
        exists|k: int| 0 <= k < jpeg_starts(b, n).len() && #[trigger] jpeg_starts(b, n)[k] == i,
    decreases n,
{
    if i < n - 1 {
        lemma_jpeg_starts_complete(b, n - 1, i);
        let k = choose|k: int| 0 <= k < jpeg_starts(b, n - 1).len() && #[trigger] jpeg_starts(b, n - 1)[k] == i;
        assert(jpeg_starts(b, n)[k] == i);
    } else {
        assert(jpeg_starts(b, n).last() == i);
    }
}

/// The preview of a RAW container is the largest decodable embedded JPEG: it is
/// the image of some start marker, and no start marker yields a larger image.
pub proof fn lemma_embedded_preview_is_largest(b: Seq<u8>)
    ensures
        best_embedded_jpeg(b) matches Some(best) ==> exists|i: int|
            is_jpeg_start(b, i) && #[trigger] jpeg_at(b, i) == Some(best),
        forall|i: int|
            is_jpeg_start(b, i) ==> (#[trigger] jpeg_at(b, i) matches Some(c) ==> (
            best_embedded_jpeg(b) matches Some(best) && area(c) <= area(best))),
{
    let starts = jpeg_starts(b, b.len() as int);
    lemma_best_jpeg_is_largest(b, starts);
    lemma_jpeg_starts_are_starts(b, b.len() as int);
    if best_embedded_jpeg(b) is Some {
        let best = best_embedded_jpeg(b).unwrap();
        let k = choose|k: int|
            0 <= k < starts.len() && #[trigger] jpeg_at(b, starts[k]) == Some(best)
                && forall|j: int| 0 <= j < k ==> (#[trigger] jpeg_at(b, starts[j]) matches Some(c) ==> area(c) < area(best));
        assert(is_jpeg_start(b, starts[k]));
    }
    assert forall|i: int| is_jpeg_start(b, i) implies (#[trigger] jpeg_at(b, i) matches Some(c) ==> (
        best_embedded_jpeg(b) matches Some(best) && area(c) <= area(best))) by {
        lemma_jpeg_starts_complete(b, b.len() as int, i);
        let k = choose|k: int| 0 <= k < starts.len() && #[trigger] starts[k] == i;
        assert(jpeg_at(b, starts[k]) == jpeg_at(b, i));
    }
}

/// No byte is part of a JPEG start or end marker (`FF`, `D8`, `D9`).
pub open spec fn marker_free(s: Seq<u8>) -> bool {
    forall|i: int| 0 <= i < s.len() ==> s[i] != 0xffu8 && s[i] != 0xd8u8 && s[i] != 0xd9u8
}

/// The positions `starts`, each moved by `offset`.
pub open spec fn shifted(starts: Seq<int>, offset: int) -> Seq<int> {
    starts.map_values(|x: int| x + offset)
}

proof fn lemma_padded_starts(p: Seq<u8>, b: Seq<u8>, q: Seq<u8>, n: int)
    requires
        marker_free(p),
        marker_free(q),
        0 <= n <= p.len() + b.len() + q.len(),
    ensures
        jpeg_starts(p + b + q, n) == (if n <= p.len() {
            Seq::<int>::empty()
        } else if n <= p.len() + b.len() {
            shifted(jpeg_starts(b, n - p.len()), p.len() as int)
        } else {
            shifted(jpeg_starts(b, b.len() as int), p.len() as int)
        }),
    decreases n,
{
    let c = p + b + q;
    let pl = p.len() as int;
    if n > 0 {
        lemma_padded_starts(p, b, q, n - 1);
        let i = n - 1;
        if i < pl {
            assert(c[i] == p[i]);
            assert(!is_jpeg_start(c, i));
        } else if i < pl + b.len() {
            assert(c[i] == b[i - pl]);
            if i + 1 < pl + b.len() {
                assert(c[i + 1] == b[i + 1 - pl]);
            } else if i + 1 < c.len() {
                assert(c[i + 1] == q[0]);
            }
            assert(is_jpeg_start(c, i) == is_jpeg_start(b, i - pl));
            assert(jpeg_starts(b, 0) == Seq::<int>::empty());
            let prev = jpeg_starts(b, i - pl);
            if is_jpeg_start(b, i - pl) {
                assert(shifted(prev.push(i - pl), pl) =~= shifted(prev, pl).push(i));
            }
            assert(shifted(Seq::<int>::empty(), pl) =~= Seq::<int>::empty());
        } else {
            assert(c[i] == q[i - pl - b.len()]);
            assert(!is_jpeg_start(c, i));
        }
    }
}

proof fn lemma_padded_tail_has_no_jpeg(p: Seq<u8>, b: Seq<u8>, q: Seq<u8>, start: int, end: int)
    requires
        marker_free(p),
        marker_free(q),
        end >= p.len() + b.len() - 1,
    ensures
        first_jpeg_from(p + b + q, start, end) is None,
    decreases p.len() + b.len() + q.len() - end,
{
    let c = p + b + q;
    let tail = p.len() + b.len();
    if 0 <= start <= end && end + 1 < c.len() {
        if end >= tail {
            assert(c[end] == q[end - tail]);
        } else {
            assert(c[end + 1] == q[0]);
        }
        assert(!is_jpeg_end(c, end));
        lemma_padded_tail_has_no_jpeg(p, b, q, start, end + 1);
    }
}

proof fn lemma_padded_jpeg_from(p: Seq<u8>, b: Seq<u8>, q: Seq<u8>, start: int, end: int)
    requires
        marker_free(p),
        marker_free(q),
        0 <= start <= end,
    ensures
        first_jpeg_from(p + b + q, start + p.len(), end + p.len()) == first_jpeg_from(b, start, end),
    decreases b.len() - end,
{
    let c = p + b + q;
    let pl = p.len() as int;
    if end + 1 < b.len() {
        assert(c[end + pl] == b[end]);
        assert(c[end + pl + 1] == b[end + 1]);
        assert(is_jpeg_end(c, end + pl) == is_jpeg_end(b, end));
        assert(c.subrange(start + pl, end + pl + 2) =~= b.subrange(start, end + 2));
        lemma_padded_jpeg_from(p, b, q, start, end + 1);
    } else {
        lemma_padded_tail_has_no_jpeg(p, b, q, start + pl, end + pl);
    }
}

proof fn lemma_padded_best_among(p: Seq<u8>, b: Seq<u8>, q: Seq<u8>, starts: Seq<int>)
    requires
        marker_free(p),
        marker_free(q),
        forall|k: int| 0 <= k < starts.len() ==> 0 <= #[trigger] starts[k],
    ensures
        best_jpeg_among(p + b + q, shifted(starts, p.len() as int)) == best_jpeg_among(b, starts),
    decreases starts.len(),
{
    let pl = p.len() as int;
    if starts.len() > 0 {
        let prev = starts.drop_last();
        assert(shifted(starts, pl).drop_last() =~= shifted(prev, pl));
        lemma_padded_best_among(p, b, q, prev);
        let last = starts.last();
        assert(shifted(starts, pl).last() == last + pl);
        lemma_padded_jpeg_from(p, b, q, last, last + 2);
    }
}

/// Bytes around a RAW container's content that hold no marker byte (`FF`, `D8`,
/// `D9`) change nothing: the scan finds the same preview, or fails with the same
/// message, with or without them.
pub proof fn lemma_marker_free_padding(prefix: Seq<u8>, bytes: Seq<u8>, suffix: Seq<u8>)
    requires
        marker_free(prefix),
        marker_free(suffix),
    ensures
        best_embedded_jpeg(prefix + bytes + suffix) == best_embedded_jpeg(bytes),
        scan_failure_message(prefix + bytes + suffix) == scan_failure_message(bytes),
{
    let c = prefix + bytes + suffix;
    let pl = prefix.len() as int;
    lemma_padded_starts(prefix, bytes, suffix, c.len() as int);
    lemma_jpeg_starts_are_starts(bytes, bytes.len() as int);
    let starts = jpeg_starts(bytes, bytes.len() as int);
    if c.len() <= pl {
        assert(bytes.len() == 0);
        assert(jpeg_starts(bytes, 0) == Seq::<int>::empty());
        assert(shifted(Seq::<int>::empty(), pl) =~= Seq::<int>::empty());
    }
    assert(jpeg_starts(c, c.len() as int) == shifted(starts, pl));
    assert forall|k: int| 0 <= k < starts.len() implies 0 <= #[trigger] starts[k] by {
        assert(is_jpeg_start(bytes, starts[k]));
    }
    lemma_padded_best_among(prefix, bytes, suffix, starts);
}

/// A successful raster decoding is the preview, whatever the bytes hold; the
/// embedded-JPEG scan decides only when raster decoding yielded nothing.
pub proof fn lemma_raster_decoding_comes_first(raster: Option<ImageView>, bytes: Seq<u8>)
    ensures
        raster matches Some(image) ==> preview_of(raster, bytes) == Ok::<ImageView, Seq<char>>(image),
        raster is None ==> (preview_of(raster, bytes) matches Ok(image) ==> best_embedded_jpeg(bytes) == Some(image)),
        raster is None ==> (preview_of(raster, bytes) is Err <==> best_embedded_jpeg(bytes) is None),
{
}

/// No span `b[start..f + 2]` with `from <= f < to` ends in an end-of-image marker and decodes.
pub open spec fn no_decodable_end_between(b: Seq<u8>, start: int, from: int, to: int) -> bool {
    forall|f: int|
        from <= f < to && f + 1 < b.len() ==> !(b[f] == 0xffu8 && b[f + 1] == 0xd9u8 && #[trigger] jpeg_rgba(
            b.subrange(start, f + 2),
        ) is Some)
}

proof fn lemma_first_jpeg_from_reaches(b: Seq<u8>, start: int, from: int, end: int)
    requires
        0 <= start <= from <= end,
        end + 1 < b.len(),
        b[end] == 0xffu8,
        b[end + 1] == 0xd9u8,
        jpeg_rgba(b.subrange(start, end + 2)) is Some,
        no_decodable_end_between(b, start, from, end),
    ensures
        first_jpeg_from(b, start, from) == jpeg_rgba(b.subrange(start, end + 2)),
    decreases end - from,
{
    if from < end {
        assert(!(b[from] == 0xffu8 && b[from + 1] == 0xd9u8 && jpeg_rgba(b.subrange(start, from + 2)) is Some));
        lemma_first_jpeg_from_reaches(b, start, from + 1, end);
    }
}

proof fn lemma_first_jpeg_from_none(b: Seq<u8>, start: int, from: int)
    requires
        0 <= start <= from,
        no_decodable_end_between(b, start, from, b.len() as int),
    ensures
        first_jpeg_from(b, start, from) is None,
    decreases b.len() - from,
{
    if from + 1 < b.len() {
        assert(!(b[from] == 0xffu8 && b[from + 1] == 0xd9u8 && jpeg_rgba(b.subrange(start, from + 2)) is Some));
        lemma_first_jpeg_from_none(b, start, from + 1);
    }
}

proof fn lemma_first_jpeg_from_witness(b: Seq<u8>, start: int, from: int)
    requires
        0 <= start <= from,
        first_jpeg_from(b, start, from) is Some,
    ensures
        exists|end: int|
            from <= end && end + 1 < b.len() && b[end] == 0xffu8 && b[end + 1] == 0xd9u8
                && no_decodable_end_between(b, start, from, end)
                && #[trigger] jpeg_rgba(b.subrange(start, end + 2)) == first_jpeg_from(b, start, from),
    decreases b.len() - from,
{
    if is_jpeg_end(b, from) && jpeg_rgba(b.subrange(start, from + 2)) is Some {
        assert(no_decodable_end_between(b, start, from, from));
    } else {
        lemma_first_jpeg_from_witness(b, start, from + 1);
        let end = choose|end: int|
            from + 1 <= end && end + 1 < b.len() && b[end] == 0xffu8 && b[end + 1] == 0xd9u8
                && no_decodable_end_between(b, start, from + 1, end)
                && #[trigger] jpeg_rgba(b.subrange(start, end + 2)) == first_jpeg_from(b, start, from + 1);
        assert(no_decodable_end_between(b, start, from, end));
    }
}

/// The JPEG embedded at a start marker ends at the first end-of-image marker
/// after the start marker whose span decodes, however far away it is; with no
/// such marker there is none.
pub proof fn lemma_embedded_jpeg_ends_at_first_decodable_end(b: Seq<u8>, start: int, end: int)
    requires
        0 <= start,
        start + 2 <= end,
        end + 1 < b.len(),
    ensures
        b[end] == 0xffu8 && b[end + 1] == 0xd9u8 && jpeg_rgba(b.subrange(start, end + 2)) is Some
            && no_decodable_end_between(b, start, start + 2, end) ==> jpeg_at(b, start) == jpeg_rgba(
            b.subrange(start, end + 2),
        ),
        no_decodable_end_between(b, start, start + 2, b.len() as int) ==> jpeg_at(b, start) is None,
{
    if b[end] == 0xffu8 && b[end + 1] == 0xd9u8 && jpeg_rgba(b.subrange(start, end + 2)) is Some
        && no_decodable_end_between(b, start, start + 2, end) {
        lemma_first_jpeg_from_reaches(b, start, start + 2, end);
    }
    if no_decodable_end_between(b, start, start + 2, b.len() as int) {
        lemma_first_jpeg_from_none(b, start, start + 2);
    }
}

/// A candidate of the scan: a start marker at `start` and the first
/// end-of-image marker after it, at `end`, whose span decodes.
pub open spec fn is_scan_candidate(b: Seq<u8>, start: int, end: int) -> bool {
    &&& 0 <= start
    &&& start + 1 < b.len()
    &&& b[start] == 0xffu8
    &&& b[start + 1] == 0xd8u8
    &&& start + 2 <= end
    &&& end + 1 < b.len()
    &&& b[end] == 0xffu8
    &&& b[end + 1] == 0xd9u8
    &&& jpeg_rgba(b.subrange(start, end + 2)) is Some
    &&& no_decodable_end_between(b, start, start + 2, end)
}

/// The preview of a RAW container is the decoding of one of the scan's
/// candidates, and it has at least as many pixels (`width * height`) as the
/// decoding of every candidate.
pub proof fn lemma_preview_has_most_pixels(b: Seq<u8>)
    ensures
        forall|start: int, end: int|
            #[trigger] is_scan_candidate(b, start, end) ==> (best_embedded_jpeg(b) matches Some(best)
                && jpeg_rgba(b.subrange(start, end + 2)) matches Some(c) && c.0 as int * c.1 as int
                <= best.0 as int * best.1 as int),
        best_embedded_jpeg(b) matches Some(best) ==> exists|start: int, end: int|
            #[trigger] is_scan_candidate(b, start, end) && jpeg_rgba(b.subrange(start, end + 2)) == Some(best),
{
    lemma_embedded_preview_is_largest(b);
    assert forall|start: int, end: int| #[trigger] is_scan_candidate(b, start, end) implies (
    best_embedded_jpeg(b) matches Some(best) && jpeg_rgba(b.subrange(start, end + 2)) matches Some(c)
        && c.0 as int * c.1 as int <= best.0 as int * best.1 as int) by {
        lemma_embedded_jpeg_ends_at_first_decodable_end(b, start, end);
        assert(is_jpeg_start(b, start));
        assert(jpeg_at(b, start) == jpeg_rgba(b.subrange(start, end + 2)));
    }
    if best_embedded_jpeg(b) is Some {
        let best = best_embedded_jpeg(b).unwrap();
        let start = choose|i: int| is_jpeg_start(b, i) && #[trigger] jpeg_at(b, i) == Some(best);
        lemma_first_jpeg_from_witness(b, start, start + 2);
        let end = choose|end: int|
            start + 2 <= end && end + 1 < b.len() && b[end] == 0xffu8 && b[end + 1] == 0xd9u8
                && no_decodable_end_between(b, start, start + 2, end)
                && #[trigger] jpeg_rgba(b.subrange(start, end + 2)) == first_jpeg_from(b, start, start + 2);
        assert(is_scan_candidate(b, start, end));
    }
}

} // verus!
