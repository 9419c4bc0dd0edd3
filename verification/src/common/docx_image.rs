//! Images for DOCX output: PDF page selection, conversion to PNG and
//! scaling.
use vstd::prelude::*;
use crate::text::{at, chars_of, has_at, parse_u32, parse_u32_spec, slice_of, string_from_chars};

pub use crate::paths::is_pdf;

verus! {

/// Word measures drawings in EMU; 96 DPI makes one pixel 9525 EMU.
pub const EMU_PER_PIXEL: u32 = 9_525;

/// Why a `#page=` fragment was refused.
#[derive(Debug, Clone, PartialEq, Eq)]
pub enum PageError {
    /// The page is not a number.
    Invalid { page: String, url: String },
    /// Pages count from 1.
    Zero { url: String },
}

/// Last position of `pat` in `t` at or before `k`, or -1.
pub open spec fn last_at(t: Seq<char>, pat: Seq<char>, k: int) -> int
    decreases k + 1,
{
    if k < 0 {
        -1
    } else if has_at(t, k, pat) {
        k
    } else {
        last_at(t, pat, k - 1)
    }
}

pub open spec fn page_marker() -> Seq<char> {
    "#page="@
}

/// Page errors as values.
pub enum SPageError {
    Invalid(Seq<char>),
    Zero,
}

/// A URL `file.pdf#page=N` names page N (N from 1); without the fragment,
/// no page. The fragment is the last `#page=` of the URL.
pub open spec fn split_pdf_page_spec(url: Seq<char>) -> Result<(Seq<char>, Option<u32>), SPageError> {
    let k = last_at(url, page_marker(), url.len() as int);
    if k < 0 {
        Ok((url, None))
    } else {
        let text = url.subrange(k + 6, url.len() as int);
        match parse_u32_spec(text) {
            None => Err(SPageError::Invalid(text)),
            Some(p) => if p == 0 { Err(SPageError::Zero) } else { Ok((url.subrange(0, k), Some(p))) },
        }
    }
}

/// Splits a PDF page fragment off an image URL.
pub fn split_pdf_page(url: &str) -> (r: Result<(String, Option<u32>), PageError>)
    ensures
        match r {
            Ok((p, n)) => split_pdf_page_spec(url@) == Ok::<(Seq<char>, Option<u32>), SPageError>((p@, n)),
            Err(PageError::Invalid { page, url: u }) => u@ == url@
                && split_pdf_page_spec(url@) == Err::<(Seq<char>, Option<u32>), SPageError>(SPageError::Invalid(page@)),
            Err(PageError::Zero { url: u }) => u@ == url@
                && split_pdf_page_spec(url@) == Err::<(Seq<char>, Option<u32>), SPageError>(SPageError::Zero),
        },
{
    let t = chars_of(url);
    let m = chars_of("#page=");
    assert(m@ == page_marker());
    let n = t.len();
    let mut k: usize = n;
    proof {
        reveal_strlit("#page=");
        assert(!has_at(url@, n as int, page_marker()));
    }
    while k > 0 && !at(&t, k - 1, &m)
        invariant
            k <= t@.len() + 1,
            n == t@.len(),
            t@ == url@,
            m@ == page_marker(),
            m@.len() == 6,
            last_at(url@, page_marker(), k - 1) == last_at(url@, page_marker(), url@.len() as int),
        decreases k,
    {
        k -= 1;
    }
    if k == 0 {
        return Ok((url.to_owned(), None));
    }
    let pos = k - 1;
    assert(has_at(t@, pos as int, m@));
    let text = slice_of(&t, pos + 6, t.len());
    match parse_u32(&text) {
        None => Err(PageError::Invalid { page: string_from_chars(&text), url: url.to_owned() }),
        Some(p) => {
            if p == 0 {
                Err(PageError::Zero { url: url.to_owned() })
            } else {
                Ok((string_from_chars(&slice_of(&t, 0, pos)), Some(p)))
            }
        },
    }
}

/// Size in EMU after scaling down to `max_width` (height at least 1).
pub open spec fn scaled_size_spec(width: u32, height: u32, max_width: u32) -> (u32, u32) {
    if width > max_width {
        let h = (height as nat * max_width as nat) / width as nat;
        (max_width, if h < 1 { 1 } else { h as u32 })
    } else {
        (width, height)
    }
}

/// Scales an image down to the page width, keeping its aspect ratio.
pub fn scaled_size(width: u32, height: u32, max_width: u32) -> (r: (u32, u32))
    ensures
        r == scaled_size_spec(width, height, max_width),
{
    if width > max_width {
        assert((height as u64) * (max_width as u64) <= u64::MAX) by (nonlinear_arith)
            requires
                height <= u32::MAX,
                max_width <= u32::MAX,
        {
        }
        let h64 = (height as u64) * (max_width as u64) / (width as u64);
        proof {
            let a = height as nat;
            let b = max_width as nat;
            let w = width as nat;
            assert(a * b / w <= a) by (nonlinear_arith)
                requires
                    w > b,
            {
                assert(a * b <= a * w);
            }
        }
        let h = h64 as u32;
        (max_width, if h < 1 { 1 } else { h })
    } else {
        (width, height)
    }
}


/// Name for what the `image` crate makes of encoded image bytes:
/// `image::load_from_memory`, then the decoded size and the PNG that
/// `DynamicImage::write_to` writes (`None` when writing fails), or `None`
/// when the bytes do not decode.
pub uninterp spec fn png_of(bytes: Seq<u8>) -> Option<(Option<Seq<u8>>, u32, u32)>;

pub open spec fn opt_bytes(o: Option<Vec<u8>>) -> Option<Seq<u8>> {
    match o {
        Some(v) => Some(v@),
        None => None,
    }
}

/// Decodes `bytes` with `image::load_from_memory`, reads the size with
/// `GenericImageView::dimensions` and encodes the image as PNG with
/// `DynamicImage::write_to`. Only the name above is claimed.
#[verifier::external_body]
fn decode_to_png(bytes: &[u8]) -> (r: Option<(Option<Vec<u8>>, u32, u32)>)
    ensures
        match r {
            Some((p, w, h)) => png_of(bytes@) == Some((opt_bytes(p), w, h)),
            None => png_of(bytes@) is None,
        },
{
    let image = match image::load_from_memory(bytes) {
        Ok(image) => image,
        Err(_) => return None,
    };
    let (w, h) = image::GenericImageView::dimensions(&image);
    let mut png = std::io::Cursor::new(Vec::new());
    let encoded = match image.write_to(&mut png, image::ImageFormat::Png) {
        Ok(()) => Some(png.into_inner()),
        Err(_) => None,
    };
    Some((encoded, w, h))
}

/// Why an image cannot be embedded.
#[derive(Debug, Clone, Copy, PartialEq, Eq, Structural)]
pub enum ImageError {
    /// The bytes are not an image the decoder knows.
    Unreadable,
    /// The image has no pixels.
    EmptySize,
    /// Writing the PNG failed.
    NotEncoded,
    /// A side is too long to be measured in EMU with 32 bits.
    TooLarge,
}

/// A picture ready for the document: the PNG, its size in pixels and the
/// drawing size in EMU.
pub struct Picture {
    pub png: Vec<u8>,
    pub width_px: u32,
    pub height_px: u32,
    pub width_emu: u32,
    pub height_emu: u32,
}

/// The picture made of a decoding result (see [`png_of`]): an error when the
/// bytes did not decode, the image is empty, the PNG could not be written or
/// a side does not fit in EMU; otherwise the PNG with its size, the drawing
/// scaled down to `max_width_emu`.
pub open spec fn picture_spec(decoded: Option<(Option<Seq<u8>>, u32, u32)>, max_width_emu: u32)
    -> Result<(Seq<u8>, u32, u32, u32, u32), ImageError>
{
    match decoded {
        None => Err(ImageError::Unreadable),
        Some((png, w, h)) => if w == 0 || h == 0 {
            Err(ImageError::EmptySize)
        } else {
            match png {
                None => Err(ImageError::NotEncoded),
                Some(p) => if w * 9525 > u32::MAX || h * 9525 > u32::MAX {
                    Err(ImageError::TooLarge)
                } else {
                    let (a, b) = scaled_size_spec((w * 9525) as u32, (h * 9525) as u32, max_width_emu);
                    Ok((p, w, h, a, b))
                }
            }
        },
    }
}

pub open spec fn picture_view(r: Result<Picture, ImageError>) -> Result<(Seq<u8>, u32, u32, u32, u32), ImageError> {
    match r {
        Ok(p) => Ok((p.png@, p.width_px, p.height_px, p.width_emu, p.height_emu)),
        Err(e) => Err(e),
    }
}

/// The picture of a decoding result (see [`picture_spec`]).
pub fn sized_picture(decoded: Option<(Option<Vec<u8>>, u32, u32)>, max_width_emu: u32) -> (r: Result<Picture, ImageError>)
    ensures
        picture_view(r) == picture_spec(
            match decoded { Some((p, w, h)) => Some((opt_bytes(p), w, h)), None => None },
            max_width_emu,
        ),
{
    match decoded {
        None => Err(ImageError::Unreadable),
        Some((png, w, h)) => {
            if w == 0 || h == 0 {
                return Err(ImageError::EmptySize);
            }
            match png {
                None => Err(ImageError::NotEncoded),
                Some(p) => {
                    if w > u32::MAX / EMU_PER_PIXEL || h > u32::MAX / EMU_PER_PIXEL {
                        return Err(ImageError::TooLarge);
                    }
                    let we = w * EMU_PER_PIXEL;
                    let he = h * EMU_PER_PIXEL;
                    let (a, b) = scaled_size(we, he, max_width_emu);
                    Ok(Picture { png: p, width_px: w, height_px: h, width_emu: a, height_emu: b })
                },
            }
        },
    }
}

/// Converts image bytes to a PNG picture no wider than `max_width_emu`
/// (see [`picture_spec`]).
pub fn picture(bytes: &[u8], max_width_emu: u32) -> (r: Result<Picture, ImageError>)
    ensures
        picture_view(r) == picture_spec(png_of(bytes@), max_width_emu),
{
    let decoded = decode_to_png(bytes);
    sized_picture(decoded, max_width_emu)
}

} // verus!
