//! Downloaded covers count as complete only once they decode to real artwork: Steam can
//! answer with a flat gray placeholder, which must stay retryable.
use vstd::prelude::*;

verus! {

/// Why downloaded cover bytes are not used.
#[derive(Debug, Clone, Copy, PartialEq, Eq, Structural)]
pub enum CoverError {
    Invalid,
    TooSmall,
    Placeholder,
}

impl CoverError {
    pub fn message(&self) -> (r: String)
        ensures
            r@ == match *self {
                CoverError::Invalid => "Cover is invalid or too large"@,
                CoverError::TooSmall => "Cover is too small"@,
                CoverError::Placeholder => "Steam returned a blank placeholder"@,
            },
    {
        match self {
            CoverError::Invalid => String::from_str("Cover is invalid or too large"),
            CoverError::TooSmall => String::from_str("Cover is too small"),
            CoverError::Placeholder => String::from_str("Steam returned a blank placeholder"),
        }
    }
}

/// The largest cover width and height that is decoded, in pixels.
pub const COVER_MAX_SIDE: u32 = 4096;

/// The most memory a cover decode may allocate, in bytes (64 MiB).
pub const COVER_MAX_ALLOC: u64 = 67108864;

/// What the `image` crate decodes from JPEG bytes under the given limits on width,
/// height and allocation, as 8-bit RGB: width, height and the samples row by row.
pub uninterp spec fn jpeg_rgb(bytes: Seq<u8>, max_width: u32, max_height: u32, max_alloc: u64) -> Option<(u32, u32, Seq<u8>)>;

/// Decodes with `image::ImageReader` as a JPEG under the given `image::Limits` and
/// converts with `DynamicImage::to_rgb8`; the result is named by `jpeg_rgb` of the bytes
/// and the limits. An RGB buffer holds at least three samples for each pixel.
#[verifier::external_body]
fn decode_jpeg(bytes: &[u8], max_width: u32, max_height: u32, max_alloc: u64) -> (r: Option<(u32, u32, Vec<u8>)>)
    ensures
        match r {
            Some((w, h, p)) => jpeg_rgb(bytes@, max_width, max_height, max_alloc) == Some((w, h, p@)) && 3 * w * h <= p@.len(),
            None => jpeg_rgb(bytes@, max_width, max_height, max_alloc) is None,
        },
{
    let mut reader = image::ImageReader::with_format(std::io::Cursor::new(bytes), image::ImageFormat::Jpeg);
    let mut limits = image::Limits::default();
    limits.max_image_width = Some(max_width);
    limits.max_image_height = Some(max_height);
    limits.max_alloc = Some(max_alloc);
    reader.limits(limits);
    match reader.decode() {
        Ok(image) => {
            let rgb = image.to_rgb8();
            let (w, h) = rgb.dimensions();
            Some((w, h, rgb.into_raw()))
        },
        Err(_) => None,
    }
}

/// Sample `c` of the pixel at column `x` and row `y`.
pub open spec fn sample(p: Seq<u8>, w: u32, x: int, y: int, c: int) -> int {
    p[3 * (y * w + x) + c] as int
}

/// The pixel lies inside the border of a twentieth of each side.
pub open spec fn interior(w: u32, h: u32, x: int, y: int) -> bool {
    w / 20 <= x < w - w / 20 && h / 20 <= y < h - h / 20
}

/// Some channel varies by more than 4 between two interior pixels.
pub open spec fn varied(p: Seq<u8>, w: u32, h: u32) -> bool {
    exists|c: int, x1: int, y1: int, x2: int, y2: int|
        0 <= c < 3 && interior(w, h, x1, y1) && interior(w, h, x2, y2) && #[trigger] sample(p, w, x1, y1, c)
            - #[trigger] sample(p, w, x2, y2, c) > 4
}

/// What decoded pixels mean for a cover: at least 32 by 32 pixels, and not a near-uniform
/// interior.
pub open spec fn pixels_verdict(w: u32, h: u32, p: Seq<u8>) -> Result<(), CoverError> {
    if w < 32 || h < 32 {
        Err(CoverError::TooSmall)
    } else if !varied(p, w, h) {
        Err(CoverError::Placeholder)
    } else {
        Ok(())
    }
}

/// What cover bytes mean, decoded under the cover limits.
pub open spec fn cover_verdict(bytes: Seq<u8>) -> Result<(), CoverError> {
    match jpeg_rgb(bytes, COVER_MAX_SIDE, COVER_MAX_SIDE, COVER_MAX_ALLOC) {
        None => Err(CoverError::Invalid),
        Some((w, h, p)) => pixels_verdict(w, h, p),
    }
}

/// Pixel (x, y) was visited by a row-major scan of the interior that is at (cx, cy).
pub open spec fn visited(w: u32, h: u32, x: int, y: int, cx: int, cy: int) -> bool {
    interior(w, h, x, y) && (y < cy || (y == cy && x < cx))
}

/// `lo` and `hi` bound channel `c` over the visited pixels and are reached there.
pub open spec fn bounds(p: Seq<u8>, w: u32, h: u32, c: int, lo: int, hi: int, cx: int, cy: int, any: bool) -> bool {
    &&& forall|x: int, y: int| visited(w, h, x, y, cx, cy) ==> lo <= #[trigger] sample(p, w, x, y, c) <= hi
    &&& any ==> exists|x: int, y: int| visited(w, h, x, y, cx, cy) && #[trigger] sample(p, w, x, y, c) == lo
    &&& any ==> exists|x: int, y: int| visited(w, h, x, y, cx, cy) && #[trigger] sample(p, w, x, y, c) == hi
}

proof fn lemma_index(w: u32, h: u32, x: int, y: int, c: int)
    requires
        0 <= x < w,
        0 <= y < h,
        0 <= c < 3,
    ensures
        0 <= 3 * (y * w + x) + c < 3 * w * h,
{
    assert(y * w + x < w * h) by (nonlinear_arith)
        requires
            0 <= x < w,
            0 <= y < h,
    ;
    assert(0 <= y * w) by (nonlinear_arith)
        requires
            0 <= y,
            0 <= w,
    ;
    assert(3 * (w * h) == 3 * w * h) by (nonlinear_arith);
}

/// Checks decoded pixels: size first, then whether any channel of the interior varies by
/// more than 4, which a flat gray placeholder with a thin border does not.
pub fn check_pixels(w: u32, h: u32, p: &Vec<u8>) -> (r: Result<(), CoverError>)
    requires
        3 * w * h <= p@.len(),
    ensures
        r == pixels_verdict(w, h, p@),
{
    if w < 32 || h < 32 {
        return Err(CoverError::TooSmall);
    }
    let x0 = w / 20;
    let x1 = w - w / 20;
    let y0 = h / 20;
    let y1 = h - h / 20;
    let ghost s = p@;
    let mut lo: [u8; 3] = [255u8, 255u8, 255u8];
    let mut hi: [u8; 3] = [0u8, 0u8, 0u8];
    let mut any = false;
    let mut y = y0;
    while y < y1
        invariant
            32 <= w,
            32 <= h,
            s == p@,
            3 * w * h <= s.len(),
            x0 == w / 20,
            x1 == w - w / 20,
            y0 == h / 20,
            y1 == h - h / 20,
            y0 <= y <= y1,
            any == (y > y0),
            forall|c: int| 0 <= c < 3 ==> bounds(s, w, h, c, lo@[c] as int, hi@[c] as int, x0 as int, y as int, any),
        decreases y1 - y,
    {
        let mut x = x0;
        while x < x1
            invariant
                32 <= w,
                32 <= h,
                s == p@,
                3 * w * h <= s.len(),
                x0 == w / 20,
                x1 == w - w / 20,
                y0 == h / 20,
                y1 == h - h / 20,
                y0 <= y < y1,
                x0 <= x <= x1,
                any == (y > y0 || x > x0),
                forall|c: int| 0 <= c < 3 ==> bounds(s, w, h, c, lo@[c] as int, hi@[c] as int, x as int, y as int, any),
            decreases x1 - x,
        {
            let mut c: usize = 0;
            let ghost lo0 = lo@;
            let ghost hi0 = hi@;
            while c < 3
                invariant
                    32 <= w,
                    32 <= h,
                    s == p@,
                    3 * w * h <= s.len(),
                    x0 == w / 20,
                    x1 == w - w / 20,
                    y0 == h / 20,
                    y1 == h - h / 20,
                    y0 <= y < y1,
                    x0 <= x < x1,
                    c <= 3,
                    any == (y > y0 || x > x0),
                    forall|d: int| c <= d < 3 ==> lo@[d] == lo0[d] && hi@[d] == hi0[d],
                    forall|d: int| 0 <= d < 3 ==> bounds(s, w, h, d, lo0[d] as int, hi0[d] as int, x as int, y as int, any),
                    forall|d: int| 0 <= d < c ==> lo@[d] as int == (if !any || sample(s, w, x as int, y as int, d) < lo0[d] {
                        sample(s, w, x as int, y as int, d)
                    } else {
                        lo0[d] as int
                    }),
                    forall|d: int| 0 <= d < c ==> hi@[d] as int == (if !any || sample(s, w, x as int, y as int, d) > hi0[d] {
                        sample(s, w, x as int, y as int, d)
                    } else {
                        hi0[d] as int
                    }),
                decreases 3 - c,
            {
                proof {
                    lemma_index(w, h, x as int, y as int, c as int);
                    assert(p@.len() == p.len());
                    assert(0 <= y * w) by (nonlinear_arith)
                        requires
                            0 <= y,
                            0 <= w,
                    ;
                    assert(3 * (y * w + x) + c < p.len());
                }
                let i = 3 * ((y as usize) * (w as usize) + (x as usize)) + c;
                let v = p[i];
                assert(v as int == sample(s, w, x as int, y as int, c as int));
                if !any || v < lo[c] {
                    lo.set(c, v);
                }
                if !any || v > hi[c] {
                    hi.set(c, v);
                }
                c += 1;
            }
            proof {
                assert forall|d: int| 0 <= d < 3 implies bounds(s, w, h, d, lo@[d] as int, hi@[d] as int, x + 1, y as int, true) by {
                    let here = sample(s, w, x as int, y as int, d);
                    assert(visited(w, h, x as int, y as int, x + 1, y as int));
                    assert forall|a: int, b: int| visited(w, h, a, b, x + 1, y as int) implies lo@[d] <= #[trigger] sample(s, w, a, b, d) <= hi@[d] by {
                        if !(a == x && b == y) {
                            assert(visited(w, h, a, b, x as int, y as int));
                        }
                    }
                    if any && here >= lo0[d] {
                        let (a, b) = choose|a: int, b: int| visited(w, h, a, b, x as int, y as int) && #[trigger] sample(s, w, a, b, d) == lo0[d];
                        assert(visited(w, h, a, b, x + 1, y as int));
                    }
                    if any && here <= hi0[d] {
                        let (a, b) = choose|a: int, b: int| visited(w, h, a, b, x as int, y as int) && #[trigger] sample(s, w, a, b, d) == hi0[d];
                        assert(visited(w, h, a, b, x + 1, y as int));
                    }
                }
            }
            any = true;
            x += 1;
        }
        proof {
            assert forall|d: int| 0 <= d < 3 implies bounds(s, w, h, d, lo@[d] as int, hi@[d] as int, x0 as int, y + 1, any) by {
                assert forall|a: int, b: int| visited(w, h, a, b, x0 as int, y + 1) implies lo@[d] <= #[trigger] sample(s, w, a, b, d) <= hi@[d] by {
                    assert(visited(w, h, a, b, x as int, y as int));
                }
                if any {
                    let (a, b) = choose|a: int, b: int| visited(w, h, a, b, x as int, y as int) && #[trigger] sample(s, w, a, b, d) == lo@[d];
                    assert(visited(w, h, a, b, x0 as int, y + 1));
                    let (a2, b2) = choose|a: int, b: int| visited(w, h, a, b, x as int, y as int) && #[trigger] sample(s, w, a, b, d) == hi@[d];
                    assert(visited(w, h, a2, b2, x0 as int, y + 1));
                }
            }
        }
        y += 1;
    }
    let spread = (hi[0] >= lo[0] && hi[0] - lo[0] > 4) || (hi[1] >= lo[1] && hi[1] - lo[1] > 4) || (hi[2] >= lo[2] && hi[2] - lo[2] > 4);
    proof {
        assert(y0 < y1) by (nonlinear_arith)
            requires
                32 <= h,
                y0 == h / 20,
                y1 == h - h / 20,
        ;
        assert(x0 < x1) by (nonlinear_arith)
            requires
                32 <= w,
                x0 == w / 20,
                x1 == w - w / 20,
        ;
        assert(any);
        if spread {
            let d: int = if hi@[0] >= lo@[0] && hi@[0] - lo@[0] > 4 {
                0
            } else if hi@[1] >= lo@[1] && hi@[1] - lo@[1] > 4 {
                1
            } else {
                2
            };
            assert(bounds(s, w, h, d, lo@[d] as int, hi@[d] as int, x0 as int, y as int, true));
            let (a, b) = choose|a: int, b: int| visited(w, h, a, b, x0 as int, y as int) && #[trigger] sample(s, w, a, b, d) == hi@[d];
            let (a2, b2) = choose|a: int, b: int| visited(w, h, a, b, x0 as int, y as int) && #[trigger] sample(s, w, a, b, d) == lo@[d];
            assert(sample(s, w, a, b, d) - sample(s, w, a2, b2, d) > 4);
        } else {
            assert forall|d: int, a: int, b: int, a2: int, b2: int|
                0 <= d < 3 && interior(w, h, a, b) && interior(w, h, a2, b2) implies !(#[trigger] sample(s, w, a, b, d)
                    - #[trigger] sample(s, w, a2, b2, d) > 4) by {
                assert(bounds(s, w, h, d, lo@[d] as int, hi@[d] as int, x0 as int, y as int, true));
                assert(visited(w, h, a, b, x0 as int, y as int));
                assert(visited(w, h, a2, b2, x0 as int, y as int));
            }
        }
    }
    if spread {
        Ok(())
    } else {
        Err(CoverError::Placeholder)
    }
}

/// Decodes downloaded cover bytes before a download counts as complete; a partial or
/// placeholder download stays retryable.
pub fn validate_cover(bytes: &[u8]) -> (r: Result<(), CoverError>)
    ensures
        r == cover_verdict(bytes@),
{
    match decode_jpeg(bytes, COVER_MAX_SIDE, COVER_MAX_SIDE, COVER_MAX_ALLOC) {
        None => Err(CoverError::Invalid),
        Some((w, h, p)) => check_pixels(w, h, &p),
    }
}

} // verus!

verus! {

/// The media path of a downloaded Steam cover of app `app_id`, named with the UUID `id`:
/// `media/steam-<app>-<uuid>.jpg`.
pub open spec fn cover_media_path(app_id: u32, id: u128) -> Seq<char> {
    "media/steam-"@ + crate::text::decimal(app_id as nat) + "-"@ + crate::reader::uuid_text(id) + ".jpg"@
}

/// A fresh media path for a downloaded cover: every download gets a new random version-4
/// UUID in its name, so a cover in use is never overwritten.
pub fn new_cover_path(app_id: u32) -> (r: String)
    ensures
        exists|id: u128| #![trigger cover_media_path(app_id, id)]
            (id >> 76u128) & 0xfu128 == 4 && (id >> 62u128) & 0x3u128 == 2 && r@ == cover_media_path(app_id, id),
{
    let id = crate::stores::random_id();
    let mut path = String::from_str("media/steam-");
    crate::text::push_decimal(&mut path, app_id as u64);
    path.append("-");
    let t = crate::reader::uuid_string(id);
    path.append(t.as_str());
    path.append(".jpg");
    assert(path@ == cover_media_path(app_id, id));
    path
}

} // verus!
