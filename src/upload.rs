//! Screening of uploaded images: signature sniffing, limits, fingerprints
//! and thumbnail geometry.

use vstd::prelude::*;
use vstd::string::StringExecFns;
use vstd::string::StringSliceAdditionalSpecFns;
use image::GenericImageView;
use crate::codec::{hex_encode, hex_of, sha256_digest, sha256_of};

verus! {

/// Image formats accepted for upload.
#[derive(Debug, Clone, Copy, PartialEq, Eq, Structural)]
pub enum AllowedFormat {
    Jpeg,
    Png,
    Gif,
    WebP,
}

/// The format whose signature opens `b`, judged on the first twelve bytes.
pub open spec fn format_of(b: Seq<u8>) -> Option<AllowedFormat> {
    if b.len() < 12 {
        None
    } else if b[0] == 0xFF && b[1] == 0xD8 && b[2] == 0xFF {
        Some(AllowedFormat::Jpeg)
    } else if b[0] == 0x89 && b[1] == 0x50 && b[2] == 0x4E && b[3] == 0x47 && b[4] == 0x0D
        && b[5] == 0x0A && b[6] == 0x1A && b[7] == 0x0A {
        Some(AllowedFormat::Png)
    } else if b[0] == 0x47 && b[1] == 0x49 && b[2] == 0x46 && b[3] == 0x38 {
        Some(AllowedFormat::Gif)
    } else if b[0] == 0x52 && b[1] == 0x49 && b[2] == 0x46 && b[3] == 0x46 && b[8] == 0x57
        && b[9] == 0x45 && b[10] == 0x42 && b[11] == 0x50 {
        Some(AllowedFormat::WebP)
    } else {
        None
    }
}

pub open spec fn extension_of(f: AllowedFormat) -> Seq<char> {
    match f {
        AllowedFormat::Jpeg => "jpg"@,
        AllowedFormat::Png => "png"@,
        AllowedFormat::Gif => "gif"@,
        AllowedFormat::WebP => "webp"@,
    }
}

pub open spec fn mime_of(f: AllowedFormat) -> Seq<char> {
    match f {
        AllowedFormat::Jpeg => "image/jpeg"@,
        AllowedFormat::Png => "image/png"@,
        AllowedFormat::Gif => "image/gif"@,
        AllowedFormat::WebP => "image/webp"@,
    }
}

impl AllowedFormat {
    /// Detects the format from the leading signature bytes only.
    pub fn from_magic_bytes(bytes: &[u8]) -> (r: Option<AllowedFormat>)
        ensures
            r == format_of(bytes@),
    {
        if bytes.len() < 12 {
            return None;
        }
        if bytes[0] == 0xFF && bytes[1] == 0xD8 && bytes[2] == 0xFF {
            return Some(AllowedFormat::Jpeg);
        }
        if bytes[0] == 0x89 && bytes[1] == 0x50 && bytes[2] == 0x4E && bytes[3] == 0x47
            && bytes[4] == 0x0D && bytes[5] == 0x0A && bytes[6] == 0x1A && bytes[7] == 0x0A {
            return Some(AllowedFormat::Png);
        }
        if bytes[0] == 0x47 && bytes[1] == 0x49 && bytes[2] == 0x46 && bytes[3] == 0x38 {
            return Some(AllowedFormat::Gif);
        }
        if bytes[0] == 0x52 && bytes[1] == 0x49 && bytes[2] == 0x46 && bytes[3] == 0x46
            && bytes[8] == 0x57 && bytes[9] == 0x45 && bytes[10] == 0x42 && bytes[11] == 0x50 {
            return Some(AllowedFormat::WebP);
        }
        None
    }

    /// File extension used when the asset is stored.
    pub fn extension(&self) -> (r: &'static str)
        ensures
            r@ == extension_of(*self),
    {
        match self {
            AllowedFormat::Jpeg => "jpg",
            AllowedFormat::Png => "png",
            AllowedFormat::Gif => "gif",
            AllowedFormat::WebP => "webp",
        }
    }

    /// MIME type reported for the asset.
    pub fn mime_type(&self) -> (r: &'static str)
        ensures
            r@ == mime_of(*self),
    {
        match self {
            AllowedFormat::Jpeg => "image/jpeg",
            AllowedFormat::Png => "image/png",
            AllowedFormat::Gif => "image/gif",
            AllowedFormat::WebP => "image/webp",
        }
    }
}

#[verifier::external_type_specification]
#[verifier::external_body]
pub struct ExDynamicImage(image::DynamicImage);

#[verifier::external_type_specification]
#[verifier::external_body]
pub struct ExImageError(image::ImageError);

/// Width and height of the image that `b` decodes to as format `f`, or
/// `None` when it does not decode.
pub uninterp spec fn decoded_size(b: Seq<u8>, f: AllowedFormat) -> Option<(u32, u32)>;

/// The bytes of encoding in format `f` the image that `b` decodes to as
/// `f`, taken as it is when `size` is its own size and otherwise resampled
/// with the Lanczos3 filter to exactly `size`; `None` when encoding fails.
/// The encoders write pixels alone, so equal images give equal bytes.
pub uninterp spec fn encoding(b: Seq<u8>, f: AllowedFormat, size: (u32, u32)) -> Option<Seq<u8>>;

/// A decoded image, with the upload bytes it came from and its size.
pub struct Picture {
    img: image::DynamicImage,
    source: Ghost<Seq<u8>>,
    format: AllowedFormat,
    resampled: Ghost<bool>,
    width: u32,
    height: u32,
}

/// Relies on `image::load_from_memory_with_format` and on
/// `GenericImageView::dimensions` of the result: decodes `data` as the
/// given format, or reports why it cannot.
#[verifier::external_body]
fn decode_image(data: &[u8], format: AllowedFormat) -> (r: Result<Picture, image::ImageError>)
    ensures
        r is Ok <==> decoded_size(data@, format) is Some,
        r matches Ok(p) ==> p.source@ == data@ && p.format == format && !p.resampled@
            && decoded_size(data@, format) == Some((p.width, p.height)),
{
    let f = match format {
        AllowedFormat::Jpeg => image::ImageFormat::Jpeg,
        AllowedFormat::Png => image::ImageFormat::Png,
        AllowedFormat::Gif => image::ImageFormat::Gif,
        AllowedFormat::WebP => image::ImageFormat::WebP,
    };
    let img = image::load_from_memory_with_format(data, f)?;
    let (width, height) = img.dimensions();
    Ok(Picture { img, source: Ghost(data@), format, resampled: Ghost(false), width, height })
}

/// Relies on `DynamicImage::write_to`: encodes the pixels alone in the
/// picture's format, so nothing of the original container survives.
#[verifier::external_body]
fn encode_image(p: &Picture) -> (r: Result<Vec<u8>, image::ImageError>)
    ensures
        r is Ok <==> encoding(p.source@, p.format, (p.width, p.height)) is Some,
        r matches Ok(bytes) ==> encoding(p.source@, p.format, (p.width, p.height)) == Some(bytes@),
{
    let f = match p.format {
        AllowedFormat::Jpeg => image::ImageFormat::Jpeg,
        AllowedFormat::Png => image::ImageFormat::Png,
        AllowedFormat::Gif => image::ImageFormat::Gif,
        AllowedFormat::WebP => image::ImageFormat::WebP,
    };
    let mut buffer = std::io::Cursor::new(Vec::new());
    p.img.write_to(&mut buffer, f).map(|_| buffer.into_inner())
}

/// Relies on `DynamicImage::resize_exact` with the Lanczos3 filter: a new
/// image of exactly the given size.
#[verifier::external_body]
fn resize_image(p: &Picture, width: u32, height: u32) -> (r: Picture)
    requires
        !p.resampled@,
        width > 0,
        height > 0,
        (width, height) != (p.width, p.height),
    ensures
        r.source@ == p.source@,
        r.format == p.format,
        r.resampled@,
        r.width == width,
        r.height == height,
{
    let img = p.img.resize_exact(width, height, image::imageops::FilterType::Lanczos3);
    Picture { img, source: Ghost(p.source@), format: p.format, resampled: Ghost(true), width, height }
}

/// Upload limits.
#[derive(Debug, Clone)]
pub struct UploadConfig {
    /// Directory the assets are stored under.
    pub upload_dir: String,
    /// Largest accepted upload, in bytes.
    pub max_file_size: usize,
    /// Largest accepted width and height.
    pub max_dimension: u32,
    /// Bound on the thumbnail's longer edge.
    pub thumb_size: u32,
}

impl Default for UploadConfig {
    fn default() -> (r: UploadConfig)
        ensures
            r.upload_dir@ == "uploads"@,
            r.max_file_size == 4 * 1024 * 1024,
            r.max_dimension == 4096,
            r.thumb_size == 250,
    {
        UploadConfig {
            upload_dir: String::from_str("uploads"),
            max_file_size: 4 * 1024 * 1024,
            max_dimension: 4096,
            thumb_size: 250,
        }
    }
}

/// Thumbnail size for an image of `width` by `height`: the image itself when
/// it fits within `bound`, else scaled so the longer edge equals `bound`
/// (the shorter one rounded down, at least one pixel).
pub open spec fn thumb_dims(width: int, height: int, bound: int) -> (int, int) {
    if width <= bound && height <= bound {
        (width, height)
    } else if width > height {
        (bound, if bound * height / width >= 1 { bound * height / width } else { 1 })
    } else {
        (if bound * width / height >= 1 { bound * width / height } else { 1 }, bound)
    }
}

/// Size of the thumbnail of an image of `width` by `height`.
pub fn thumbnail_size(width: u32, height: u32, bound: u32) -> (r: (u32, u32))
    ensures
        (r.0 as int, r.1 as int) == thumb_dims(width as int, height as int, bound as int),
        width <= bound && height <= bound ==> r == (width, height),
        !(width <= bound && height <= bound) && bound > 0 ==> r.0 <= bound && r.1 <= bound && (r.0
            == bound || r.1 == bound),
{
    if width <= bound && height <= bound {
        return (width, height);
    }
    if width > height {
        proof {
            assert(bound as u64 * height as u64 <= 0xFFFF_FFFFu64 * 0xFFFF_FFFFu64) by (nonlinear_arith)
                requires
                    bound <= 0xFFFF_FFFFu32,
                    height <= 0xFFFF_FFFFu32,
            {
            }
        }
        let scaled = (bound as u64 * height as u64) / width as u64;
        proof {
            assert(bound as int * height as int / width as int <= bound as int) by (nonlinear_arith)
                requires
                    height < width,
                    width > 0,
            {
                assert(bound as int * height as int <= bound as int * width as int);
            }
        }
        (bound, if scaled >= 1 { scaled as u32 } else { 1 })
    } else {
        proof {
            assert(bound as u64 * width as u64 <= 0xFFFF_FFFFu64 * 0xFFFF_FFFFu64) by (nonlinear_arith)
                requires
                    bound <= 0xFFFF_FFFFu32,
                    width <= 0xFFFF_FFFFu32,
            {
            }
        }
        let scaled = (bound as u64 * width as u64) / height as u64;
        proof {
            assert(bound as int * width as int / height as int <= bound as int) by (nonlinear_arith)
                requires
                    width <= height,
                    height > 0,
            {
                assert(bound as int * width as int <= bound as int * height as int);
            }
        }
        (if scaled >= 1 { scaled as u32 } else { 1 }, bound)
    }
}

/// Why an upload was refused.
#[derive(Debug, Clone, PartialEq, Eq)]
pub enum UploadError {
    /// More bytes than the ceiling allows.
    TooLarge { size: usize, max: usize },
    /// The leading bytes carry no accepted signature.
    UnsupportedFormat,
    /// The bytes do not decode as the format they claim.
    Undecodable,
    /// Wider or taller than the ceiling allows.
    TooManyPixels { width: u32, height: u32, max: u32 },
    /// Re-encoding the pixels failed.
    Unencodable,
}

/// An upload that passed every gate: its fingerprint, its geometry, and the
/// re-encoded image and thumbnail.
#[derive(Debug, Clone)]
pub struct ScreenedImage {
    pub format: AllowedFormat,
    /// Lowercase hex SHA-256 of the bytes as uploaded.
    pub file_hash: String,
    pub width: u32,
    pub height: u32,
    /// The image re-encoded from its pixels.
    pub data: Vec<u8>,
    pub thumb_width: u32,
    pub thumb_height: u32,
    /// The thumbnail, encoded in the same format.
    pub thumb_data: Vec<u8>,
}

/// Fingerprint of content: lowercase hex of its SHA-256.
pub open spec fn fingerprint_of(b: Seq<u8>) -> Seq<char> {
    hex_of(sha256_of(b))
}

/// Fingerprint of uploaded bytes, as stored for duplicate detection.
pub fn hash_file(data: &[u8]) -> (r: String)
    ensures
        r@ == fingerprint_of(data@),
        r@.len() == 64,
{
    let digest = sha256_digest(data);
    hex_encode(digest.as_slice())
}

/// Fingerprint of a message, over its text as submitted.
pub fn hash_message(message: &str) -> (r: String)
    ensures
        r@ == fingerprint_of(message.spec_bytes()),
        r@.len() == 64,
{
    hash_file(message.as_bytes())
}

/// Size of the thumbnail of an image of `width` by `height`.
pub open spec fn thumb_size_of(width: u32, height: u32, bound: u32) -> (u32, u32) {
    let t = thumb_dims(width as int, height as int, bound as int);
    (t.0 as u32, t.1 as u32)
}

/// The refusal an upload earns, gate by gate (size, signature, decode,
/// dimensions, re-encoding of the image and of its thumbnail), or `None`
/// when it passes them all.
pub open spec fn screen_outcome(data: Seq<u8>, config: UploadConfig) -> Option<UploadError> {
    if data.len() > config.max_file_size {
        Some(UploadError::TooLarge { size: data.len() as usize, max: config.max_file_size })
    } else {
        match format_of(data) {
            None => Some(UploadError::UnsupportedFormat),
            Some(f) => match decoded_size(data, f) {
                None => Some(UploadError::Undecodable),
                Some(wh) => if wh.0 > config.max_dimension || wh.1 > config.max_dimension {
                    Some(
                        UploadError::TooManyPixels {
                            width: wh.0,
                            height: wh.1,
                            max: config.max_dimension,
                        },
                    )
                } else if encoding(data, f, wh) is Some && encoding(
                    data,
                    f,
                    thumb_size_of(wh.0, wh.1, config.thumb_size),
                ) is Some {
                    None
                } else {
                    Some(UploadError::Unencodable)
                },
            },
        }
    }
}

/// The gates of an upload, in order: size, signature, fingerprint, decode,
/// dimensions, re-encode, thumbnail. The thumbnail bound must be positive.
pub fn screen_upload(data: &[u8], config: &UploadConfig) -> (r: Result<ScreenedImage, UploadError>)
    requires
        config.thumb_size > 0,
    ensures
        match screen_outcome(data@, *config) {
            Some(e) => r == Err::<ScreenedImage, UploadError>(e),
            None => r is Ok,
        },
        r matches Ok(s) ==> {
            &&& format_of(data@) == Some(s.format)
            &&& decoded_size(data@, s.format) == Some((s.width, s.height))
            &&& s.file_hash@ == fingerprint_of(data@)
            &&& s.file_hash@.len() == 64
            &&& (s.thumb_width, s.thumb_height) == thumb_size_of(s.width, s.height, config.thumb_size)
            &&& encoding(data@, s.format, (s.width, s.height)) == Some(s.data@)
            &&& encoding(data@, s.format, (s.thumb_width, s.thumb_height)) == Some(s.thumb_data@)
            &&& s.width <= config.thumb_size && s.height <= config.thumb_size ==> s.thumb_data@
                == s.data@
            &&& s.width <= config.thumb_size && s.height <= config.thumb_size ==> (
            s.thumb_width,
            s.thumb_height,
        ) == (s.width, s.height)
            &&& !(s.width <= config.thumb_size && s.height <= config.thumb_size) ==> s.thumb_width
                <= config.thumb_size && s.thumb_height <= config.thumb_size && (s.thumb_width
                == config.thumb_size || s.thumb_height == config.thumb_size)
        },
{
    if data.len() > config.max_file_size {
        return Err(UploadError::TooLarge { size: data.len(), max: config.max_file_size });
    }
    let format = match AllowedFormat::from_magic_bytes(data) {
        Some(f) => f,
        None => {
            return Err(UploadError::UnsupportedFormat);
        },
    };
    let file_hash = hash_file(data);
    let picture = match decode_image(data, format) {
        Ok(p) => p,
        Err(_) => {
            return Err(UploadError::Undecodable);
        },
    };
    let width = picture.width;
    let height = picture.height;
    if width > config.max_dimension || height > config.max_dimension {
        return Err(UploadError::TooManyPixels { width, height, max: config.max_dimension });
    }
    let clean = match encode_image(&picture) {
        Ok(bytes) => bytes,
        Err(_) => {
            return Err(UploadError::Unencodable);
        },
    };
    let (thumb_width, thumb_height) = thumbnail_size(width, height, config.thumb_size);
    let thumb = if thumb_width == width && thumb_height == height {
        encode_image(&picture)
    } else {
        proof {
            assert(!(width <= config.thumb_size && height <= config.thumb_size));
        }
        let small = resize_image(&picture, thumb_width, thumb_height);
        encode_image(&small)
    };
    let thumb_data = match thumb {
        Ok(bytes) => bytes,
        Err(_) => {
            return Err(UploadError::Unencodable);
        },
    };
    Ok(
        ScreenedImage {
            format,
            file_hash,
            width,
            height,
            data: clean,
            thumb_width,
            thumb_height,
            thumb_data,
        },
    )
}

/// Whether `c` is alphabetic or numeric in Unicode.
pub uninterp spec fn alphanumeric(c: char) -> bool;

/// Relies on `char::is_alphanumeric`; ASCII letters and digits are the only
/// ASCII characters it accepts.
#[verifier::external_body]
fn is_alphanumeric(c: char) -> (r: bool)
    ensures
        r == alphanumeric(c),
        ('a' <= c <= 'z' || 'A' <= c <= 'Z' || '0' <= c <= '9') ==> r,
        (c as u32) < 128 && !('a' <= c <= 'z' || 'A' <= c <= 'Z' || '0' <= c <= '9') ==> !r,
{
    c.is_alphanumeric()
}

/// Characters a display name may keep.
pub open spec fn name_char_allowed(c: char) -> bool {
    ('a' <= c <= 'z') || ('A' <= c <= 'Z') || ('0' <= c <= '9') || ((c as u32) >= 128
        && alphanumeric(c)) || c == '.' || c == '_' || c == '-'
}

/// The characters of `s` that a display name may keep, in order.
pub open spec fn kept_name_chars(s: Seq<char>) -> Seq<char>
    decreases s.len(),
{
    if s.len() == 0 {
        s
    } else if name_char_allowed(s.last()) {
        kept_name_chars(s.drop_last()).push(s.last())
    } else {
        kept_name_chars(s.drop_last())
    }
}

/// Index of the last `/` in `s`, or -1.
pub open spec fn last_slash(s: Seq<char>) -> int
    decreases s.len(),
{
    if s.len() == 0 {
        -1
    } else if s.last() == '/' {
        s.len() - 1
    } else {
        last_slash(s.drop_last())
    }
}

/// The final component of a Unix path, as `Path::file_name` reads it:
/// trailing separators and `.` components are skipped, and a path that ends
/// in `..` or has no component has none.
pub open spec fn file_name_of(s: Seq<char>) -> Option<Seq<char>>
    decreases s.len(),
{
    if s.len() == 0 {
        None
    } else if s.last() == '/' {
        file_name_of(s.drop_last())
    } else if s.last() == '.' && (s.len() == 1 || s[s.len() - 2] == '/') {
        if s.len() == 1 {
            None
        } else {
            file_name_of(s.drop_last())
        }
    } else {
        let seg = s.subrange(last_slash(s) + 1, s.len() as int);
        if seg == seq!['.', '.'] {
            None
        } else {
            Some(seg)
        }
    }
}

/// Length cap of a display name, in characters.
pub const MAX_NAME_CHARS: usize = 100;

/// Display form of a declared filename: its last path component (or
/// `unnamed`), cut to the allowed characters and to the length cap.
pub open spec fn sanitized_name(name: Seq<char>) -> Seq<char> {
    let base = match file_name_of(name) {
        Some(f) => f,
        None => "unnamed"@,
    };
    let k = kept_name_chars(base);
    if k.len() <= MAX_NAME_CHARS {
        k
    } else {
        k.take(MAX_NAME_CHARS as int)
    }
}

proof fn lemma_kept_prefix(s: Seq<char>, i: int, j: int)
    requires
        0 <= i <= j <= s.len(),
    ensures
        kept_name_chars(s.take(i)).len() <= kept_name_chars(s.take(j)).len(),
        kept_name_chars(s.take(i)) == kept_name_chars(s.take(j)).take(
            kept_name_chars(s.take(i)).len() as int,
        ),
    decreases j - i,
{
    if i < j {
        lemma_kept_prefix(s, i, j - 1);
        assert(s.take(j).drop_last() =~= s.take(j - 1));
        let a = kept_name_chars(s.take(j - 1));
        let b = kept_name_chars(s.take(j));
        let c = kept_name_chars(s.take(i));
        assert(c =~= b.take(c.len() as int)) by {
            assert forall|k: int| 0 <= k < c.len() implies c[k] == b[k] by {
                assert(c[k] == a[k]);
            }
        }
    } else {
        assert(kept_name_chars(s.take(i)).take(kept_name_chars(s.take(i)).len() as int)
            =~= kept_name_chars(s.take(i)));
    }
}

fn keep_name_chars(seg: &str) -> (r: String)
    ensures
        r@ == (if kept_name_chars(seg@).len() <= MAX_NAME_CHARS {
            kept_name_chars(seg@)
        } else {
            kept_name_chars(seg@).take(MAX_NAME_CHARS as int)
        }),
{
    let cs = crate::text::chars_of(seg);
    let n = cs.len();
    let mut out = String::new();
    let mut count: usize = 0;
    let mut i: usize = 0;
    while i < n
        invariant
            cs@ == seg@,
            n == seg@.len(),
            0 <= i <= n,
            count == out@.len(),
            out@ == (if kept_name_chars(seg@.take(i as int)).len() <= MAX_NAME_CHARS {
                kept_name_chars(seg@.take(i as int))
            } else {
                kept_name_chars(seg@.take(i as int)).take(MAX_NAME_CHARS as int)
            }),
        decreases n - i,
    {
        let c = cs[i];
        proof {
            assert(seg@.take(i + 1).drop_last() =~= seg@.take(i as int));
            assert(seg@.take(i + 1).last() == c);
            lemma_kept_prefix(seg@, i as int, i + 1);
        }
        let allowed = is_alphanumeric(c) || c == '.' || c == '_' || c == '-';
        if allowed && count < MAX_NAME_CHARS {
            crate::text::push_char(&mut out, c);
            count += 1;
        }
        proof {
            let prev = kept_name_chars(seg@.take(i as int));
            let next = kept_name_chars(seg@.take(i + 1));
            if prev.len() >= MAX_NAME_CHARS {
                assert(next.take(MAX_NAME_CHARS as int) =~= prev.take(MAX_NAME_CHARS as int));
            }
        }
        i += 1;
    }
    proof {
        assert(seg@.take(n as int) =~= seg@);
    }
    out
}

proof fn lemma_last_slash(t: Seq<char>, start: int)
    requires
        0 <= start <= t.len(),
        forall|k: int| start <= k < t.len() ==> t[k] != '/',
        start == 0 || t[start - 1] == '/',
    ensures
        last_slash(t) == start - 1,
    decreases t.len(),
{
    if t.len() > start {
        lemma_last_slash(t.drop_last(), start);
    }
}

/// The final path component of `name`, if it has one.
fn file_name(name: &str) -> (r: Option<&str>)
    ensures
        match r {
            Some(f) => file_name_of(name@) == Some(f@),
            None => file_name_of(name@) is None,
        },
{
    let n = name.unicode_len();
    let mut end: usize = n;
    proof {
        assert(name@.take(n as int) =~= name@);
    }
    loop
        invariant
            n == name@.len(),
            0 <= end <= n,
            file_name_of(name@) == file_name_of(name@.take(end as int)),
        ensures
            0 < end <= n,
            file_name_of(name@) == file_name_of(name@.take(end as int)),
            name@[end - 1] != '/',
            !(name@[end - 1] == '.' && (end == 1 || name@[end - 2] == '/')),
        decreases end,
    {
        if end == 0 {
            return None;
        }
        let c = name.get_char(end - 1);
        let t = Ghost(name@.take(end as int));
        proof {
            assert(t@.drop_last() =~= name@.take(end - 1));
            assert(t@.last() == c);
        }
        if c == '/' {
            end -= 1;
        } else if c == '.' && (end == 1 || name.get_char(end - 2) == '/') {
            proof {
                if end >= 2 {
                    assert(t@[t@.len() - 2] == name@[end - 2]);
                }
            }
            if end == 1 {
                return None;
            }
            end -= 1;
        } else {
            break;
        }
    }
    let mut start: usize = end;
    while start > 0 && name.get_char(start - 1) != '/'
        invariant
            n == name@.len(),
            0 <= start <= end <= n,
            forall|k: int| start <= k < end ==> name@[k] != '/',
        decreases start,
    {
        start -= 1;
    }
    let t = Ghost(name@.take(end as int));
    proof {
        lemma_last_slash(t@, start as int);
        assert(t@.subrange(start as int, end as int) =~= name@.subrange(start as int, end as int));
    }
    let seg = name.substring_char(start, end);
    if end - start == 2 && seg.get_char(0) == '.' && seg.get_char(1) == '.' {
        proof {
            assert(seg@ =~= seq!['.', '.']);
        }
        None
    } else {
        proof {
            if seg@ == seq!['.', '.'] {
                assert(seg@[0] == '.');
            }
        }
        Some(seg)
    }
}

/// Display form of a declared filename. It is never used as a storage path.
pub fn sanitize_filename(name: &str) -> (r: String)
    ensures
        r@ == sanitized_name(name@),
{
    match file_name(name) {
        Some(f) => keep_name_chars(f),
        None => keep_name_chars("unnamed"),
    }
}

/// An upload as stored: where both assets went and what they are.
#[derive(Debug, Clone)]
pub struct ProcessedImage {
    /// Path of the stored image, relative to the upload directory.
    pub file_path: String,
    /// Path of the stored thumbnail, relative to the upload directory.
    pub thumb_path: String,
    /// Declared filename, sanitized for display.
    pub original_name: String,
    pub mime_type: String,
    /// Size of the stored image in bytes.
    pub file_size: i64,
    pub width: i32,
    pub height: i32,
    pub thumb_width: i32,
    pub thumb_height: i32,
    /// Lowercase hex SHA-256 of the bytes as uploaded.
    pub file_hash: String,
}

/// Storage path of an image stored under `file_id`.
pub open spec fn image_path(file_id: Seq<char>, f: AllowedFormat) -> Seq<char> {
    "src/"@ + file_id + "."@ + extension_of(f)
}

/// Storage path of a thumbnail stored under `file_id`.
pub open spec fn thumb_path(file_id: Seq<char>, f: AllowedFormat) -> Seq<char> {
    "thumb/"@ + file_id + "_thumb."@ + extension_of(f)
}

impl ProcessedImage {
    /// The record of a screened upload stored under the fresh identifier
    /// `file_id`; the declared name only ever reaches the display name.
    pub fn stored(screened: &ScreenedImage, file_id: &str, original_name: &str) -> (r: ProcessedImage)
        ensures
            r.file_path@ == image_path(file_id@, screened.format),
            r.thumb_path@ == thumb_path(file_id@, screened.format),
            r.original_name@ == sanitized_name(original_name@),
            r.mime_type@ == mime_of(screened.format),
            r.file_size as int == if screened.data@.len() <= i64::MAX as int {
                screened.data@.len() as int
            } else {
                i64::MAX as int
            },
            r.width == screened.width as i32,
            r.height == screened.height as i32,
            r.thumb_width == screened.thumb_width as i32,
            r.thumb_height == screened.thumb_height as i32,
            r.file_hash@ == screened.file_hash@,
    {
        let ext = screened.format.extension();
        let mut file_path = String::from_str("src/");
        file_path.append(file_id);
        file_path.append(".");
        file_path.append(ext);
        let mut thumb = String::from_str("thumb/");
        thumb.append(file_id);
        thumb.append("_thumb.");
        thumb.append(ext);
        let size = screened.data.len();
        let file_size: i64 = if size as u64 <= i64::MAX as u64 {
            size as i64
        } else {
            i64::MAX
        };
        ProcessedImage {
            file_path,
            thumb_path: thumb,
            original_name: sanitize_filename(original_name),
            mime_type: String::from_str(screened.format.mime_type()),
            file_size,
            width: screened.width as i32,
            height: screened.height as i32,
            thumb_width: screened.thumb_width as i32,
            thumb_height: screened.thumb_height as i32,
            file_hash: screened.file_hash.clone(),
        }
    }
}

/// Relies on uuid's `Uuid::new_v4`, written in its hyphenated form of 36
/// characters: a fresh random identifier.
#[verifier::external_body]
fn new_file_id() -> (r: String)
    ensures
        r@.len() == 36,
{
    uuid::Uuid::new_v4().to_string()
}

/// The record of a screened upload under a fresh random identifier.
pub fn fresh_record(screened: &ScreenedImage, original_name: &str) -> (r: ProcessedImage)
    ensures
        exists|id: Seq<char>|
            id.len() == 36 && r.file_path@ == image_path(id, screened.format) && r.thumb_path@
                == thumb_path(id, screened.format),
        r.original_name@ == sanitized_name(original_name@),
        r.mime_type@ == mime_of(screened.format),
        r.file_size as int == if screened.data@.len() <= i64::MAX as int {
            screened.data@.len() as int
        } else {
            i64::MAX as int
        },
        r.width == screened.width as i32,
        r.height == screened.height as i32,
        r.thumb_width == screened.thumb_width as i32,
        r.thumb_height == screened.thumb_height as i32,
        r.file_hash@ == screened.file_hash@,
        screened.file_hash@.len() == 64 ==> r.file_hash@.len() == 64,
{
    let id = new_file_id();
    ProcessedImage::stored(screened, id.as_str(), original_name)
}

} // verus!
