//! The image library: file naming, format detection, safe file names,
//! listing order and paging, and the single-flight OCR gate.
use vstd::prelude::*;
use crate::text::{
    ascii_lowered, chars_of, concat, contains_char, decimal, decimal_string, owned, str_eq,
    string_from, to_ascii_lowercase, trim, trimmed,
};
use crate::paths::{
    extension_of_name, file_name, file_name_of, is_sep, join, joined_path, name_extension,
    path_extension, path_extension_of, plain_name_extension, single_normal, single_normal_component,
    single_normal_stays_inside, stays_inside,
};

verus! {

/// A file of the image library.
#[derive(Debug, Clone)]
pub struct ImageInfo {
    pub id: String,
    pub filename: String,
    pub path: String,
    pub size: u64,
    pub created_at: u64,
    pub category: String,
}

/// One page of the image library.
#[derive(Debug, Clone)]
pub struct ImageListResult {
    pub total: usize,
    pub items: Vec<ImageInfo>,
}

/// The contents of an [`ImageInfo`].
pub struct ImageInfoView {
    pub id: Seq<char>,
    pub filename: Seq<char>,
    pub path: Seq<char>,
    pub size: u64,
    pub created_at: u64,
    pub category: Seq<char>,
}

impl View for ImageInfo {
    type V = ImageInfoView;

    open spec fn view(&self) -> ImageInfoView {
        ImageInfoView {
            id: self.id@,
            filename: self.filename@,
            path: self.path@,
            size: self.size,
            created_at: self.created_at,
            category: self.category@,
        }
    }
}

/// The contents of each image.
pub open spec fn infos(s: Seq<ImageInfo>) -> Seq<ImageInfoView> {
    s.map_values(|x: ImageInfo| x@)
}

impl ImageInfo {
    /// A copy with the same contents.
    pub fn duplicate(&self) -> (r: ImageInfo)
        ensures
            r@ == self@,
    {
        ImageInfo {
            id: self.id.clone(),
            filename: self.filename.clone(),
            path: self.path.clone(),
            size: self.size,
            created_at: self.created_at,
            category: self.category.clone(),
        }
    }
}

// ---------------------------------------------------------------------------
// Directories.

/// The category that a requested category name selects: `gifs` for `"gifs"`,
/// `images` for anything else.
pub open spec fn category_key(category: Seq<char>) -> Seq<char> {
    if category == "gifs"@ {
        "gifs"@
    } else {
        "images"@
    }
}

/// The category that a requested category name selects.
pub fn image_category_key(category: &str) -> (r: String)
    ensures
        r@ == category_key(category@),
{
    if str_eq(category, "gifs") {
        owned("gifs")
    } else {
        owned("images")
    }
}

/// `<data>/image_library`.
pub fn get_image_library_dir(data_dir: &str, sep: char) -> (r: String)
    ensures
        r@ == joined_path(data_dir@, "image_library"@, sep),
{
    join(data_dir, "image_library", sep)
}

/// `<data>/image_library/images`.
pub fn get_images_dir(data_dir: &str, sep: char) -> (r: String)
    ensures
        r@ == joined_path(joined_path(data_dir@, "image_library"@, sep), "images"@, sep),
{
    join(get_image_library_dir(data_dir, sep).as_str(), "images", sep)
}

/// `<data>/image_library/gifs`.
pub fn get_gifs_dir(data_dir: &str, sep: char) -> (r: String)
    ensures
        r@ == joined_path(joined_path(data_dir@, "image_library"@, sep), "gifs"@, sep),
{
    join(get_image_library_dir(data_dir, sep).as_str(), "gifs", sep)
}

/// The directory of a requested category.
pub fn category_dir(data_dir: &str, category: &str, sep: char) -> (r: String)
    ensures
        r@ == joined_path(joined_path(data_dir@, "image_library"@, sep), category_key(category@), sep),
{
    let key = image_category_key(category);
    join(get_image_library_dir(data_dir, sep).as_str(), key.as_str(), sep)
}

// ---------------------------------------------------------------------------
// File kinds.

/// The extensions of the files that the library lists (compared in lower case).
pub open spec fn is_listed_extension(ext: Seq<char>) -> bool {
    ext == "png"@ || ext == "jpg"@ || ext == "jpeg"@ || ext == "gif"@ || ext == "webp"@ || ext
        == "bmp"@ || ext == "avif"@ || ext == "svg"@ || ext == "ico"@ || ext == "tiff"@ || ext
        == "tif"@ || ext == "heic"@ || ext == "heif"@ || ext == "jfif"@
}

/// Whether a path names an image file: its extension, in ASCII lower case, is
/// one of the listed ones.
pub open spec fn is_image_file(path: Seq<char>) -> bool {
    match path_extension(path) {
        Some(e) => is_listed_extension(ascii_lowered(e)),
        None => false,
    }
}

/// Whether a path names an image file.
pub fn allowed_image_extension(path: &str) -> (r: bool)
    ensures
        r == is_image_file(path@),
{
    match path_extension_of(path) {
        Some(e) => {
            let l = string_from(&to_ascii_lowercase(&chars_of(e.as_str())));
            let s = l.as_str();
            str_eq(s, "png") || str_eq(s, "jpg") || str_eq(s, "jpeg") || str_eq(s, "gif")
                || str_eq(s, "webp") || str_eq(s, "bmp") || str_eq(s, "avif") || str_eq(s, "svg")
                || str_eq(s, "ico") || str_eq(s, "tiff") || str_eq(s, "tif") || str_eq(s, "heic")
                || str_eq(s, "heif") || str_eq(s, "jfif")
        },
        None => false,
    }
}

/// Whether the data begins with a GIF signature (`GIF87a` or `GIF89a`).
pub open spec fn gif_magic(d: Seq<u8>) -> bool {
    d.len() >= 6 && d[0] == 0x47 && d[1] == 0x49 && d[2] == 0x46 && d[3] == 0x38 && (d[4] == 0x37
        || d[4] == 0x39) && d[5] == 0x61
}

/// Whether the data begins with a WebP header (`RIFF` ... `WEBP`).
pub open spec fn webp_magic(d: Seq<u8>) -> bool {
    d.len() >= 12 && d[0] == 0x52 && d[1] == 0x49 && d[2] == 0x46 && d[3] == 0x46 && d[8] == 0x57
        && d[9] == 0x45 && d[10] == 0x42 && d[11] == 0x50
}

/// Whether the data is an animated WebP: an extended (`VP8X`) WebP of at least
/// 30 bytes whose animation flag (bit 1 of byte 20) is set.
pub open spec fn animated_webp(d: Seq<u8>) -> bool {
    webp_magic(d) && d.len() >= 30 && d[12] == 0x56 && d[13] == 0x50 && d[14] == 0x38 && d[15]
        == 0x58 && (d[20] & 2) != 0
}

/// Whether the data begins with a GIF signature.
pub fn is_gif_by_magic(data: &[u8]) -> (r: bool)
    ensures
        r == gif_magic(data@),
{
    data.len() >= 6 && data[0] == 0x47 && data[1] == 0x49 && data[2] == 0x46 && data[3] == 0x38
        && (data[4] == 0x37 || data[4] == 0x39) && data[5] == 0x61
}

/// Whether the data begins with a WebP header.
pub fn is_webp_by_magic(data: &[u8]) -> (r: bool)
    ensures
        r == webp_magic(data@),
{
    data.len() >= 12 && data[0] == 0x52 && data[1] == 0x49 && data[2] == 0x46 && data[3] == 0x46
        && data[8] == 0x57 && data[9] == 0x45 && data[10] == 0x42 && data[11] == 0x50
}

/// Whether the data is an animated WebP.
pub fn is_animated_webp(data: &[u8]) -> (r: bool)
    ensures
        r == animated_webp(data@),
{
    if !is_webp_by_magic(data) || data.len() < 30 {
        return false;
    }
    if data[12] == 0x56 && data[13] == 0x50 && data[14] == 0x38 && data[15] == 0x58 {
        let flags = data[20];
        return (flags & 0x02) != 0;
    }
    false
}

/// How a picture is stored in the library.
pub struct ImageSavePlan {
    /// The extension of the stored file.
    pub extension: String,
    /// `gifs` or `images`.
    pub category: String,
    /// Whether a still WebP is re-encoded as JPEG before it is stored.
    pub convert_webp_to_jpg: bool,
    /// Where the text for the file name comes from.
    pub ocr_source: OcrSource,
}

/// Which picture the OCR reads to name a stored file.
#[derive(Clone, Copy, Debug, PartialEq, Eq, Structural)]
pub enum OcrSource {
    /// The first frame of the GIF.
    GifFirstFrame,
    /// The stored picture itself.
    StoredData,
    /// No OCR (animated pictures).
    NoOcr,
}

/// How a picture is stored: a GIF as is under `gifs`; an animated WebP as is
/// under `gifs`; a still WebP re-encoded as JPEG under `images`; anything else as
/// is under `images`, keeping the extension of the given file name (`png` when it
/// has none). GIFs are named after the text of their first frame, pictures under
/// `images` after their own text, animated WebPs not at all.
pub fn plan_image_save(filename: &str, data: &[u8]) -> (r: ImageSavePlan)
    ensures
        gif_magic(data@) ==> r.extension@ == "gif"@ && r.category@ == "gifs"@
            && !r.convert_webp_to_jpg && r.ocr_source == OcrSource::GifFirstFrame,
        !gif_magic(data@) && animated_webp(data@) ==> r.extension@ == "webp"@ && r.category@
            == "gifs"@ && !r.convert_webp_to_jpg && r.ocr_source == OcrSource::NoOcr,
        !gif_magic(data@) && webp_magic(data@) && !animated_webp(data@) ==> r.extension@
            == "jpg"@ && r.category@ == "images"@ && r.convert_webp_to_jpg && r.ocr_source
            == OcrSource::StoredData,
        !gif_magic(data@) && !webp_magic(data@) ==> r.extension@ == (match path_extension(
            filename@,
        ) {
            Some(e) => e,
            None => "png"@,
        }) && r.category@ == "images"@ && !r.convert_webp_to_jpg && r.ocr_source
            == OcrSource::StoredData,
{
    if is_gif_by_magic(data) {
        ImageSavePlan {
            extension: owned("gif"),
            category: owned("gifs"),
            convert_webp_to_jpg: false,
            ocr_source: OcrSource::GifFirstFrame,
        }
    } else if is_webp_by_magic(data) {
        if is_animated_webp(data) {
            ImageSavePlan {
                extension: owned("webp"),
                category: owned("gifs"),
                convert_webp_to_jpg: false,
                ocr_source: OcrSource::NoOcr,
            }
        } else {
            ImageSavePlan {
                extension: owned("jpg"),
                category: owned("images"),
                convert_webp_to_jpg: true,
                ocr_source: OcrSource::StoredData,
            }
        }
    } else {
        let ext = match path_extension_of(filename) {
            Some(e) => e,
            None => owned("png"),
        };
        ImageSavePlan {
            extension: ext,
            category: owned("images"),
            convert_webp_to_jpg: false,
            ocr_source: OcrSource::StoredData,
        }
    }
}

// ---------------------------------------------------------------------------
// Re-encoding pictures.

/// A decoded picture (`image::DynamicImage`); opaque here.
#[verifier::external_type_specification]
#[verifier::external_body]
pub struct ExDynamicImage(image::DynamicImage);

/// The encodings the library writes.
#[derive(Clone, Copy, Debug, PartialEq, Eq, Structural)]
pub enum PictureFormat {
    Jpeg,
    Png,
}

/// What `image::load_from_memory` gives for the bytes: the decoded picture, or
/// the text of its error.
pub uninterp spec fn decoded_picture(data: Seq<u8>) -> Result<image::DynamicImage, Seq<char>>;

/// `image::load_from_memory`: decodes a picture, its format guessed from its
/// bytes; a failure comes back as the error's text. The contract names the
/// outcome.
#[verifier::external_body]
fn load_picture(data: &[u8]) -> (r: Result<image::DynamicImage, String>)
    ensures
        match r {
            Ok(p) => decoded_picture(data@) == Ok::<image::DynamicImage, Seq<char>>(p),
            Err(e) => decoded_picture(data@) == Err::<image::DynamicImage, Seq<char>>(e@),
        },
{
    image::load_from_memory(data).map_err(|e| e.to_string())
}

/// What `image::load_from_memory_with_format` with the GIF format gives for the
/// bytes: the first frame on its full canvas, when the bytes decode as a GIF.
pub uninterp spec fn gif_first_frame(data: Seq<u8>) -> Option<image::DynamicImage>;

/// `image::load_from_memory_with_format` with the GIF format: decodes the
/// first frame of a GIF. The contract names the outcome.
#[verifier::external_body]
fn load_gif_first_frame(data: &[u8]) -> (r: Option<image::DynamicImage>)
    ensures
        r == gif_first_frame(data@),
{
    image::load_from_memory_with_format(data, image::ImageFormat::Gif).ok()
}

/// What `DynamicImage::write_to` writes for the picture, as JPEG (`jpeg`) or
/// PNG: the bytes, or the text of its error.
pub uninterp spec fn encoded_picture(picture: image::DynamicImage, jpeg: bool) -> Result<
    Seq<u8>,
    Seq<char>,
>;

/// `DynamicImage::write_to` into memory, as JPEG or PNG; a failure comes back as
/// the error's text. The contract names the outcome.
#[verifier::external_body]
fn encode_picture(picture: &image::DynamicImage, format: PictureFormat) -> (r: Result<Vec<u8>, String>)
    ensures
        match r {
            Ok(b) => encoded_picture(*picture, format == PictureFormat::Jpeg) == Ok::<
                Seq<u8>,
                Seq<char>,
            >(b@),
            Err(e) => encoded_picture(*picture, format == PictureFormat::Jpeg) == Err::<
                Seq<u8>,
                Seq<char>,
            >(e@),
        },
{
    let format = match format {
        PictureFormat::Jpeg => image::ImageFormat::Jpeg,
        PictureFormat::Png => image::ImageFormat::Png,
    };
    let mut buffer: Vec<u8> = Vec::new();
    picture.write_to(&mut std::io::Cursor::new(&mut buffer), format).map_err(|e| e.to_string())?;
    Ok(buffer)
}

/// Re-encoding a WebP as JPEG: the JPEG bytes of the decoded picture; a failure
/// to decode after `解码 WebP 失败: `, a failure to encode after `编码 JPG 失败: `.
pub open spec fn webp_to_jpg(data: Seq<u8>) -> Result<Seq<u8>, Seq<char>> {
    match decoded_picture(data) {
        Err(e) => Err("解码 WebP 失败: "@ + e),
        Ok(p) => match encoded_picture(p, true) {
            Ok(b) => Ok(b),
            Err(e) => Err("编码 JPG 失败: "@ + e),
        },
    }
}

/// Re-encodes a still WebP as JPEG. A failure to decode comes back after
/// `解码 WebP 失败: `, a failure to encode after `编码 JPG 失败: `.
pub fn convert_webp_to_jpg(data: &[u8]) -> (r: Result<Vec<u8>, String>)
    ensures
        match r {
            Ok(b) => webp_to_jpg(data@) == Ok::<Seq<u8>, Seq<char>>(b@),
            Err(m) => webp_to_jpg(data@) == Err::<Seq<u8>, Seq<char>>(m@),
        },
        r matches Err(m) ==> exists|t: Seq<char>|
            m@ == "解码 WebP 失败: "@ + t || m@ == "编码 JPG 失败: "@ + t,
{
    let picture = match load_picture(data) {
        Ok(p) => p,
        Err(e) => {
            return Err(concat("解码 WebP 失败: ", e.as_str()));
        },
    };
    match encode_picture(&picture, PictureFormat::Jpeg) {
        Ok(bytes) => Ok(bytes),
        Err(e) => Err(concat("编码 JPG 失败: ", e.as_str())),
    }
}

/// The first frame of a GIF as PNG bytes: none when the bytes do not decode as
/// a GIF or the frame cannot be encoded.
pub open spec fn gif_frame_png(data: Seq<u8>) -> Option<Seq<u8>> {
    match gif_first_frame(data) {
        None => None,
        Some(frame) => match encoded_picture(frame, false) {
            Ok(b) => Some(b),
            Err(_) => None,
        },
    }
}

/// The first frame of a GIF as a PNG, for text recognition; none when the GIF
/// cannot be decoded or the frame encoded.
pub fn extract_gif_first_frame(data: &[u8]) -> (r: Option<Vec<u8>>)
    ensures
        match r {
            Some(b) => gif_frame_png(data@) == Some(b@),
            None => gif_frame_png(data@) is None,
        },
{
    let frame = load_gif_first_frame(data)?;
    match encode_picture(&frame, PictureFormat::Png) {
        Ok(bytes) => Some(bytes),
        Err(_) => None,
    }
}

// ---------------------------------------------------------------------------
// OCR text in file names.

/// Whether `char::is_alphanumeric` holds of the character.
pub uninterp spec fn alphanumeric(c: char) -> bool;

/// `char::is_alphanumeric` (Unicode `Alphabetic` or `Numeric`); the contract
/// names its result.
#[verifier::external_body]
fn char_is_alphanumeric(c: char) -> (r: bool)
    ensures
        r == alphanumeric(c),
{
    c.is_alphanumeric()
}

/// The alphanumeric characters of `s`, in order.
pub open spec fn alphanumerics(s: Seq<char>) -> Seq<char>
    decreases s.len(),
{
    if s.len() == 0 {
        Seq::empty()
    } else if alphanumeric(s.last()) {
        alphanumerics(s.drop_last()).push(s.last())
    } else {
        alphanumerics(s.drop_last())
    }
}

/// The text that names a stored picture: the first 50 alphanumeric characters
/// of the recognised text; none when there are none.
pub open spec fn ocr_name(text: Seq<char>) -> Option<Seq<char>> {
    let a = alphanumerics(trimmed(text));
    if a.len() == 0 {
        None
    } else {
        Some(a.take(if a.len() < 50 { a.len() as int } else { 50 }))
    }
}

/// Reduces recognised text to a file-name part (see [`ocr_name`]).
pub fn clean_ocr_text(text: &str) -> (r: Option<String>)
    ensures
        match r {
            Some(s) => ocr_name(text@) == Some(s@),
            None => ocr_name(text@) is None,
        },
{
    let t = trim(&chars_of(text));
    let mut all: Vec<char> = Vec::new();
    let mut i: usize = 0;
    while i < t.len()
        invariant
            i <= t.len(),
            all@ == alphanumerics(t@.take(i as int)),
        decreases t.len() - i,
    {
        assert(t@.take(i + 1).drop_last() =~= t@.take(i as int));
        if char_is_alphanumeric(t[i]) {
            all.push(t[i]);
        }
        i = i + 1;
    }
    assert(t@.take(t.len() as int) =~= t@);
    if all.len() == 0 {
        return None;
    }
    let mut out: Vec<char> = Vec::new();
    let mut k: usize = 0;
    while k < all.len() && k < 50
        invariant
            k <= all.len(),
            k <= 50,
            out@ == all@.take(k as int),
        decreases all.len() - k,
    {
        out.push(all[k]);
        k = k + 1;
        assert(all@.take(k as int) =~= all@.take(k - 1).push(all@[k - 1]));
    }
    assert(all@ == alphanumerics(trimmed(text@)));
    assert(out@ == all@.take(if all.len() < 50 { all.len() as int } else { 50 }));

    Some(string_from(&out))
}

/// The stored file name: `<timestamp>_<sequence>_<text>.<ext>`, or
/// `<timestamp>_<sequence>.<ext>` without (or with empty) text.
pub open spec fn library_filename(
    timestamp: nat,
    sequence: nat,
    extension: Seq<char>,
    ocr_text: Option<Seq<char>>,
) -> Seq<char> {
    match ocr_text {
        Some(t) if t.len() > 0 => decimal(timestamp) + "_"@ + decimal(sequence) + "_"@ + t + "."@
            + extension,
        _ => decimal(timestamp) + "_"@ + decimal(sequence) + "."@ + extension,
    }
}

/// Builds the stored file name (see [`library_filename`]).
pub fn build_library_filename(
    timestamp: u128,
    sequence: u64,
    extension: &str,
    ocr_text: Option<&str>,
) -> (r: String)
    ensures
        r@ == library_filename(
            timestamp as nat,
            sequence as nat,
            extension@,
            match ocr_text {
                Some(t) => Some(t@),
                None => None,
            },
        ),
{
    let mut s = string_from(&decimal_string(timestamp));
    crate::text::append(&mut s, "_");
    crate::text::append(&mut s, string_from(&decimal_string(sequence as u128)).as_str());
    match ocr_text {
        Some(t) => {
            if !t.is_empty() {
                crate::text::append(&mut s, "_");
                crate::text::append(&mut s, t);
            }
        },
        None => {},
    }
    crate::text::append(&mut s, ".");
    crate::text::append(&mut s, extension);
    s
}

/// Two pictures saved within the same millisecond get different names when
/// their sequence numbers differ, whatever their text and extension.
pub proof fn sequence_keeps_names_apart(
    timestamp: nat,
    a: nat,
    b: nat,
    extension: Seq<char>,
    ocr_text: Option<Seq<char>>,
)
    requires
        a != b,
    ensures
        library_filename(timestamp, a, extension, ocr_text) != library_filename(
            timestamp,
            b,
            extension,
            ocr_text,
        ),
{
    let p = decimal(timestamp) + "_"@;
    let tail = match ocr_text {
        Some(t) if t.len() > 0 => "_"@ + t + "."@ + extension,
        _ => "."@ + extension,
    };
    let na = library_filename(timestamp, a, extension, ocr_text);
    let nb = library_filename(timestamp, b, extension, ocr_text);
    assert(na =~= p + decimal(a) + tail);
    assert(nb =~= p + decimal(b) + tail);
    if na == nb {
        assert(decimal(a).len() == decimal(b).len());
        assert(decimal(a) =~= na.subrange(p.len() as int, (p.len() + decimal(a).len()) as int));
        assert(decimal(b) =~= nb.subrange(p.len() as int, (p.len() + decimal(b).len()) as int));
        crate::text::decimal_injective(a, b);
    }
}

/// The counter that makes stored file names unique within one timestamp.
pub struct ImageSaveSequence {
    pub next: u64,
}

/// The error when no free file name was found.
pub open spec fn no_unique_name_message() -> Seq<char> {
    "生成唯一图片文件名失败，请稍后重试"@
}

/// The optional text as characters.
pub open spec fn opt_text(o: Option<&str>) -> Option<Seq<char>> {
    match o {
        Some(t) => Some(t@),
        None => None,
    }
}

/// The path tried at attempt `k` when the counter started at `start`.
pub open spec fn library_candidate(
    dir: Seq<char>,
    timestamp: nat,
    start: u64,
    k: int,
    extension: Seq<char>,
    ocr: Option<Seq<char>>,
    sep: char,
) -> Seq<char> {
    joined_path(dir, library_filename(timestamp, wrapped(start, k) as nat, extension, ocr), sep)
}

/// Whether `is_taken` reported the path taken.
pub open spec fn reported_taken<F: Fn(&str) -> bool>(is_taken: F, path: Seq<char>) -> bool {
    exists|p: &str| #[trigger] is_taken.ensures((p,), true) && p@ == path
}

/// Finds a free file name in `target_dir`: tries the names for the next 1024
/// sequence numbers in turn (the counter advances, wrapping, at each try) and
/// takes the first whose path `is_taken` reports free: every earlier one was
/// reported taken.
pub fn allocate_library_filename<F: Fn(&str) -> bool>(
    target_dir: &str,
    timestamp: u128,
    extension: &str,
    ocr_text: Option<&str>,
    counter: &mut ImageSaveSequence,
    is_taken: F,
    sep: char,
) -> (r: Result<(String, String), String>)
    requires
        forall|p: &str| is_taken.requires((p,)),
    ensures
        match r {
            Ok((name, path)) => exists|k: int|
                #![trigger wrapped(old(counter).next, k)]
                0 <= k < 1024 && name@ == library_filename(
                    timestamp as nat,
                    wrapped(old(counter).next, k) as nat,
                    extension@,
                    match ocr_text {
                        Some(t) => Some(t@),
                        None => None,
                    },
                ) && path@ == joined_path(target_dir@, name@, sep) && final(counter).next == wrapped(
                    old(counter).next,
                    k + 1,
                ) && (exists|p: &str| p@ == path@ && is_taken.ensures((p,), false)) && (forall|j: int|
                    0 <= j < k ==> reported_taken(
                        is_taken,
                        #[trigger] library_candidate(
                            target_dir@,
                            timestamp as nat,
                            old(counter).next,
                            j,
                            extension@,
                            opt_text(ocr_text),
                            sep,
                        ),
                    )),
            Err(e) => e@ == no_unique_name_message() && final(counter).next == wrapped(
                old(counter).next,
                1024,
            ) && (forall|j: int|
                0 <= j < 1024 ==> reported_taken(
                    is_taken,
                    #[trigger] library_candidate(
                        target_dir@,
                        timestamp as nat,
                        old(counter).next,
                        j,
                        extension@,
                        opt_text(ocr_text),
                        sep,
                    ),
                )),
        },
{
    let mut attempt: u64 = 0;
    let ghost start = counter.next;
    while attempt < 1024
        invariant
            attempt <= 1024,
            forall|p: &str| is_taken.requires((p,)),
            counter.next == wrapped(start, attempt as int),
            start == old(counter).next,
            forall|j: int|
                0 <= j < attempt ==> reported_taken(
                    is_taken,
                    #[trigger] library_candidate(
                        target_dir@,
                        timestamp as nat,
                        start,
                        j,
                        extension@,
                        opt_text(ocr_text),
                        sep,
                    ),
                ),
        decreases 1024 - attempt,
    {
        let sequence = counter.next;
        counter.next = counter.next.wrapping_add(1);
        proof {
            lemma_wrapped_step(start, attempt as int);
        }
        let filename = build_library_filename(timestamp, sequence, extension, ocr_text);
        let file_path = join(target_dir, filename.as_str(), sep);
        let probe = file_path.as_str();
        let taken = is_taken(probe);
        if !taken {
            assert(sequence == wrapped(start, attempt as int));
            assert(counter.next == wrapped(start, attempt + 1));
            assert(probe@ == file_path@ && is_taken.ensures((probe,), false));
            return Ok((filename, file_path));
        }
        assert(file_path@ == library_candidate(
            target_dir@,
            timestamp as nat,
            start,
            attempt as int,
            extension@,
            opt_text(ocr_text),
            sep,
        ));
        assert(reported_taken(is_taken, file_path@));
        attempt = attempt + 1;
    }
    Err(owned("生成唯一图片文件名失败，请稍后重试"))
}

/// The counter value `k` steps after `start`, wrapping.
pub open spec fn wrapped(start: u64, k: int) -> u64 {
    ((start as int + k) % 0x1_0000_0000_0000_0000) as u64
}

proof fn lemma_wrapped_step(start: u64, k: int)
    requires
        0 <= k,
    ensures
        wrapped(start, k).wrapping_add(1) == wrapped(start, k + 1),
{
    let a = start as int + k;
    let m = 0x1_0000_0000_0000_0000int;
    assert((a % m + 1) % m == (a + 1) % m) by (nonlinear_arith)
        requires
            m > 0,
            a >= 0,
    {
        vstd::arithmetic::div_mod::lemma_add_mod_noop(a, 1, m);
        vstd::arithmetic::div_mod::lemma_mod_twice(1, m);
    }
}

// ---------------------------------------------------------------------------
// Safe file names.

/// The file name that a user-supplied name stands for: the trimmed name when it
/// is one ordinary component (its component), an error otherwise.
pub open spec fn sanitized(filename: Seq<char>) -> Option<Seq<char>> {
    let t = trimmed(filename);
    if t.len() == 0 {
        None
    } else {
        single_normal(t)
    }
}

/// The error for an empty name.
pub open spec fn empty_name_message(field: Seq<char>) -> Seq<char> {
    field + "不能为空"@
}

/// The error for a name that is not one plain file name.
pub open spec fn illegal_path_message(field: Seq<char>) -> Seq<char> {
    field + "包含非法路径"@
}

/// Checks a user-supplied file name: it is trimmed and must be one ordinary path
/// component, so that it cannot leave the library directory. `field_name`
/// names the field in the error.
pub fn sanitize_library_filename(filename: &str, field_name: &str) -> (r: Result<String, String>)
    ensures
        match r {
            Ok(n) => sanitized(filename@) == Some(n@),
            Err(e) => sanitized(filename@) is None && e@ == if trimmed(filename@).len() == 0 {
                empty_name_message(field_name@)
            } else {
                illegal_path_message(field_name@)
            },
        },
{
    let t = trim(&chars_of(filename));
    if t.len() == 0 {
        return Err(concat(field_name, "不能为空"));
    }
    match single_normal_component(&t) {
        Some(part) => Ok(string_from(&part)),
        None => Err(concat(field_name, "包含非法路径")),
    }
}

/// Resolves a user-supplied file name inside a library directory: the checked
/// name and its path.
pub fn build_library_file_path(dir: &str, filename: &str, field_name: &str, sep: char) -> (r: Result<
    (String, String),
    String,
>)
    ensures
        match r {
            Ok((n, p)) => sanitized(filename@) == Some(n@) && p@ == joined_path(dir@, n@, sep),
            Err(e) => sanitized(filename@) is None && e@ == if trimmed(filename@).len() == 0 {
                empty_name_message(field_name@)
            } else {
                illegal_path_message(field_name@)
            },
        },
{
    let name = sanitize_library_filename(filename, field_name)?;
    let path = join(dir, name.as_str(), sep);
    Ok((name, path))
}

/// The new name of a renamed file: the given name when it holds a `.`, else the
/// given name with the old file's extension (`png` when it had none).
pub open spec fn renamed(new_name: Seq<char>, old_name: Seq<char>) -> Seq<char> {
    if new_name.contains('.') {
        new_name
    } else {
        new_name + "."@ + match path_extension(old_name) {
            Some(e) => e,
            None => "png"@,
        }
    }
}

/// The new name of a renamed file (see [`renamed`]).
pub fn renamed_filename(new_name: &str, old_name: &str) -> (r: String)
    ensures
        r@ == renamed(new_name@, old_name@),
{
    if contains_char(&chars_of(new_name), '.') {
        owned(new_name)
    } else {
        let ext = match path_extension_of(old_name) {
            Some(e) => e,
            None => owned("png"),
        };
        let mut s = concat(new_name, ".");
        crate::text::append(&mut s, ext.as_str());
        s
    }
}

/// The error for a missing file.
pub fn missing_file_message(name: &str) -> (r: String)
    ensures
        r@ == "文件不存在: "@ + name@,
{
    concat("文件不存在: ", name)
}

// ---------------------------------------------------------------------------
// Listing.

/// Whether a cached listing is still current: the directory's modification
/// stamp is unchanged.
pub fn cache_is_fresh(cached_stamp: Option<u64>, current_stamp: Option<u64>) -> (r: bool)
    ensures
        r == (cached_stamp == current_stamp),
{
    match (cached_stamp, current_stamp) {
        (Some(a), Some(b)) => a == b,
        (None, None) => true,
        _ => false,
    }
}

/// One page of a listing: the total, and the items from `offset` on, at most `limit`.
pub fn get_image_list(items: &Vec<ImageInfo>, offset: usize, limit: usize) -> (r: ImageListResult)
    ensures
        r.total == items.len(),
        infos(r.items@) == infos(items@).skip(
            if offset < items.len() {
                offset as int
            } else {
                items.len() as int
            },
        ).take(
            if limit < items.len() - (if offset < items.len() {
                offset as int
            } else {
                items.len() as int
            }) {
                limit as int
            } else {
                items.len() - (if offset < items.len() {
                    offset as int
                } else {
                    items.len() as int
                })
            },
        ),
{
    let total = items.len();
    let start = if offset < total {
        offset
    } else {
        total
    };
    let count = if limit < total - start {
        limit
    } else {
        total - start
    };
    let mut out: Vec<ImageInfo> = Vec::new();
    let mut i: usize = 0;
    while i < count
        invariant
            start + count <= total == items.len(),
            i <= count,
            infos(out@) == infos(items@).subrange(start as int, start + i),
        decreases count - i,
    {
        let ghost before = infos(out@);
        out.push(items[start + i].duplicate());
        assert(infos(out@) =~= before.push(items@[start + i]@));
        i = i + 1;
        assert(infos(items@).subrange(start as int, start + i) =~= infos(items@).subrange(
            start as int,
            start + i - 1,
        ).push(items@[start + i - 1]@));
    }
    assert(infos(items@).skip(start as int).take(count as int) =~= infos(items@).subrange(
        start as int,
        start + count,
    ));
    ImageListResult { total, items: out }
}

/// The number of images in a listing.
pub fn get_image_count(items: &Vec<ImageInfo>) -> (r: usize)
    ensures
        r == items.len(),
{
    items.len()
}

/// Whether image `a` is listed before image `b`: newer first, then by file name.
pub open spec fn listed_before(a: ImageInfoView, b: ImageInfoView) -> bool {
    a.created_at > b.created_at || (a.created_at == b.created_at && char_le(a.filename, b.filename))
}

/// Lexicographic order of character sequences by code point (the order of
/// their UTF-8 bytes, as `str` compares).
pub open spec fn char_le(a: Seq<char>, b: Seq<char>) -> bool
    decreases a.len(),
{
    if a.len() == 0 {
        true
    } else if b.len() == 0 {
        false
    } else if a[0] != b[0] {
        a[0] < b[0]
    } else {
        char_le(a.drop_first(), b.drop_first())
    }
}

/// Whether a listing is in order: each image is listed before every later one.
pub open spec fn listing_sorted(s: Seq<ImageInfoView>) -> bool {
    forall|i: int, j: int| 0 <= i < j < s.len() ==> listed_before(#[trigger] s[i], #[trigger] s[j])
}

proof fn lemma_char_le_total(a: Seq<char>, b: Seq<char>)
    ensures
        char_le(a, b) || char_le(b, a),
    decreases a.len(),
{
    if a.len() > 0 && b.len() > 0 {
        if a[0] == b[0] {
            lemma_char_le_total(a.drop_first(), b.drop_first());
        }
    }
}

proof fn lemma_char_le_transitive(a: Seq<char>, b: Seq<char>, c: Seq<char>)
    requires
        char_le(a, b),
        char_le(b, c),
    ensures
        char_le(a, c),
    decreases a.len(),
{
    if a.len() > 0 && b.len() > 0 && c.len() > 0 && a[0] == b[0] && b[0] == c[0] {
        lemma_char_le_transitive(a.drop_first(), b.drop_first(), c.drop_first());
    }
}

/// The listing order is total: of two images, one is listed before the other.
pub proof fn listing_order_total(a: ImageInfoView, b: ImageInfoView)
    ensures
        listed_before(a, b) || listed_before(b, a),
{
    lemma_char_le_total(a.filename, b.filename);
}

/// The listing order is transitive.
pub proof fn listing_order_transitive(a: ImageInfoView, b: ImageInfoView, c: ImageInfoView)
    requires
        listed_before(a, b),
        listed_before(b, c),
    ensures
        listed_before(a, c),
{
    if a.created_at == b.created_at && b.created_at == c.created_at {
        lemma_char_le_transitive(a.filename, b.filename, c.filename);
    }
}

fn char_le_exec(a: &Vec<char>, b: &Vec<char>) -> (r: bool)
    ensures
        r == char_le(a@, b@),
{
    let mut i: usize = 0;
    assert(a@.skip(0) =~= a@);
    assert(b@.skip(0) =~= b@);
    while i < a.len() && i < b.len() && a[i] == b[i]
        invariant
            i <= a.len(),
            i <= b.len(),
            char_le(a@, b@) == char_le(a@.skip(i as int), b@.skip(i as int)),
        decreases a.len() - i,
    {
        assert(a@.skip(i as int).drop_first() =~= a@.skip(i + 1));
        assert(b@.skip(i as int).drop_first() =~= b@.skip(i + 1));
        i = i + 1;
    }
    if i == a.len() {
        true
    } else if i == b.len() {
        false
    } else {
        a[i] < b[i]
    }
}

/// Whether image `a` is listed before image `b` (see [`listed_before`]).
pub fn is_listed_before(a: &ImageInfo, b: &ImageInfo) -> (r: bool)
    ensures
        r == listed_before(a@, b@),
{
    if a.created_at != b.created_at {
        a.created_at > b.created_at
    } else {
        char_le_exec(&chars_of(a.filename.as_str()), &chars_of(b.filename.as_str()))
    }
}

/// One entry of a library directory, as the directory scan reports it.
pub struct LibraryEntry {
    /// The entry's file name.
    pub name: String,
    /// The entry's full path.
    pub path: String,
    /// Whether it is a regular file.
    pub is_file: bool,
    /// Its size in bytes (0 when unknown).
    pub size: u64,
    /// Its modification time in milliseconds since the epoch (0 when unknown).
    pub modified_ms: u64,
}

/// The image that an entry of a library directory stands for, if any: regular
/// files whose extension (in any case) is an image type, with the file name as
/// id and the given category.
pub open spec fn entry_image(e: LibraryEntry, category: Seq<char>) -> Option<ImageInfoView> {
    if e.is_file && is_image_file(e.path@) {
        Some(
            ImageInfoView {
                id: e.name@,
                filename: e.name@,
                path: e.path@,
                size: e.size,
                created_at: e.modified_ms,
                category,
            },
        )
    } else {
        None
    }
}

/// The images that the entries stand for, in the entries' order.
pub open spec fn entry_images(es: Seq<LibraryEntry>, category: Seq<char>) -> Seq<ImageInfoView>
    decreases es.len(),
{
    if es.len() == 0 {
        Seq::empty()
    } else {
        let rest = entry_images(es.drop_last(), category);
        match entry_image(es.last(), category) {
            Some(i) => rest.push(i),
            None => rest,
        }
    }
}

/// The listing of a library directory from its entries: one image for each
/// regular file with an image extension (see [`entry_image`]), newest first,
/// then by file name.
pub fn build_image_listing(entries: &Vec<LibraryEntry>, category: &str) -> (r: Vec<ImageInfo>)
    ensures
        listing_sorted(infos(r@)),
        infos(r@).to_multiset() == entry_images(entries@, category@).to_multiset(),
{
    let mut items: Vec<ImageInfo> = Vec::new();
    let mut i: usize = 0;
    while i < entries.len()
        invariant
            i <= entries.len(),
            infos(items@) == entry_images(entries@.take(i as int), category@),
        decreases entries.len() - i,
    {
        let e = &entries[i];
        let ghost before = infos(items@);
        assert(entries@.take(i + 1).drop_last() =~= entries@.take(i as int));
        assert(entries@.take(i + 1).last() == entries@[i as int]);
        if e.is_file && allowed_image_extension(e.path.as_str()) {
            let info = ImageInfo {
                id: e.name.clone(),
                filename: e.name.clone(),
                path: e.path.clone(),
                size: e.size,
                created_at: e.modified_ms,
                category: owned(category),
            };
            items.push(info);
            assert(infos(items@) =~= before.push(info@));
        }
        i = i + 1;
    }
    assert(entries@.take(entries.len() as int) =~= entries@);
    sort_image_list(&items)
}

/// Puts a listing in order: newest first, then by file name; the images are the
/// same, as many times each.
pub fn sort_image_list(items: &Vec<ImageInfo>) -> (r: Vec<ImageInfo>)
    ensures
        listing_sorted(infos(r@)),
        infos(r@).to_multiset() == infos(items@).to_multiset(),
{
    let mut out: Vec<ImageInfo> = Vec::new();
    let mut i: usize = 0;
    assert(infos(out@).to_multiset() =~= infos(items@).take(0).to_multiset()) by {
        assert(infos(out@) =~= Seq::<ImageInfoView>::empty());
        assert(infos(items@).take(0) =~= Seq::<ImageInfoView>::empty());
    }
    while i < items.len()
        invariant
            i <= items.len(),
            listing_sorted(infos(out@)),
            infos(out@).to_multiset() == infos(items@).take(i as int).to_multiset(),
        decreases items.len() - i,
    {
        let x = items[i].duplicate();
        let mut p: usize = 0;
        while p < out.len() && is_listed_before(&out[p], &x)
            invariant
                p <= out.len(),
                forall|k: int| 0 <= k < p ==> listed_before(#[trigger] infos(out@)[k], x@),
            decreases out.len() - p,
        {
            p = p + 1;
        }
        let ghost before = infos(out@);
        proof {
            if p < out.len() {
                assert(!listed_before(before[p as int], x@));
                listing_order_total(before[p as int], x@);
            }
        }
        out.insert(p, x);
        assert(infos(out@) =~= before.insert(p as int, x@));
        proof {
            vstd::seq_lib::to_multiset_insert(before, p as int, x@);
        }
        assert(listing_sorted(infos(out@))) by {
            let s = infos(out@);
            assert forall|a: int, b: int| 0 <= a < b < s.len() implies listed_before(
                #[trigger] s[a],
                #[trigger] s[b],
            ) by {
                if b < p {
                    assert(s[a] == before[a] && s[b] == before[b]);
                } else if b == p {
                    assert(s[a] == before[a]);
                } else if a == p {
                    assert(s[b] == before[b - 1]);
                    if b - 1 > p {
                        listing_order_transitive(x@, before[p as int], before[b - 1]);
                    }
                } else if a < p {
                    assert(s[a] == before[a] && s[b] == before[b - 1]);
                } else {
                    assert(s[a] == before[a - 1] && s[b] == before[b - 1]);
                }
            }
        }
        assert(infos(items@).take(i + 1) =~= infos(items@).take(i as int).push(items@[i as int]@));
        proof {
            vstd::seq_lib::to_multiset_build(infos(items@).take(i as int), items@[i as int]@);
        }
        i = i + 1;
    }
    assert(infos(items@).take(items.len() as int) =~= infos(items@));
    out
}

// ---------------------------------------------------------------------------
// OCR single flight.

/// Whether an OCR task runs.
pub struct OcrGate {
    pub busy: bool,
}

/// The right to run the one OCR task.
pub struct OcrInFlightGuard;

impl OcrInFlightGuard {
    /// Takes the right to run OCR when no task runs; none while one runs.
    pub fn try_acquire(gate: &mut OcrGate) -> (r: Option<OcrInFlightGuard>)
        ensures
            r is Some <==> !old(gate).busy,
            final(gate).busy,
    {
        if gate.busy {
            None
        } else {
            gate.busy = true;
            Some(OcrInFlightGuard)
        }
    }

    /// Gives the right back when the task ends.
    pub fn release(self, gate: &mut OcrGate)
        ensures
            !final(gate).busy,
    {
        gate.busy = false;
    }
}

// ---------------------------------------------------------------------------
// Laws.

/// A user-supplied file name that is accepted names one plain entry of the
/// library directory: it is not empty, holds no separator, is neither `.`
/// nor `..`, and the path built from it stays inside the directory.
pub proof fn accepted_names_stay_in_library(filename: Seq<char>, dir: Seq<char>)
    requires
        sanitized(filename) is Some,
    ensures
        ({
            let n = sanitized(filename)->0;
            &&& n.len() > 0
            &&& forall|i: int| 0 <= i < n.len() ==> !is_sep(#[trigger] n[i])
            &&& n != "."@ && n != ".."@
            &&& stays_inside(n)
        }),
{
    let t = trimmed(filename);
    single_normal_stays_inside(t);
}


/// The image types that the library lists, in lower case.
pub open spec fn image_types() -> Seq<Seq<char>> {
    seq![
        "png"@, "jpg"@, "jpeg"@, "gif"@, "webp"@, "bmp"@, "avif"@, "svg"@, "ico"@, "tiff"@,
        "tif"@, "heic"@, "heif"@, "jfif"@,
    ]
}

/// A regular file `stem.ext` whose extension, in any case, is one of the image
/// types (png, jpg, jpeg, gif, webp, bmp, avif, svg, ico, tiff, tif, heic, heif,
/// jfif) is an image: `allowed_image_extension` accepts its path, and a library
/// directory entry for it is listed, with its name as id and file name and the
/// requested category.
pub proof fn image_types_are_listed(
    dir: Seq<char>,
    stem: Seq<char>,
    ext: Seq<char>,
    sep: char,
    category: Seq<char>,
)
    requires
        is_sep(sep),
        dir.len() == 0 || (dir.len() >= 3 && !is_sep(dir.last())),
        stem.len() > 0,
        ext.len() > 0,
        forall|i: int| 0 <= i < stem.len() ==> #[trigger] stem[i] != '.' && !is_sep(stem[i]) && stem[i] != ':',
        forall|i: int| 0 <= i < ext.len() ==> #[trigger] ext[i] != '.' && !is_sep(ext[i]),
        image_types().contains(ascii_lowered(ext)),
    ensures
        is_image_file(joined_path(dir, stem + "."@ + ext, sep)),
        forall|e: LibraryEntry|
            e.is_file && e.path@ == joined_path(dir, stem + "."@ + ext, sep) ==> (#[trigger] entry_image(
                e,
                category,
            ) matches Some(i) && i.id == e.name@ && i.filename == e.name@ && i.category == category),
{
    plain_name_extension(dir, stem, ext, sep);
    let l = ascii_lowered(ext);
    let k = choose|k: int| 0 <= k < image_types().len() && image_types()[k] == l;
    reveal_strlit("png");
    reveal_strlit("jpg");
    reveal_strlit("jpeg");
    reveal_strlit("gif");
    reveal_strlit("webp");
    reveal_strlit("bmp");
    reveal_strlit("avif");
    reveal_strlit("svg");
    reveal_strlit("ico");
    reveal_strlit("tiff");
    reveal_strlit("tif");
    reveal_strlit("heic");
    reveal_strlit("heif");
    reveal_strlit("jfif");
    assert(is_listed_extension(l));
}

} // verus!
