//! Content-addressed thumbnails: which images are accepted, where each one is
//! stored under the media root, and which archive paths are safe to read.
use crate::error::AppError;
use crate::text::{chars_of, slice_chars, str_eq};
use sha2::Digest;
use vstd::prelude::*;

verus! {

/// The most bytes an archived image may take, compressed or extracted.
pub const MAX_COMPRESSED_ENTRY_BYTES: u64 = 16777216;

pub const MAX_EXTRACTED_IMAGE_BYTES: u64 = 16777216;

pub const MAX_IMAGE_WIDTH: u32 = 8192;

pub const MAX_IMAGE_HEIGHT: u32 = 8192;

pub const MAX_DECODED_IMAGE_BYTES: u64 = 134217728;

/// A stored thumbnail.
#[derive(Debug, Clone, PartialEq, Eq)]
pub struct MediaAsset {
    pub asset_id: String,
    pub relative_path: String,
    pub mime_type: String,
    pub width: u32,
    pub height: u32,
    pub byte_size: u64,
}

/// Where media files live: the application's data directory.
#[derive(Debug, Clone)]
pub struct MediaStore {
    app_data_root: String,
}

impl MediaStore {
    pub closed spec fn root(&self) -> Seq<char> {
        self.app_data_root@
    }

    /// A store rooted at `root`.
    pub fn at_root(root: &str) -> (r: Self)
        ensures
            r.root() == root@,
    {
        MediaStore { app_data_root: root.to_owned() }
    }

    /// The data directory the store is rooted at.
    pub fn app_data_root(&self) -> (r: &str)
        ensures
            r@ == self.root(),
    {
        self.app_data_root.as_str()
    }
}

/// The image formats accepted as thumbnails.
#[derive(Debug, Clone, Copy, PartialEq, Eq, Structural)]
pub enum ImageKind {
    Png,
    Jpeg,
}

pub open spec fn png_signature() -> Seq<u8> {
    seq![0x89u8, 0x50u8, 0x4eu8, 0x47u8, 0x0du8, 0x0au8, 0x1au8, 0x0au8]
}

pub open spec fn jpeg_signature() -> Seq<u8> {
    seq![0xffu8, 0xd8u8, 0xffu8]
}

pub open spec fn bytes_start_with(b: Seq<u8>, p: Seq<u8>) -> bool {
    p.len() <= b.len() && b.take(p.len() as int) =~= p
}

/// The format of an image by its signature, with its file extension and MIME type.
pub open spec fn image_type_spec(b: Seq<u8>) -> Option<(ImageKind, Seq<char>, Seq<char>)> {
    if bytes_start_with(b, png_signature()) {
        Some((ImageKind::Png, "png"@, "image/png"@))
    } else if bytes_start_with(b, jpeg_signature()) {
        Some((ImageKind::Jpeg, "jpg"@, "image/jpeg"@))
    } else {
        None
    }
}

fn starts_with_bytes(b: &[u8], p: &[u8]) -> (r: bool)
    ensures
        r == bytes_start_with(b@, p@),
{
    if p.len() > b.len() {
        return false;
    }
    let mut i: usize = 0;
    while i < p.len()
        invariant
            i <= p@.len() <= b@.len(),
            forall|k: int| 0 <= k < i ==> b@[k] == p@[k],
        decreases p.len() - i,
    {
        if b[i] != p[i] {
            assert(b@.take(p@.len() as int)[i as int] != p@[i as int]);
            return false;
        }
        i = i + 1;
    }
    assert(b@.take(p@.len() as int) =~= p@);
    true
}

/// Recognizes a PNG or JPEG image by its first bytes.
pub fn image_type(bytes: &[u8]) -> (r: Option<(ImageKind, &'static str, &'static str)>)
    ensures
        r matches Some(t) ==> image_type_spec(bytes@) == Some((t.0, t.1@, t.2@)),
        r is None ==> image_type_spec(bytes@) is None,
{
    let png: [u8; 8] = [0x89, 0x50, 0x4e, 0x47, 0x0d, 0x0a, 0x1a, 0x0a];
    let jpeg: [u8; 3] = [0xff, 0xd8, 0xff];
    assert(png@ =~= png_signature());
    assert(jpeg@ =~= jpeg_signature());
    if starts_with_bytes(bytes, png.as_slice()) {
        return Some((ImageKind::Png, "png", "image/png"));
    }
    if starts_with_bytes(bytes, jpeg.as_slice()) {
        return Some((ImageKind::Jpeg, "jpg", "image/jpeg"));
    }
    None
}

/// Keeps the bytes read from an archive entry (the reader stops one byte past
/// the limit) only when they stay within the image byte limit and the size
/// the entry declares fits in memory.
pub fn read_entry_bytes(bytes: Vec<u8>, declared_size: u64) -> (r: Result<Vec<u8>, AppError>)
    ensures
        r is Ok <==> (bytes@.len() <= MAX_EXTRACTED_IMAGE_BYTES && declared_size <= usize::MAX),
        r matches Ok(v) ==> v@ == bytes@,
        r matches Err(e) ==> e == AppError::InvalidFile,
{
    if declared_size > usize::MAX as u64 {
        return Err(AppError::InvalidFile);
    }
    if bytes.len() as u64 > MAX_EXTRACTED_IMAGE_BYTES {
        return Err(AppError::InvalidFile);
    }
    Ok(bytes)
}

/// A zip entry mode that marks a symbolic link.
pub open spec fn is_symlink_mode(mode: u32) -> bool {
    mode & 0o170000u32 == 0o120000u32
}

/// An archive entry may be read as an image only when it is the entry asked
/// for by its exact name, is neither a directory nor a symbolic link, and
/// neither its compressed nor its declared size passes the entry limit.
pub open spec fn archive_entry_ok(
    entry: Seq<char>,
    stored_name: Seq<char>,
    is_dir: bool,
    unix_mode: Option<u32>,
    compressed_size: u64,
    declared_size: u64,
) -> bool {
    &&& !is_dir
    &&& !(unix_mode matches Some(m) && is_symlink_mode(m))
    &&& compressed_size <= MAX_COMPRESSED_ENTRY_BYTES
    &&& stored_name == entry
    &&& declared_size <= MAX_COMPRESSED_ENTRY_BYTES
}

/// Checks what an archive says of an entry before its bytes are read; see `archive_entry_ok`.
pub fn check_archive_entry(
    entry: &str,
    stored_name: &str,
    is_dir: bool,
    unix_mode: Option<u32>,
    compressed_size: u64,
    declared_size: u64,
) -> (r: Result<(), AppError>)
    ensures
        r is Ok <==> archive_entry_ok(
            entry@,
            stored_name@,
            is_dir,
            unix_mode,
            compressed_size,
            declared_size,
        ),
        r matches Err(e) ==> e == AppError::InvalidFile,
{
    let symlink = match unix_mode {
        Some(m) => m & 0o170000u32 == 0o120000u32,
        None => false,
    };
    if is_dir || symlink || compressed_size > MAX_COMPRESSED_ENTRY_BYTES || !crate::text::str_eq(
        stored_name,
        entry,
    ) || declared_size > MAX_COMPRESSED_ENTRY_BYTES {
        return Err(AppError::InvalidFile);
    }
    Ok(())
}

/// An image that passed every check: its extension, MIME type and size.
#[derive(Debug, Clone, Copy, PartialEq, Eq)]
pub struct ValidatedImage {
    pub extension: &'static str,
    pub mime_type: &'static str,
    pub width: u32,
    pub height: u32,
}

/// The width and height that the `image` crate decodes from `bytes`, read as
/// PNG (`png`) or else JPEG under the given limits; `None` where decoding
/// fails. What the decoder accepts is the crate's and is not written out.
pub uninterp spec fn decoded_size(
    bytes: Seq<u8>,
    png: bool,
    max_width: u32,
    max_height: u32,
    max_alloc: u64,
) -> Option<(u32, u32)>;

/// Decodes an image with `image::ImageReader` under the given limits and
/// reports its size. The contract names the result and states nothing more.
#[verifier::external_body]
fn decode_image_size(
    bytes: &[u8],
    png: bool,
    max_width: u32,
    max_height: u32,
    max_alloc: u64,
) -> (r: Option<(u32, u32)>)
    ensures
        r == decoded_size(bytes@, png, max_width, max_height, max_alloc),
{
    let format = if png { image::ImageFormat::Png } else { image::ImageFormat::Jpeg };
    let mut reader = image::ImageReader::with_format(std::io::Cursor::new(bytes), format);
    let mut limits = image::Limits::default();
    limits.max_image_width = Some(max_width);
    limits.max_image_height = Some(max_height);
    limits.max_alloc = Some(max_alloc);
    reader.limits(limits);
    reader.decode().ok().map(|image| (image.width(), image.height()))
}

/// What a decode result makes of an image of the given extension and type:
/// accepted with its size when it decoded to positive dimensions.
pub fn image_from_decoded(
    extension: &'static str,
    mime_type: &'static str,
    decoded: Option<(u32, u32)>,
) -> (r: Result<ValidatedImage, AppError>)
    ensures
        match decoded {
            Some((w, h)) => if w > 0 && h > 0 {
                r == Ok::<ValidatedImage, AppError>(
                    ValidatedImage { extension, mime_type, width: w, height: h },
                )
            } else {
                r == Err::<ValidatedImage, AppError>(AppError::InvalidFile)
            },
            None => r == Err::<ValidatedImage, AppError>(AppError::InvalidFile),
        },
{
    match decoded {
        Some((width, height)) => {
            if width == 0 || height == 0 {
                Err(AppError::InvalidFile)
            } else {
                Ok(ValidatedImage { extension, mime_type, width, height })
            }
        },
        None => Err(AppError::InvalidFile),
    }
}

/// An image is accepted when it is within the byte limit, is a PNG or a
/// JPEG by its signature, and decodes within the size limits to positive
/// dimensions.
pub open spec fn image_accepted(b: Seq<u8>) -> Option<(Seq<char>, Seq<char>, u32, u32)> {
    if b.len() > MAX_EXTRACTED_IMAGE_BYTES {
        None
    } else {
        match image_type_spec(b) {
            None => None,
            Some(t) => match decoded_size(
                b,
                t.0 == ImageKind::Png,
                MAX_IMAGE_WIDTH,
                MAX_IMAGE_HEIGHT,
                MAX_DECODED_IMAGE_BYTES,
            ) {
                Some((w, h)) => if w > 0 && h > 0 {
                    Some((t.1, t.2, w, h))
                } else {
                    None
                },
                None => None,
            },
        }
    }
}

/// Checks the bytes of an image; see `image_accepted`.
pub fn validate_image_bytes(bytes: &[u8]) -> (r: Result<ValidatedImage, AppError>)
    ensures
        r is Ok <==> image_accepted(bytes@) is Some,
        r matches Ok(v) ==> image_accepted(bytes@) == Some((v.extension@, v.mime_type@, v.width, v.height)),
        r matches Err(e) ==> e == AppError::InvalidFile,
{
    if bytes.len() as u64 > MAX_EXTRACTED_IMAGE_BYTES {
        return Err(AppError::InvalidFile);
    }
    let (kind, extension, mime_type) = match image_type(bytes) {
        Some(t) => t,
        None => return Err(AppError::InvalidFile),
    };
    let png = match kind {
        ImageKind::Png => true,
        ImageKind::Jpeg => false,
    };
    let decoded = decode_image_size(
        bytes,
        png,
        MAX_IMAGE_WIDTH,
        MAX_IMAGE_HEIGHT,
        MAX_DECODED_IMAGE_BYTES,
    );
    image_from_decoded(extension, mime_type, decoded)
}

/// An image is accepted only within the size limit and with positive dimensions.
pub fn check_image_size(byte_len: usize, width: u32, height: u32) -> (r: Result<(), AppError>)
    ensures
        r is Ok <==> (byte_len as int <= MAX_EXTRACTED_IMAGE_BYTES && width > 0 && height > 0),
        r matches Err(e) ==> e == AppError::InvalidFile,
{
    if byte_len as u64 > MAX_EXTRACTED_IMAGE_BYTES || width == 0 || height == 0 {
        return Err(AppError::InvalidFile);
    }
    Ok(())
}

/// The segments of a `/`-separated path.
pub open spec fn segments_from(p: Seq<char>, i: int) -> Seq<Seq<char>>
    decreases p.len() - i,
{
    if i < 0 || i > p.len() {
        seq![]
    } else {
        match crate::text::find_from(p, "/"@, i) {
            Some(j) => if i <= j < p.len() {
                seq![p.subrange(i, j)] + segments_from(p, j + 1)
            } else {
                seq![p.subrange(i, p.len() as int)]
            },
            None => seq![p.subrange(i, p.len() as int)],
        }
    }
}

pub open spec fn segments(p: Seq<char>) -> Seq<Seq<char>> {
    segments_from(p, 0)
}

/// A relative path whose every component is a plain name, as `Path::components`
/// reads a `/`-separated path: no root, no leading `.`, and no `..` anywhere
/// (inner `.` and empty segments are not components).
pub open spec fn plain_relative_path(p: Seq<char>) -> bool {
    let s = segments(p);
    &&& !(p.len() > 0 && p[0] == '/')
    &&& !(s.len() > 0 && s[0] == "."@)
    &&& forall|i: int| 0 <= i < s.len() ==> s[i] != ".."@
}

/// The number of components of such a path: its non-empty segments other than `.`.
pub open spec fn component_count(s: Seq<Seq<char>>) -> int
    decreases s.len(),
{
    if s.len() == 0 {
        0
    } else {
        component_count(s.drop_last()) + (if s.last().len() == 0 || s.last() == "."@ {
            0int
        } else {
            1int
        })
    }
}

/// The first component of such a path.
pub open spec fn first_component(s: Seq<Seq<char>>) -> Option<Seq<char>>
    decreases s.len(),
{
    if s.len() == 0 {
        None
    } else if s[0].len() == 0 || s[0] == "."@ {
        first_component(s.drop_first())
    } else {
        Some(s[0])
    }
}

/// The segments of `path`, split at `/`.
pub fn path_segments<'a>(path: &'a str) -> (r: Vec<&'a str>)
    ensures
        crate::text::strs_view(r@) == segments(path@),
{
    proof {
        reveal_strlit("/");
    }
    let v = chars_of(path);
    let slash = chars_of("/");
    let mut out: Vec<&'a str> = Vec::new();
    let mut i: usize = 0;
    loop
        invariant
            i <= v@.len(),
            v@ == path@,
            slash@ == "/"@,
            slash@.len() == 1,
            segments(path@) =~= crate::text::strs_view(out@) + segments_from(path@, i as int),
        decreases v@.len() - i,
    {
        match crate::text::find_chars_from(&v, &slash, i) {
            Some(j) => {
                let piece = slice_chars(path, i, j);
                let ghost before = crate::text::strs_view(out@);
                out.push(piece);
                assert(crate::text::strs_view(out@) =~= before.push(piece@));
                i = j + 1;
            },
            None => {
                let piece = slice_chars(path, i, v.len());
                let ghost before = crate::text::strs_view(out@);
                out.push(piece);
                assert(crate::text::strs_view(out@) =~= before.push(piece@));
                return out;
            },
        }
    }
}

/// Whether `path` is relative and made of plain names only; see `plain_relative_path`.
pub fn is_plain_relative_path(path: &str) -> (r: bool)
    ensures
        r == plain_relative_path(path@),
{
    let v = chars_of(path);
    if v.len() > 0 && v[0] == '/' {
        return false;
    }
    let parts = path_segments(path);
    let ghost s = segments(path@);
    if parts.len() > 0 && str_eq(parts[0], ".") {
        assert(s[0] == parts@[0]@);
        return false;
    }
    assert(parts@.len() > 0 ==> s[0] == parts@[0]@);
    let mut i: usize = 0;
    while i < parts.len()
        invariant
            i <= parts@.len(),
            crate::text::strs_view(parts@) == s,
            s == segments(path@),
            !(path@.len() > 0 && path@[0] == '/'),
            !(s.len() > 0 && s[0] == "."@),
            forall|k: int| 0 <= k < i ==> s[k] != ".."@,
        decreases parts.len() - i,
    {
        if str_eq(parts[i], "..") {
            assert(s[i as int] == ".."@);
            return false;
        }
        i = i + 1;
    }
    true
}

/// An archive entry may be read when it is non-empty, has no `\` and no NUL,
/// and is a plain relative path.
pub open spec fn entry_name_ok(entry: Seq<char>) -> bool {
    &&& entry.len() > 0
    &&& !entry.contains('\\')
    &&& !entry.contains('\0')
    &&& plain_relative_path(entry)
}

fn contains_char(s: &str, c: char) -> (r: bool)
    ensures
        r == s@.contains(c),
{
    let v = chars_of(s);
    let mut i: usize = 0;
    while i < v.len()
        invariant
            i <= v@.len(),
            v@ == s@,
            forall|k: int| 0 <= k < i ==> v@[k] != c,
        decreases v.len() - i,
    {
        if v[i] == c {
            assert(v@[i as int] == c);
            return true;
        }
        i = i + 1;
    }
    false
}

/// Refuses archive entry names that could reach outside the media root.
pub fn validate_entry_name(entry: &str) -> (r: Result<(), AppError>)
    ensures
        r is Ok <==> entry_name_ok(entry@),
        r matches Err(e) ==> e == AppError::InvalidFile,
{
    if entry.unicode_len() == 0 || contains_char(entry, '\\') || contains_char(entry, '\0') {
        return Err(AppError::InvalidFile);
    }
    if !is_plain_relative_path(entry) {
        return Err(AppError::InvalidFile);
    }
    Ok(())
}

/// A restored media file goes only to `media/<dir>/<file>`.
pub open spec fn verified_media_path(p: Seq<char>) -> bool {
    &&& entry_name_ok(p)
    &&& first_component(segments(p)) == Some("media"@)
    &&& component_count(segments(p)) == 3
}

/// Checks a media path before its bytes are written under the data root.
pub fn check_verified_media_path(relative_path: &str) -> (r: Result<(), AppError>)
    ensures
        r is Ok <==> verified_media_path(relative_path@),
        r matches Err(e) ==> e == AppError::InvalidFile,
{
    validate_entry_name(relative_path)?;
    let parts = path_segments(relative_path);
    let ghost s = segments(relative_path@);
    let mut count: usize = 0;
    let mut first: Option<&str> = None;
    let mut i: usize = 0;
    while i < parts.len()
        invariant
            i <= parts@.len(),
            crate::text::strs_view(parts@) == s,
            count == component_count(s.take(i as int)),
            count <= i,
            match first {
                Some(f) => first_component(s.take(i as int)) == Some(f@),
                None => first_component(s.take(i as int)) is None,
            },
        decreases parts.len() - i,
    {
        let part = parts[i];
        let ghost prev = s.take(i as int);
        let ghost next = s.take(i + 1);
        assert(next =~= prev.push(part@));
        assert(next.drop_last() =~= prev);
        assert(next.last() == part@);
        proof {
            lemma_first_component_push(prev, part@);
        }
        if !(part.unicode_len() == 0 || str_eq(part, ".")) {
            count = count + 1;
            if first.is_none() {
                first = Some(part);
            }
        }
        i = i + 1;
    }
    assert(s.take(parts@.len() as int) =~= s);
    let first_is_media = match first {
        Some(f) => str_eq(f, "media"),
        None => false,
    };
    if !first_is_media || count != 3 {
        return Err(AppError::InvalidFile);
    }
    Ok(())
}

proof fn lemma_first_component_push(s: Seq<Seq<char>>, x: Seq<char>)
    ensures
        first_component(s.push(x)) == (match first_component(s) {
            Some(f) => Some(f),
            None => if x.len() == 0 || x == "."@ {
                None
            } else {
                Some(x)
            },
        }),
    decreases s.len(),
{
    if s.len() > 0 {
        let t = s.push(x);
        assert(t.drop_first() =~= s.drop_first().push(x));
        assert(t[0] == s[0]);
        lemma_first_component_push(s.drop_first(), x);
        if s[0].len() == 0 || s[0] == "."@ {
            assert(first_component(t) == first_component(t.drop_first()));
            assert(first_component(s) == first_component(s.drop_first()));
        } else {
            assert(first_component(t) == Some(s[0]));
            assert(first_component(s) == Some(s[0]));
        }
    } else {
        let t = s.push(x);
        assert(t[0] == x);
        assert(t.drop_first() =~= Seq::<Seq<char>>::empty());
        assert(first_component(t.drop_first()) is None);
        assert(first_component(s) is None);
    }
}

/// SHA-256 of the given bytes.
pub uninterp spec fn sha256_of(bytes: Seq<u8>) -> Seq<u8>;

/// Calls `sha2::Sha256::digest`; a SHA-256 digest is 32 bytes.
#[verifier::external_body]
pub(crate) fn sha256_digest(bytes: &[u8]) -> (r: Vec<u8>)
    ensures
        r@ == sha256_of(bytes@),
        r@.len() == 32,
{
    sha2::Sha256::digest(bytes).to_vec()
}

pub open spec fn hex_char(n: int) -> char {
    if n < 10 {
        ('0' as int + n) as char
    } else {
        ('a' as int + n - 10) as char
    }
}

/// Lowercase hexadecimal, two digits per byte, high nibble first.
pub open spec fn lower_hex(b: Seq<u8>) -> Seq<char>
    decreases b.len(),
{
    if b.len() == 0 {
        seq![]
    } else {
        lower_hex(b.drop_last()) + seq![hex_char(b.last() as int / 16), hex_char(b.last() as int % 16)]
    }
}

fn append_hex_digit(s: &mut String, n: u8)
    requires
        n < 16,
    ensures
        final(s)@ == old(s)@.push(hex_char(n as int)),
{
    let digits = "0123456789abcdef";
    proof {
        reveal_strlit("0123456789abcdef");
    }
    let d = slice_chars(digits, n as usize, n as usize + 1);
    assert(d@ =~= seq![hex_char(n as int)]) by {
        assert(d@[0] == "0123456789abcdef"@[n as int]);
    }
    s.append(d);
}

/// Bytes as lowercase hexadecimal.
pub fn to_lower_hex(bytes: &[u8]) -> (r: String)
    ensures
        r@ == lower_hex(bytes@),
{
    let mut s = String::new();
    let mut i: usize = 0;
    while i < bytes.len()
        invariant
            i <= bytes@.len(),
            s@ == lower_hex(bytes@.take(i as int)),
        decreases bytes.len() - i,
    {
        let b = bytes[i];
        append_hex_digit(&mut s, b / 16);
        append_hex_digit(&mut s, b % 16);
        assert(bytes@.take(i + 1).drop_last() =~= bytes@.take(i as int));
        assert(bytes@.take(i + 1).last() == b);
        i = i + 1;
    }
    assert(bytes@.take(bytes@.len() as int) =~= bytes@);
    s
}

/// A thumbnail's id: the lowercase hex SHA-256 of its bytes.
pub fn asset_id_for(bytes: &[u8]) -> (r: String)
    ensures
        r@ == lower_hex(sha256_of(bytes@)),
        r@.len() == 64,
        crate::backup::valid_hash_spec(r@),
{
    let digest = sha256_digest(bytes);
    let r = to_lower_hex(digest.as_slice());
    proof {
        lemma_lower_hex_len(digest@);
        lemma_lower_hex_digits(digest@);
    }
    r
}

/// Every character of a hex rendering is a lowercase hex digit.
pub proof fn lemma_lower_hex_digits(b: Seq<u8>)
    ensures
        forall|i: int|
            0 <= i < lower_hex(b).len() ==> crate::backup::lower_hex_digit(#[trigger] lower_hex(b)[i]),
    decreases b.len(),
{
    if b.len() > 0 {
        lemma_lower_hex_digits(b.drop_last());
        let prev = lower_hex(b.drop_last());
        let hi = b.last() as int / 16;
        let lo = b.last() as int % 16;
        assert(lower_hex(b) == prev + seq![hex_char(hi), hex_char(lo)]);
        assert forall|i: int| 0 <= i < lower_hex(b).len() implies crate::backup::lower_hex_digit(
            #[trigger] lower_hex(b)[i],
        ) by {
            if i < prev.len() {
                assert(lower_hex(b)[i] == prev[i]);
            } else if i == prev.len() {
                assert(lower_hex(b)[i] == hex_char(hi));
            } else {
                assert(lower_hex(b)[i] == hex_char(lo));
            }
        }
    }
}

pub proof fn lemma_lower_hex_len(b: Seq<u8>)
    ensures
        lower_hex(b).len() == 2 * b.len(),
    decreases b.len(),
{
    if b.len() > 0 {
        lemma_lower_hex_len(b.drop_last());
    }
}

/// Where a thumbnail is stored: `media/<first two id characters>/<id>.<extension>`.
pub open spec fn media_relative_path_spec(asset_id: Seq<char>, extension: Seq<char>) -> Seq<char> {
    "media/"@ + asset_id.take(2) + "/"@ + asset_id + "."@ + extension
}

/// The storage path of a thumbnail with this id and extension.
pub fn media_relative_path(asset_id: &str, extension: &str) -> (r: String)
    requires
        asset_id@.len() >= 2,
    ensures
        r@ == media_relative_path_spec(asset_id@, extension@),
{
    let mut s = String::new();
    s.append("media/");
    s.append(slice_chars(asset_id, 0, 2));
    s.append("/");
    s.append(asset_id);
    s.append(".");
    s.append(extension);
    assert(s@ =~= media_relative_path_spec(asset_id@, extension@));
    s
}

/// The record of a validated thumbnail: its id is the hash of its bytes and
/// its path follows from the id and the format.
pub fn media_asset_for(bytes: &[u8], extension: &str, mime_type: &str, width: u32, height: u32) -> (r: MediaAsset)
    ensures
        r.asset_id@ == lower_hex(sha256_of(bytes@)),
        crate::backup::valid_hash_spec(r.asset_id@),
        r.relative_path@ == media_relative_path_spec(r.asset_id@, extension@),
        r.mime_type@ == mime_type@,
        r.width == width,
        r.height == height,
        r.byte_size == bytes@.len(),
{
    let asset_id = asset_id_for(bytes);
    let relative_path = media_relative_path(asset_id.as_str(), extension);
    MediaAsset {
        asset_id,
        relative_path,
        mime_type: mime_type.to_owned(),
        width,
        height,
        byte_size: bytes.len() as u64,
    }
}

/// How `zip` describes an archive entry.
#[derive(Debug, Clone)]
pub struct ZipEntryInfo {
    pub stored_name: String,
    pub is_dir: bool,
    pub unix_mode: Option<u32>,
    pub compressed_size: u64,
    pub declared_size: u64,
}

pub type ZipEntryView = (Seq<char>, bool, Option<u32>, u64, u64, Result<Seq<u8>, Seq<char>>);

/// What `zip` gives for the entry called `name` of the archive `bytes`,
/// reading at most `limit` bytes of it: `None` when the archive cannot be
/// opened or the lookup fails otherwise, `Some(None)` when there is no such
/// entry, else the entry's stored name, whether it is a directory, its Unix
/// mode, its compressed and declared sizes, and the bytes read, or the text
/// of the error reading gave. The format is `zip`'s affair and is not written out here.
pub uninterp spec fn zip_entry_read(bytes: Seq<u8>, name: Seq<char>, limit: u64) -> Option<
    Option<ZipEntryView>,
>;

pub open spec fn entry_read_view(r: Option<Option<(ZipEntryInfo, Result<Vec<u8>, String>)>>) -> Option<
    Option<ZipEntryView>,
> {
    match r {
        None => None,
        Some(None) => Some(None),
        Some(Some((i, c))) => Some(
            Some(
                (
                    i.stored_name@,
                    i.is_dir,
                    i.unix_mode,
                    i.compressed_size,
                    i.declared_size,
                    match c {
                        Ok(b) => Ok(b@),
                        Err(m) => Err(m@),
                    },
                ),
            ),
        ),
    }
}

/// Opens `bytes` with `zip::ZipArchive`, looks `name` up with `by_name` and
/// reads at most `limit` bytes of it. The contract ties the result to the
/// arguments and claims nothing more of the format.
#[verifier::external_body]
pub(crate) fn zip_entry(bytes: &[u8], name: &str, limit: u64) -> (r: Option<Option<(ZipEntryInfo, Result<Vec<u8>, String>)>>)
    ensures
        entry_read_view(r) == zip_entry_read(bytes@, name@, limit),
{
    let mut archive = zip::ZipArchive::new(std::io::Cursor::new(bytes)).ok()?;
    let entry = match archive.by_name(name) {
        Ok(found) => found,
        Err(zip::result::ZipError::FileNotFound) => return Some(None),
        Err(_) => return None,
    };
    let info = ZipEntryInfo { stored_name: entry.name().to_owned(), is_dir: entry.is_dir(), unix_mode: entry.unix_mode(), compressed_size: entry.compressed_size(), declared_size: entry.size() };
    let mut contents = Vec::new();
    let read = std::io::Read::read_to_end(&mut std::io::Read::take(entry, limit), &mut contents);
    Some(Some((info, read.map(|_| contents).map_err(|error| error.to_string()))))
}

/// The image entry `entry` of an archive, when it is one the store keeps: a
/// plain relative name, a regular entry of modest size stored under that very
/// name, an image the library accepts, and a media path inside the store.
pub open spec fn archive_image_spec(
    archive: Seq<u8>,
    entry: Seq<char>,
    r: Result<Option<(MediaAsset, Vec<u8>)>, AppError>,
) -> bool {
    if !entry_name_ok(entry) {
        r == Err::<Option<(MediaAsset, Vec<u8>)>, AppError>(AppError::InvalidFile)
    } else {
        match zip_entry_read(archive, entry, (MAX_EXTRACTED_IMAGE_BYTES + 1) as u64) {
            None => r == Err::<Option<(MediaAsset, Vec<u8>)>, AppError>(AppError::InvalidFile),
            Some(None) => r == Ok::<Option<(MediaAsset, Vec<u8>)>, AppError>(None),
            Some(Some(e)) => match e.5 {
                Ok(b) => if archive_entry_ok(entry, e.0, e.1, e.2, e.3, e.4) && b.len()
                    <= MAX_EXTRACTED_IMAGE_BYTES && e.4 <= usize::MAX && image_accepted(b) is Some
                    && verified_media_path(
                    media_relative_path_spec(
                        lower_hex(sha256_of(b)),
                        image_accepted(b)->Some_0.0,
                    ),
                ) {
                    r matches Ok(Some((asset, bytes))) && {
                        let (extension, mime_type, width, height) = image_accepted(b)->Some_0;
                        &&& bytes@ == b
                        &&& asset.asset_id@ == lower_hex(sha256_of(b))
                        &&& asset.relative_path@ == media_relative_path_spec(
                            asset.asset_id@,
                            extension,
                        )
                        &&& asset.mime_type@ == mime_type
                        &&& asset.width == width
                        &&& asset.height == height
                        &&& asset.byte_size == b.len()
                    }
                } else {
                    r == Err::<Option<(MediaAsset, Vec<u8>)>, AppError>(AppError::InvalidFile)
                },
                Err(_) => r == Err::<Option<(MediaAsset, Vec<u8>)>, AppError>(AppError::InvalidFile),
            },
        }
    }
}

/// Takes the image entry `entry` out of a project archive: its asset record
/// and its bytes, `None` when the archive has no such entry.
pub fn image_from_archive(archive: &[u8], entry: &str) -> (r: Result<Option<(MediaAsset, Vec<u8>)>, AppError>)
    ensures
        archive_image_spec(archive@, entry@, r),
{
    validate_entry_name(entry)?;
    let (info, contents) = match zip_entry(archive, entry, MAX_EXTRACTED_IMAGE_BYTES + 1) {
        None => return Err(AppError::InvalidFile),
        Some(None) => return Ok(None),
        Some(Some(found)) => found,
    };
    let checked = check_archive_entry(
        entry,
        info.stored_name.as_str(),
        info.is_dir,
        info.unix_mode,
        info.compressed_size,
        info.declared_size,
    );
    let contents = match contents {
        Ok(c) => c,
        Err(_) => return Err(AppError::InvalidFile),
    };
    if checked.is_err() {
        return Err(AppError::InvalidFile);
    }
    let bytes = read_entry_bytes(contents, info.declared_size)?;
    let validated = validate_image_bytes(bytes.as_slice())?;
    let asset = media_asset_for(
        bytes.as_slice(),
        validated.extension,
        validated.mime_type,
        validated.width,
        validated.height,
    );
    check_verified_media_path(asset.relative_path.as_str())?;
    Ok(Some((asset, bytes)))
}

} // verus!
