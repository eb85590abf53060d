//! Backups that carry their media files: a zip archive holding the JSON
//! manifest `backup.json` and each media file under `media/<id>.<extension>`,
//! read with `zip` and checked against the manifest by size and SHA-256.
use crate::backup::{media_archive_name, media_extension_spec, MAX_BACKUP_MEDIA_BYTES};
use crate::error::AppError;
use crate::media::{lower_hex, sha256_digest, sha256_of, to_lower_hex, zip_entry, zip_entry_read};
use crate::text::str_eq;
use vstd::prelude::*;

verus! {

/// The name of the manifest inside a backup archive.
pub open spec fn manifest_name() -> Seq<char> {
    "backup.json"@
}

/// Whether `bytes` begin as a zip archive does (`PK\x03\x04`).
pub open spec fn zip_signature(bytes: Seq<u8>) -> bool {
    bytes.len() >= 4 && bytes[0] == 0x50u8 && bytes[1] == 0x4bu8 && bytes[2] == 0x03u8 && bytes[3]
        == 0x04u8
}

/// Whether a backup file is a zip archive rather than plain JSON.
pub fn is_backup_archive(bytes: &[u8]) -> (r: bool)
    ensures
        r == zip_signature(bytes@),
{
    bytes.len() >= 4 && bytes[0] == 0x50u8 && bytes[1] == 0x4bu8 && bytes[2] == 0x03u8 && bytes[3]
        == 0x04u8
}

/// A backup carries media files exactly when it is an archive: a plain JSON
/// backup that claims media, or an archive that does not, is refused.
pub fn check_backup_form(is_archive: bool, media_files_included: bool) -> (r: Result<(), AppError>)
    ensures
        r is Ok <==> is_archive == media_files_included,
        r is Err ==> r == Err::<(), AppError>(AppError::InvalidFile),
{
    if is_archive == media_files_included {
        Ok(())
    } else {
        Err(AppError::InvalidFile)
    }
}

/// The manifest of a backup archive: its bytes; an archive that cannot be
/// opened or has no manifest is refused, and a manifest that cannot be read
/// gives the read error.
pub open spec fn manifest_spec(archive: Seq<u8>, r: Result<Vec<u8>, AppError>) -> bool {
    match zip_entry_read(archive, manifest_name(), u64::MAX) {
        Some(Some(e)) => match e.5 {
            Ok(b) => r matches Ok(v) && v@ == b,
            Err(m) => r matches Err(AppError::Io(t)) && t@ == m,
        },
        _ => r == Err::<Vec<u8>, AppError>(AppError::InvalidFile),
    }
}

/// Reads the manifest of a backup archive.
pub fn backup_manifest(archive: &[u8]) -> (r: Result<Vec<u8>, AppError>)
    ensures
        manifest_spec(archive@, r),
{
    match zip_entry(archive, "backup.json", u64::MAX) {
        Some(Some((_, Ok(bytes)))) => Ok(bytes),
        Some(Some((_, Err(message)))) => Err(AppError::Io(message)),
        _ => Err(AppError::InvalidFile),
    }
}

/// The most bytes read of a media file of a backup: one past the limit, so
/// that a file longer than it declares is caught.
pub open spec fn media_read_limit() -> u64 {
    (MAX_BACKUP_MEDIA_BYTES + 1) as u64
}

/// The media file a manifest row names, checked: a name the row can give, an
/// entry that is there and no directory, whose declared size is the row's
/// and within the limit, and whose bytes hash to the row's id.
pub open spec fn archived_media_spec(
    archive: Seq<u8>,
    asset_id: Seq<char>,
    relative_path: Seq<char>,
    byte_size: u64,
    r: Result<Vec<u8>, AppError>,
) -> bool {
    match media_extension_spec(relative_path) {
        None => r == Err::<Vec<u8>, AppError>(AppError::InvalidFile),
        Some(extension) => match zip_entry_read(
            archive,
            "media/"@ + asset_id + "."@ + extension,
            media_read_limit(),
        ) {
            Some(Some(e)) => if e.1 || e.4 != byte_size || e.4 > MAX_BACKUP_MEDIA_BYTES {
                r == Err::<Vec<u8>, AppError>(AppError::InvalidFile)
            } else {
                match e.5 {
                    Err(m) => r matches Err(AppError::Io(t)) && t@ == m,
                    Ok(b) => if lower_hex(sha256_of(b)) != asset_id {
                        r == Err::<Vec<u8>, AppError>(AppError::InvalidFile)
                    } else {
                        r matches Ok(v) && v@ == b
                    },
                }
            },
            _ => r == Err::<Vec<u8>, AppError>(AppError::InvalidFile),
        },
    }
}

/// Reads and checks the media file of one manifest row.
pub fn archived_media(archive: &[u8], asset_id: &str, relative_path: &str, byte_size: u64) -> (r: Result<
    Vec<u8>,
    AppError,
>)
    ensures
        archived_media_spec(archive@, asset_id@, relative_path@, byte_size, r),
{
    let name = match media_archive_name(asset_id, relative_path) {
        Ok(n) => n,
        Err(_) => return Err(AppError::InvalidFile),
    };
    let (info, contents) = match zip_entry(archive, name.as_str(), MAX_BACKUP_MEDIA_BYTES + 1) {
        Some(Some(found)) => found,
        _ => return Err(AppError::InvalidFile),
    };
    if info.is_dir || info.declared_size != byte_size || info.declared_size > MAX_BACKUP_MEDIA_BYTES {
        return Err(AppError::InvalidFile);
    }
    let bytes = match contents {
        Ok(b) => b,
        Err(message) => return Err(AppError::Io(message)),
    };
    if !media_bytes_hash_to(bytes.as_slice(), asset_id) {
        return Err(AppError::InvalidFile);
    }
    Ok(bytes)
}

fn media_bytes_hash_to(bytes: &[u8], asset_id: &str) -> (r: bool)
    ensures
        r == (lower_hex(sha256_of(bytes@)) == asset_id@),
{
    let digest = sha256_digest(bytes);
    let hex = to_lower_hex(digest.as_slice());
    str_eq(hex.as_str(), asset_id)
}

/// Whether a media file about to be exported is the one its row describes:
/// its length and the lower-hex SHA-256 of its bytes.
pub fn media_bytes_match(bytes: &[u8], byte_size: u64, asset_id: &str) -> (r: bool)
    ensures
        r == (bytes@.len() == byte_size && lower_hex(sha256_of(bytes@)) == asset_id@),
{
    bytes.len() as u64 == byte_size && media_bytes_hash_to(bytes, asset_id)
}

} // verus!
