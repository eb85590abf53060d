use cylune::backup::archive::{
    archived_media, backup_manifest, check_backup_form, is_backup_archive, media_bytes_match,
};
use cylune::error::AppError;
use cylune::media::to_lower_hex;
use sha2::Digest;
use std::io::{Cursor, Write};
use zip::write::FileOptions;
use zip::ZipWriter;

fn archive(entries: &[(&str, &[u8])]) -> Vec<u8> {
    let mut writer = ZipWriter::new(Cursor::new(Vec::new()));
    for (name, contents) in entries {
        writer.start_file(*name, FileOptions::default()).unwrap();
        writer.write_all(contents).unwrap();
    }
    writer.finish().unwrap().into_inner()
}

fn id_of(bytes: &[u8]) -> String {
    to_lower_hex(&sha2::Sha256::digest(bytes))
}

#[test]
fn a_backup_archive_yields_its_manifest() {
    let bytes = archive(&[("backup.json", b"{\"schema_version\":3}")]);
    assert!(is_backup_archive(&bytes));
    assert!(!is_backup_archive(b"{\"schema_version\":3}"));
    assert_eq!(backup_manifest(&bytes).unwrap(), b"{\"schema_version\":3}".to_vec());
    let without = archive(&[("other.json", b"{}")]);
    assert_eq!(backup_manifest(&without), Err(AppError::InvalidFile));
    assert_eq!(backup_manifest(b"PK\x03\x04broken"), Err(AppError::InvalidFile));
}

#[test]
fn media_files_must_match_their_rows() {
    let image: &[u8] = b"\x89PNG not really";
    let id = id_of(image);
    let name = format!("media/{id}.png");
    let relative = format!("media/{}/{id}.png", &id[..2]);
    let bytes = archive(&[("backup.json", b"{}"), (&name, image)]);
    assert_eq!(
        archived_media(&bytes, &id, &relative, image.len() as u64).unwrap(),
        image.to_vec()
    );
    assert_eq!(
        archived_media(&bytes, &id, &relative, image.len() as u64 + 1),
        Err(AppError::InvalidFile)
    );
    let wrong_id = "0".repeat(64);
    let renamed = archive(&[(&format!("media/{wrong_id}.png"), image)]);
    assert_eq!(
        archived_media(&renamed, &wrong_id, &relative, image.len() as u64),
        Err(AppError::InvalidFile)
    );
    assert_eq!(
        archived_media(&bytes, &id, "media/no_extension", image.len() as u64),
        Err(AppError::InvalidFile)
    );
    let missing = archive(&[("backup.json", b"{}")]);
    assert_eq!(
        archived_media(&missing, &id, &relative, image.len() as u64),
        Err(AppError::InvalidFile)
    );
}

#[test]
fn exported_media_is_checked_by_length_and_hash() {
    let data: &[u8] = b"abc";
    let id = id_of(data);
    assert!(media_bytes_match(data, 3, &id));
    assert!(!media_bytes_match(data, 4, &id));
    assert!(!media_bytes_match(b"abd", 3, &id));
}

#[test]
fn media_files_come_only_with_an_archive() {
    assert!(check_backup_form(true, true).is_ok());
    assert!(check_backup_form(false, false).is_ok());
    assert_eq!(check_backup_form(false, true), Err(AppError::InvalidFile));
    assert_eq!(check_backup_form(true, false), Err(AppError::InvalidFile));
}
