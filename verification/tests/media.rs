use cylune::error::AppError;
use sha2::Digest;
use cylune::media::{
    image_from_archive, check_archive_entry, image_from_decoded, validate_image_bytes, ValidatedImage, asset_id_for, check_image_size, check_verified_media_path, image_type, is_plain_relative_path,
    media_asset_for, media_relative_path, path_segments, read_entry_bytes, to_lower_hex,
    validate_entry_name, ImageKind, MediaStore, MAX_EXTRACTED_IMAGE_BYTES,
};

#[test]
fn rejects_reader_output_past_the_image_byte_limit_despite_a_small_declared_size() {
    let bytes = vec![0; 16 * 1024 * 1024 + 1];

    let error = read_entry_bytes(bytes, 1).unwrap_err();

    assert!(matches!(error, AppError::InvalidFile));
}

#[test]
fn keeps_entry_bytes_within_the_limit_unchanged() {
    let bytes = vec![7u8; 10];
    assert_eq!(read_entry_bytes(bytes.clone(), 10).unwrap(), bytes);
    let at_limit = vec![0u8; MAX_EXTRACTED_IMAGE_BYTES as usize];
    assert_eq!(read_entry_bytes(at_limit, 0).unwrap().len(), 16 * 1024 * 1024);
}

#[test]
fn images_are_recognised_by_their_signature() {
    let png = [0x89, 0x50, 0x4e, 0x47, 0x0d, 0x0a, 0x1a, 0x0a, 0x00];
    let jpeg = [0xff, 0xd8, 0xff, 0xe0];
    assert_eq!(image_type(&png), Some((ImageKind::Png, "png", "image/png")));
    assert_eq!(image_type(&jpeg), Some((ImageKind::Jpeg, "jpg", "image/jpeg")));
    assert_eq!(image_type(b"GIF89a"), None);
    assert_eq!(image_type(&[0x89, 0x50]), None);
}

#[test]
fn image_sizes_are_bounded_and_dimensions_positive() {
    assert!(check_image_size(100, 10, 10).is_ok());
    assert!(matches!(check_image_size(16 * 1024 * 1024 + 1, 10, 10), Err(AppError::InvalidFile)));
    assert!(check_image_size(100, 0, 10).is_err());
    assert!(check_image_size(100, 10, 0).is_err());
}

#[test]
fn entry_names_stay_inside_the_archive_root() {
    assert!(validate_entry_name("Metadata/plate_1.png").is_ok());
    assert!(validate_entry_name("").is_err());
    assert!(validate_entry_name("../escape.png").is_err());
    assert!(validate_entry_name("/absolute.png").is_err());
    assert!(validate_entry_name("a\\b.png").is_err());
    assert!(is_plain_relative_path("a/./b"));
    assert!(!is_plain_relative_path("a/../b"));
    assert_eq!(path_segments("a/b/c"), vec!["a", "b", "c"]);
}

#[test]
fn restored_media_goes_only_under_the_media_directory() {
    assert!(check_verified_media_path("media/ab/abcdef.png").is_ok());
    assert!(check_verified_media_path("other/ab/abcdef.png").is_err());
    assert!(check_verified_media_path("media/abcdef.png").is_err());
    assert!(check_verified_media_path("media/../ab/x.png").is_err());
}

#[test]
fn asset_ids_are_the_lowercase_sha256_of_the_bytes() {
    assert_eq!(
        asset_id_for(b"abc"),
        "ba7816bf8f01cfea414140de5dae2223b00361a396177a9cb410ff61f20015ad"
    );
    assert_eq!(to_lower_hex(&[0x00, 0xab, 0x0f]), "00ab0f");
}

#[test]
fn media_assets_are_stored_by_their_id() {
    let asset = media_asset_for(b"abc", "png", "image/png", 4, 3);
    assert_eq!(
        asset.asset_id,
        "ba7816bf8f01cfea414140de5dae2223b00361a396177a9cb410ff61f20015ad"
    );
    assert_eq!(
        asset.relative_path,
        "media/ba/ba7816bf8f01cfea414140de5dae2223b00361a396177a9cb410ff61f20015ad.png"
    );
    assert_eq!(asset.byte_size, 3);
    assert_eq!((asset.width, asset.height), (4, 3));
    assert_eq!(media_relative_path("abcd", "jpg"), "media/ab/abcd.jpg");
}

#[test]
fn media_store_remembers_its_root() {
    let store = MediaStore::at_root("/data/app");
    assert_eq!(store.app_data_root(), "/data/app");
}

fn png(width: u32, height: u32) -> Vec<u8> {
    let image = image::RgbImage::new(width, height);
    let mut bytes = std::io::Cursor::new(Vec::new());
    image.write_to(&mut bytes, image::ImageFormat::Png).unwrap();
    bytes.into_inner()
}

#[test]
fn decodable_pngs_are_accepted_with_their_size() {
    let validated = validate_image_bytes(&png(2, 3)).unwrap();
    assert_eq!(
        validated,
        ValidatedImage {
            extension: "png",
            mime_type: "image/png",
            width: 2,
            height: 3,
        }
    );
}

#[test]
fn rejects_images_wider_than_the_thumbnail_dimension_limit() {
    assert!(matches!(
        validate_image_bytes(&png(8_193, 1)),
        Err(AppError::InvalidFile)
    ));
}

#[test]
fn a_jpeg_signature_without_an_image_is_refused() {
    assert!(validate_image_bytes(&[0xff, 0xd8, 0xff, 0x00, 0x01]).is_err());
    assert!(validate_image_bytes(b"not an image").is_err());
}

#[test]
fn decode_results_decide_acceptance() {
    assert_eq!(
        image_from_decoded("jpg", "image/jpeg", Some((4, 5))),
        Ok(ValidatedImage {
            extension: "jpg",
            mime_type: "image/jpeg",
            width: 4,
            height: 5,
        })
    );
    assert_eq!(
        image_from_decoded("jpg", "image/jpeg", Some((0, 5))),
        Err(AppError::InvalidFile)
    );
    assert_eq!(image_from_decoded("png", "image/png", None), Err(AppError::InvalidFile));
}

#[test]
fn archive_entries_must_be_small_regular_files_of_the_asked_name() {
    assert!(check_archive_entry("thumb.png", "thumb.png", false, Some(0o100644), 10, 10).is_ok());
    assert!(check_archive_entry("thumb.png", "thumb.png", true, None, 10, 10).is_err());
    assert!(check_archive_entry("thumb.png", "thumb.png", false, Some(0o120777), 10, 10).is_err());
    assert!(check_archive_entry("thumb.png", "Thumb.png", false, None, 10, 10).is_err());
    assert!(check_archive_entry("thumb.png", "thumb.png", false, None, 16 * 1024 * 1024 + 1, 10).is_err());
    assert!(check_archive_entry("thumb.png", "thumb.png", false, None, 10, 16 * 1024 * 1024 + 1).is_err());
}

fn zipped(entries: &[(&str, &[u8])]) -> Vec<u8> {
    let mut writer = zip::ZipWriter::new(std::io::Cursor::new(Vec::new()));
    for (name, contents) in entries {
        writer
            .start_file(*name, zip::write::FileOptions::default())
            .unwrap();
        std::io::Write::write_all(&mut writer, contents).unwrap();
    }
    writer.finish().unwrap().into_inner()
}

#[test]
fn an_image_entry_is_taken_out_with_its_asset_record() {
    let image = png(2, 3);
    let archive = zipped(&[("Metadata/plate_1.png", &image), ("notes.txt", b"text")]);
    let (asset, bytes) = image_from_archive(&archive, "Metadata/plate_1.png")
        .unwrap()
        .unwrap();
    assert_eq!(bytes, image);
    assert_eq!(asset.width, 2);
    assert_eq!(asset.height, 3);
    assert_eq!(asset.mime_type, "image/png");
    assert_eq!(asset.asset_id, to_lower_hex(&sha2::Sha256::digest(&image)));
    assert_eq!(
        asset.relative_path,
        format!("media/{}/{}.png", &asset.asset_id[..2], asset.asset_id)
    );
    assert!(image_from_archive(&archive, "Metadata/plate_2.png").unwrap().is_none());
    assert!(matches!(image_from_archive(&archive, "notes.txt"), Err(AppError::InvalidFile)));
    assert!(matches!(image_from_archive(&archive, "../x.png"), Err(AppError::InvalidFile)));
    assert!(matches!(image_from_archive(b"no zip", "a.png"), Err(AppError::InvalidFile)));
}
