use base64::Engine;
use nanobanana::files::{
    check_batch, check_delete, check_upload, data_url, get_image, mime_for_extension,
    new_upload_name, upload_file_name, validate_upload, UploadError, MAX_FILE_SIZE,
};

fn s(x: &str) -> String {
    x.to_string()
}

fn parts(p: &[&str]) -> Vec<String> {
    p.iter().map(|c| c.to_string()).collect()
}

#[test]
fn oversized_png_is_too_large() {
    let r = validate_upload(&s("/in/big.png"), true, &s("png"), 15 * 1024 * 1024, &s("big.png"));
    assert!(matches!(r, Err(UploadError::TooLarge(n)) if n == "big.png"));
}

#[test]
fn bmp_is_invalid_type() {
    let r = validate_upload(&s("/in/a.bmp"), true, &s("bmp"), 100, &s("a.bmp"));
    assert!(matches!(r, Err(UploadError::InvalidType(e)) if e == "bmp"));
}

#[test]
fn missing_file_is_not_found() {
    let r = validate_upload(&s("/in/none.png"), false, &s("bmp"), 0, &s("none.png"));
    assert!(matches!(r, Err(UploadError::NotFound(p)) if p == "/in/none.png"));
}

#[test]
fn size_limit_is_inclusive() {
    assert!(validate_upload(&s("/a.jpg"), true, &s("jpg"), MAX_FILE_SIZE, &s("a.jpg")).is_ok());
    assert!(validate_upload(&s("/a.jpg"), true, &s("jpg"), MAX_FILE_SIZE + 1, &s("a.jpg")).is_err());
}

#[test]
fn extension_is_lowercased_before_checking() {
    assert_eq!(check_upload(&s("/a.JPG"), true, "JPG", 10, &s("a.JPG")).unwrap(), "jpg");
    assert_eq!(check_upload(&s("/a.WebP"), true, "WebP", 10, &s("a.WebP")).unwrap(), "webp");
    assert!(matches!(
        check_upload(&s("/a.BMP"), true, "BMP", 10, &s("a.BMP")),
        Err(UploadError::InvalidType(e)) if e == "bmp"
    ));
}

#[test]
fn batch_limit_is_twenty() {
    assert!(check_batch(20).is_ok());
    assert!(matches!(check_batch(21), Err(UploadError::TooManyFiles)));
    assert!(check_batch(0).is_ok());
}

#[test]
fn upload_names_are_id_dot_ext() {
    assert_eq!(upload_file_name(&s("abc"), &s("png")), "abc.png");
    let (id, name) = new_upload_name(&s("gif"));
    assert_eq!(id.len(), 36);
    assert_eq!(name, format!("{}.gif", id));
}

#[test]
fn mime_types_follow_extension() {
    assert_eq!(mime_for_extension("jpg"), "image/jpeg");
    assert_eq!(mime_for_extension("jpeg"), "image/jpeg");
    assert_eq!(mime_for_extension("png"), "image/png");
    assert_eq!(mime_for_extension("webp"), "image/webp");
    assert_eq!(mime_for_extension("gif"), "image/gif");
    assert_eq!(mime_for_extension("bmp"), "application/octet-stream");
}

#[test]
fn data_url_layout() {
    assert_eq!(data_url(&s("image/png"), &s("QUJD")), "data:image/png;base64,QUJD");
}

#[test]
fn valid_jpg_round_trips_through_data_url() {
    let bytes: Vec<u8> = vec![0xff, 0xd8, 0xff, 0xe0, 0, 16, b'J', b'F', b'I', b'F', 0, 1];
    assert!(validate_upload(&s("/in/photo.jpg"), true, &s("jpg"), bytes.len() as u64, &s("photo.jpg")).is_ok());
    let url = get_image(&bytes, "JPG");
    let prefix = "data:image/jpeg;base64,";
    assert!(url.starts_with(prefix));
    let decoded = base64::engine::general_purpose::STANDARD
        .decode(&url[prefix.len()..])
        .unwrap();
    assert_eq!(decoded, bytes);
}

#[test]
fn image_data_url_encodes_bytes() {
    assert_eq!(get_image(&b"hello".to_vec(), "png"), "data:image/png;base64,aGVsbG8=");
    assert_eq!(get_image(&vec![], "xyz"), "data:application/octet-stream;base64,");
}

#[test]
fn delete_outside_uploads_is_refused() {
    let dir = parts(&["/", "data", "uploads"]);
    let r = check_delete(&dir, &parts(&["/", "etc", "passwd"]));
    assert!(matches!(r, Err(UploadError::PermissionDenied)));
    let r = check_delete(&dir, &parts(&["/", "data", "uploads", "..", "db"]));
    assert!(matches!(r, Err(UploadError::PermissionDenied)));
    let r = check_delete(&dir, &parts(&["/", "data", "uploadsx", "a.png"]));
    assert!(matches!(r, Err(UploadError::PermissionDenied)));
}

#[test]
fn delete_inside_uploads_is_allowed() {
    let dir = parts(&["/", "data", "uploads"]);
    assert!(check_delete(&dir, &parts(&["/", "data", "uploads", "missing.png"])).is_ok());
}

#[test]
fn upload_error_messages_name_the_file() {
    assert_eq!(UploadError::NotFound(s("/x.png")).message(), "File not found: /x.png");
    assert_eq!(
        UploadError::InvalidType(s("bmp")).message(),
        "Invalid file type: bmp. Allowed: JPEG, PNG, WebP, GIF"
    );
    assert_eq!(UploadError::TooLarge(s("big.png")).message(), "File too large: big.png. Max size: 10MB");
    assert_eq!(UploadError::TooManyFiles.message(), "Maximum 20 files allowed per batch");
    assert_eq!(
        UploadError::PermissionDenied.message(),
        "Cannot delete files outside uploads directory"
    );
}
