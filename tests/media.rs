use media_serve::media::{detect, folder_icon, kind_of_lowercase_mime, media_kind_from_mime, MediaKind};

#[test]
fn kinds_from_mime_types() {
    assert_eq!(kind_of_lowercase_mime("image/png"), MediaKind::Image);
    assert_eq!(kind_of_lowercase_mime("video/mp4"), MediaKind::Video);
    assert_eq!(kind_of_lowercase_mime("audio/mpeg"), MediaKind::Audio);
    assert_eq!(kind_of_lowercase_mime("application/pdf"), MediaKind::Pdf);
    assert_eq!(kind_of_lowercase_mime("text/plain"), MediaKind::Text);
    assert_eq!(kind_of_lowercase_mime("application/json"), MediaKind::Text);
    assert_eq!(kind_of_lowercase_mime("application/zip"), MediaKind::Archive);
    assert_eq!(kind_of_lowercase_mime("application/x-7z-compressed"), MediaKind::Archive);
    assert_eq!(kind_of_lowercase_mime("application/octet-stream"), MediaKind::Other);
}

#[test]
fn kind_ignores_case() {
    assert_eq!(media_kind_from_mime("IMAGE/PNG"), MediaKind::Image);
    assert_eq!(media_kind_from_mime("Application/PDF"), MediaKind::Pdf);
}

#[test]
fn icons_and_thumbnails() {
    assert_eq!(MediaKind::Image.icon_name(), "heroicons:photo");
    assert_eq!(MediaKind::Other.icon_name(), "heroicons:document");
    assert_eq!(folder_icon(), "heroicons:folder");
    assert!(MediaKind::Image.has_thumbnail());
    assert!(MediaKind::Video.has_thumbnail());
    assert!(!MediaKind::Pdf.has_thumbnail());
}

#[test]
fn detect_by_magic_bytes() {
    let png = [0x89u8, 0x50, 0x4E, 0x47, 0x0D, 0x0A, 0x1A, 0x0A, 0, 0, 0, 0];
    let (mime, kind) = detect(&png, "/r/no-extension");
    assert_eq!(mime, "image/png");
    assert_eq!(kind, MediaKind::Image);
}

#[test]
fn detect_falls_back_to_extension() {
    let (mime, kind) = detect(b"plain words", "/r/clip.mp4");
    assert_eq!(mime, "video/mp4");
    assert_eq!(kind, MediaKind::Video);
    let (mime, kind) = detect(b"", "/r/unknown.zzzz");
    assert_eq!(mime, "application/octet-stream");
    assert_eq!(kind, MediaKind::Other);
}
