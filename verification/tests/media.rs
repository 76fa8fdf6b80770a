use file_browser::media::MimeKind;

#[test]
fn kind_follows_the_top_level_type() {
    assert_eq!(MimeKind::of_content_type("image/png"), MimeKind::Image);
    assert_eq!(MimeKind::of_content_type("image/svg+xml"), MimeKind::Image);
    assert_eq!(MimeKind::of_content_type("video/mp4"), MimeKind::Video);
    assert_eq!(MimeKind::of_content_type("text/plain"), MimeKind::Other);
    assert_eq!(MimeKind::of_content_type("application/octet-stream"), MimeKind::Other);
    assert_eq!(MimeKind::of_content_type("image"), MimeKind::Other);
    assert_eq!(MimeKind::of_content_type("imagery/x"), MimeKind::Other);
    assert_eq!(MimeKind::of_content_type("x-image/png"), MimeKind::Other);
    assert_eq!(MimeKind::of_content_type(""), MimeKind::Other);
}

#[test]
fn kind_of_a_path_is_judged_by_extension() {
    assert_eq!(MimeKind::of_path("photo.png"), MimeKind::Image);
    assert_eq!(MimeKind::of_path("dir/photo.jpeg"), MimeKind::Image);
    assert_eq!(MimeKind::of_path("clip.mp4"), MimeKind::Video);
    assert_eq!(MimeKind::of_path("CLIP.MP4"), MimeKind::Video);
    assert_eq!(MimeKind::of_path("notes.txt"), MimeKind::Other);
    assert_eq!(MimeKind::of_path("png"), MimeKind::Other);
    assert_eq!(MimeKind::of_path("archive.unknown-extension"), MimeKind::Other);
}

#[test]
fn only_images_and_videos_get_a_preview() {
    assert!(MimeKind::Image.wants_preview());
    assert!(MimeKind::Video.wants_preview());
    assert!(!MimeKind::Other.wants_preview());
}
