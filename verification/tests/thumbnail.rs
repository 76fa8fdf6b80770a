use file_browser::listing::{render, FileEntry};
use file_browser::media::MimeKind;
use file_browser::thumbnail::{
    after_extraction, after_probe, after_read, begin, extraction_command, frame_thumbnail,
    image_thumbnail, preview_of_decoded, probe_command, tool_error, Command, Step, ThumbnailError,
    ToolFailure, MAX_HEIGHT, MAX_WIDTH,
};

fn encoded(width: u32, height: u32, format: image::ImageFormat) -> Vec<u8> {
    let mut picture = image::RgbImage::new(width, height);
    for (x, y, pixel) in picture.enumerate_pixels_mut() {
        *pixel = image::Rgb([(x % 256) as u8, (y % 256) as u8, ((x + y) % 256) as u8]);
    }
    let mut out = std::io::Cursor::new(Vec::new());
    image::DynamicImage::ImageRgb8(picture).write_to(&mut out, format).unwrap();
    out.into_inner()
}

fn size_of_png(png: &[u8]) -> (u32, u32) {
    assert_eq!(image::guess_format(png).unwrap(), image::ImageFormat::Png);
    let picture = image::load_from_memory_with_format(png, image::ImageFormat::Png).unwrap();
    (picture.width(), picture.height())
}

fn strings(items: &[&str]) -> Vec<String> {
    items.iter().map(|s| String::from(*s)).collect()
}

#[test]
fn preview_bounds_are_200_by_1080() {
    assert_eq!(MAX_WIDTH, 200);
    assert_eq!(MAX_HEIGHT, 1080);
}

#[test]
fn wide_image_is_scaled_to_the_width_bound() {
    let source = encoded(400, 100, image::ImageFormat::Png);
    let preview = image_thumbnail("photos/wide.png", &source).unwrap();
    assert_eq!(size_of_png(&preview), (200, 50));
    assert_ne!(preview, source);
}

#[test]
fn tall_image_is_scaled_to_the_height_bound() {
    let source = encoded(100, 2160, image::ImageFormat::Png);
    let preview = image_thumbnail("tall.png", &source).unwrap();
    assert_eq!(size_of_png(&preview), (50, 1080));
}

#[test]
fn preview_keeps_the_aspect_ratio_within_both_bounds() {
    for (width, height) in [(800u32, 600u32), (1000, 1000), (199, 1079), (3, 2000), (640, 48)] {
        let source = encoded(width, height, image::ImageFormat::Png);
        let preview = image_thumbnail("p.png", &source).unwrap();
        let (w, h) = size_of_png(&preview);
        assert!(w <= 200 && h <= 1080);
        assert!(w == 200 || h == 1080);
        let expected = image::load_from_memory(&source).unwrap().thumbnail(200, 1080);
        assert_eq!((w, h), (expected.width(), expected.height()));
    }
}

#[test]
fn preview_is_the_same_for_the_same_image() {
    let source = encoded(320, 240, image::ImageFormat::Png);
    let first = image_thumbnail("a.png", &source).unwrap();
    let second = image_thumbnail("a.png", &source).unwrap();
    assert_eq!(first, second);
    assert_eq!(frame_thumbnail(&source).unwrap(), first);
}

#[test]
fn image_is_read_in_the_format_of_its_extension() {
    let jpeg = encoded(300, 300, image::ImageFormat::Jpeg);
    assert_eq!(size_of_png(&image_thumbnail("a.jpg", &jpeg).unwrap()), (200, 200));
    assert_eq!(size_of_png(&image_thumbnail("a.JPEG", &jpeg).unwrap()), (200, 200));
    assert_eq!(image_thumbnail("a.png", &jpeg), Err(ThumbnailError::InvalidImage));
    let png = encoded(300, 300, image::ImageFormat::Png);
    assert_eq!(image_thumbnail("a.jpg", &png), Err(ThumbnailError::InvalidImage));
}

#[test]
fn image_without_a_known_extension_has_no_preview() {
    let png = encoded(30, 30, image::ImageFormat::Png);
    assert_eq!(image_thumbnail("picture", &png), Err(ThumbnailError::InvalidImage));
    assert_eq!(image_thumbnail("picture.data", &png), Err(ThumbnailError::InvalidImage));
}

#[test]
fn broken_image_has_no_preview() {
    assert_eq!(image_thumbnail("a.png", b"not a picture"), Err(ThumbnailError::InvalidImage));
    assert_eq!(image_thumbnail("a.png", &[]), Err(ThumbnailError::InvalidImage));
    let png = encoded(64, 64, image::ImageFormat::Png);
    assert_eq!(
        image_thumbnail("a.png", &png[..png.len() / 2]),
        Err(ThumbnailError::InvalidImage)
    );
}

#[test]
fn frame_format_is_guessed_from_its_content() {
    let png = encoded(1920, 1080, image::ImageFormat::Png);
    assert_eq!(size_of_png(&frame_thumbnail(&png).unwrap()), (200, 113));
    let jpeg = encoded(640, 480, image::ImageFormat::Jpeg);
    assert_eq!(size_of_png(&frame_thumbnail(&jpeg).unwrap()), (200, 150));
    assert_eq!(frame_thumbnail(b""), Err(ThumbnailError::InvalidImage));
    assert_eq!(frame_thumbnail(b"ftypisom"), Err(ThumbnailError::InvalidImage));
}

#[test]
fn probe_asks_for_the_duration_only() {
    assert_eq!(
        probe_command("videos/clip.mp4"),
        Command {
            program: String::from("ffprobe"),
            args: strings(&[
                "-v",
                "error",
                "-show_entries",
                "format=duration",
                "-of",
                "default=noprint_wrappers=1:nokey=1",
                "videos/clip.mp4",
            ]),
        }
    );
}

#[test]
fn extraction_asks_for_one_png_frame_at_the_seek_time() {
    assert_eq!(
        extraction_command("videos/clip.mp4", "7.5s"),
        Command {
            program: String::from("ffmpeg"),
            args: strings(&[
                "-i",
                "videos/clip.mp4",
                "-ss",
                "7.5s",
                "-vframes",
                "1",
                "-f",
                "image2",
                "-c:v",
                "png",
                "-",
            ]),
        }
    );
}

#[test]
fn tool_failures_are_told_apart_from_unreadable_durations() {
    assert_eq!(tool_error(ToolFailure::ToolMissing), ThumbnailError::ExternalToolError);
    assert_eq!(tool_error(ToolFailure::NonZeroExit), ThumbnailError::ExternalToolError);
    assert_eq!(tool_error(ToolFailure::Timeout), ThumbnailError::ExternalToolError);
    assert_eq!(tool_error(ToolFailure::ParseFailure), ThumbnailError::ParseError);
}

#[test]
fn first_step_depends_on_the_kind() {
    assert_eq!(begin("a.png", MimeKind::Image), Step::ReadSource);
    assert_eq!(begin("a.mp4", MimeKind::Video), Step::Probe(probe_command("a.mp4")));
    assert_eq!(
        begin("a.txt", MimeKind::Other),
        Step::Done(Err(ThumbnailError::UnsupportedKind))
    );
}

#[test]
fn image_that_was_read_gets_its_preview() {
    let png = encoded(400, 400, image::ImageFormat::Png);
    let preview = after_read("a.png", Some(png.clone())).unwrap();
    assert_eq!(size_of_png(&preview), (200, 200));
    assert_eq!(Ok(preview), image_thumbnail("a.png", &png));
    assert_eq!(after_read("a.png", None), Err(ThumbnailError::IoFailure));
    assert_eq!(after_read("a.png", Some(vec![1, 2, 3])), Err(ThumbnailError::InvalidImage));
}

#[test]
fn probed_video_gets_a_frame_extracted() {
    assert_eq!(
        after_probe("a.mp4", Ok(String::from("15s"))),
        Step::Extract(extraction_command("a.mp4", "15s"))
    );
    assert_eq!(
        after_probe("a.mp4", Err(ToolFailure::ParseFailure)),
        Step::Done(Err(ThumbnailError::ParseError))
    );
    for failure in [ToolFailure::ToolMissing, ToolFailure::NonZeroExit, ToolFailure::Timeout] {
        assert_eq!(
            after_probe("a.mp4", Err(failure)),
            Step::Done(Err(ThumbnailError::ExternalToolError))
        );
    }
}

#[test]
fn extracted_frame_becomes_the_preview() {
    let frame = encoded(1280, 720, image::ImageFormat::Png);
    let preview = after_extraction(Ok(frame.clone())).unwrap();
    assert_eq!(size_of_png(&preview), (200, 113));
    assert_eq!(Ok(preview), frame_thumbnail(&frame));
    assert_eq!(after_extraction(Ok(vec![0; 16])), Err(ThumbnailError::InvalidImage));
    assert_eq!(
        after_extraction(Err(ToolFailure::NonZeroExit)),
        Err(ThumbnailError::ExternalToolError)
    );
    assert_eq!(
        after_extraction(Err(ToolFailure::ToolMissing)),
        Err(ThumbnailError::ExternalToolError)
    );
    assert_eq!(after_extraction(Err(ToolFailure::ParseFailure)), Err(ThumbnailError::ParseError));
}

#[test]
fn listing_shows_image_and_video_with_previews_and_no_hidden_file() {
    let entries = vec![
        FileEntry::new(String::from(".hidden"), false),
        FileEntry::new(String::from("photo.png"), false),
        FileEntry::new(String::from("clip.mp4"), false),
    ];
    let photo = image_thumbnail("photo.png", &encoded(400, 300, image::ImageFormat::Png)).unwrap();
    let frame = frame_thumbnail(&encoded(1280, 720, image::ImageFormat::Png)).unwrap();
    let previews = vec![Some(vec![1, 2, 3]), Some(photo.clone()), Some(frame.clone())];
    let html = render(&entries, "media", &previews);
    assert!(!html.contains(".hidden"));
    assert_eq!(html.matches("<li><a href=\"/file/media/").count(), 2);
    assert_eq!(html.matches("<img src=\"data:image/png;base64,").count(), 2);
    let clip = html.find("clip.mp4<img src=\"data:image/png;base64,iVBORw0KGgo").unwrap();
    let shot = html.find("photo.png<img src=\"data:image/png;base64,iVBORw0KGgo").unwrap();
    assert!(clip < shot);
    assert_ne!(photo, frame);
}

#[test]
fn decoded_picture_is_scaled_and_written_as_png() {
    let source = encoded(400, 100, image::ImageFormat::Png);
    let picture = image::load_from_memory_with_format(&source, image::ImageFormat::Png);
    let preview = preview_of_decoded(picture).unwrap();
    assert_eq!(size_of_png(&preview), (200, 50));
    assert_eq!(Ok(preview), image_thumbnail("wide.png", &source));
}

#[test]
fn picture_that_was_not_decoded_has_no_preview() {
    let failed = image::load_from_memory_with_format(b"no picture", image::ImageFormat::Png);
    assert!(failed.is_err());
    assert_eq!(preview_of_decoded(failed), Err(ThumbnailError::InvalidImage));
}

#[test]
fn frame_is_read_in_the_format_of_its_signature() {
    let png = encoded(640, 360, image::ImageFormat::Png);
    assert_eq!(image::guess_format(&png).unwrap(), image::ImageFormat::Png);
    let expected = preview_of_decoded(image::load_from_memory_with_format(
        &png,
        image::ImageFormat::Png,
    ));
    assert_eq!(frame_thumbnail(&png), expected);
    let gif = encoded(64, 32, image::ImageFormat::Gif);
    assert_eq!(size_of_png(&frame_thumbnail(&gif).unwrap()), (200, 100));
    let mut broken = png.clone();
    broken.truncate(20);
    assert_eq!(frame_thumbnail(&broken), Err(ThumbnailError::InvalidImage));
    assert_eq!(frame_thumbnail(b"plain text, no signature"), Err(ThumbnailError::InvalidImage));
}
