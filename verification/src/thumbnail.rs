//! Previews: a small PNG made from an image file or from one frame of a
//! video. The pictures themselves are the work of the `image` crate; reading
//! files and running the media tools is left to the caller, who is told step
//! by step what to do next.

use crate::media::MimeKind;
use vstd::prelude::*;
use vstd::string::*;

verus! {

/// A decoded picture of the `image` crate.
#[verifier::external_type_specification]
#[verifier::external_body]
pub struct ExDynamicImage(image::DynamicImage);

/// A picture format known to the `image` crate.
#[verifier::external_type_specification]
#[verifier::external_body]
pub struct ExImageFormat(image::ImageFormat);

/// An error of the `image` crate.
#[verifier::external_type_specification]
#[verifier::external_body]
pub struct ExImageError(image::ImageError);

/// Why no preview could be made.
#[derive(Clone, Copy, Debug, PartialEq, Eq, Structural)]
pub enum ThumbnailError {
    /// The file is neither an image nor a video.
    UnsupportedKind,
    /// A media tool could not be run, ran too long or reported failure.
    ExternalToolError,
    /// The media probe did not print a duration.
    ParseError,
    /// The picture could not be decoded or written.
    InvalidImage,
    /// The file could not be read.
    IoFailure,
}

/// How a run of a media tool failed.
#[derive(Clone, Copy, Debug, PartialEq, Eq, Structural)]
pub enum ToolFailure {
    ToolMissing,
    NonZeroExit,
    Timeout,
    ParseFailure,
}

/// A preview is at most this wide, in pixels.
pub const MAX_WIDTH: u32 = 200;

/// A preview is at most this high, in pixels.
pub const MAX_HEIGHT: u32 = 1080;

/// The format that `image` connects with the extension of `path`, if any.
pub uninterp spec fn format_for(path: Seq<char>) -> Option<image::ImageFormat>;

/// The picture that `image` decodes from `data` read in the given format, if
/// it can.
pub uninterp spec fn decoded_as(data: Seq<u8>, format: image::ImageFormat) -> Option<
    image::DynamicImage,
>;

/// The format that `image` tells by the first bytes of `data`, from its own
/// table of signatures, if they bear one.
pub uninterp spec fn format_by_signature(data: Seq<u8>) -> Option<image::ImageFormat>;

/// The picture scaled to the largest size that fits within the given width
/// and height and keeps its aspect ratio.
pub uninterp spec fn scaled(
    picture: image::DynamicImage,
    max_width: u32,
    max_height: u32,
) -> image::DynamicImage;

/// The PNG file that `image` writes for a picture, if it can.
pub uninterp spec fn png_of(picture: image::DynamicImage) -> Option<Seq<u8>>;

/// Calls `image::ImageFormat::from_path`, which looks at the extension of
/// the path and at nothing else.
#[verifier::external_body]
fn format_from_path(path: &str) -> (format: Result<image::ImageFormat, image::ImageError>)
    ensures
        match format {
            Ok(f) => format_for(path@) == Some(f),
            Err(_) => format_for(path@) is None,
        },
{
    image::ImageFormat::from_path(path)
}

/// Calls `image::load_from_memory_with_format`. What is decoded depends on
/// the bytes and the format alone.
#[verifier::external_body]
fn decode_as(data: &[u8], format: image::ImageFormat) -> (picture: Result<
    image::DynamicImage,
    image::ImageError,
>)
    ensures
        match picture {
            Ok(p) => decoded_as(data@, format) == Some(p),
            Err(_) => decoded_as(data@, format) is None,
        },
{
    image::load_from_memory_with_format(data, format)
}

/// Calls `image::guess_format`, which holds the first bytes of `data`
/// against a fixed table of signatures and reads nothing else.
#[verifier::external_body]
fn format_from_signature(data: &[u8]) -> (format: Result<image::ImageFormat, image::ImageError>)
    ensures
        match format {
            Ok(f) => format_by_signature(data@) == Some(f),
            Err(_) => format_by_signature(data@) is None,
        },
{
    image::guess_format(data)
}

/// Calls `DynamicImage::thumbnail`, which returns a new picture and leaves
/// the given one as it is.
#[verifier::external_body]
fn scale_down(picture: &image::DynamicImage, max_width: u32, max_height: u32) -> (small:
    image::DynamicImage)
    ensures
        small == scaled(*picture, max_width, max_height),
{
    picture.thumbnail(max_width, max_height)
}

/// Calls `DynamicImage::write_to` with the PNG format and an empty buffer in
/// memory, and hands back what was written.
#[verifier::external_body]
fn write_png(picture: &image::DynamicImage) -> (png: Result<Vec<u8>, image::ImageError>)
    ensures
        match png {
            Ok(bytes) => png_of(*picture) == Some(bytes@),
            Err(_) => png_of(*picture) is None,
        },
{
    let mut buffer = std::io::Cursor::new(Vec::new());
    picture.write_to(&mut buffer, image::ImageFormat::Png)?;
    Ok(buffer.into_inner())
}

/// The preview of a picture: the picture scaled to fit the preview's bounds,
/// as a PNG file.
pub open spec fn preview_of_picture(picture: Option<image::DynamicImage>) -> Result<
    Seq<u8>,
    ThumbnailError,
> {
    match picture {
        Some(p) => match png_of(scaled(p, MAX_WIDTH, MAX_HEIGHT)) {
            Some(png) => Ok(png),
            None => Err(ThumbnailError::InvalidImage),
        },
        None => Err(ThumbnailError::InvalidImage),
    }
}

/// The picture in an image file: its bytes read in the format that the
/// file's extension names.
pub open spec fn picture_in_file(path: Seq<char>, content: Seq<u8>) -> Option<
    image::DynamicImage,
> {
    match format_for(path) {
        Some(format) => decoded_as(content, format),
        None => None,
    }
}

/// The picture in a frame that a media tool printed: its bytes read in the
/// format that their signature tells.
pub open spec fn picture_in_frame(frame: Seq<u8>) -> Option<image::DynamicImage> {
    match format_by_signature(frame) {
        Some(format) => decoded_as(frame, format),
        None => None,
    }
}

/// Whether `result` is the outcome `expected`, bytes for bytes.
pub open spec fn is_outcome(
    result: Result<Vec<u8>, ThumbnailError>,
    expected: Result<Seq<u8>, ThumbnailError>,
) -> bool {
    match result {
        Ok(png) => expected == Ok::<Seq<u8>, ThumbnailError>(png@),
        Err(e) => expected == Err::<Seq<u8>, ThumbnailError>(e),
    }
}

/// Makes the preview of a picture that was decoded, or could not be: the
/// picture is scaled down to the preview's bounds and written as PNG.
pub fn preview_of_decoded(picture: Result<image::DynamicImage, image::ImageError>) -> (preview: Result<
    Vec<u8>,
    ThumbnailError,
>)
    ensures
        is_outcome(
            preview,
            preview_of_picture(
                match picture {
                    Ok(p) => Some(p),
                    Err(_) => None,
                },
            ),
        ),
{
    match picture {
        Ok(p) => {
            let small = scale_down(&p, MAX_WIDTH, MAX_HEIGHT);
            match write_png(&small) {
                Ok(png) => Ok(png),
                Err(_) => Err(ThumbnailError::InvalidImage),
            }
        },
        Err(_) => Err(ThumbnailError::InvalidImage),
    }
}

/// The preview of the image file at `path` with the given content.
pub fn image_thumbnail(path: &str, content: &[u8]) -> (preview: Result<Vec<u8>, ThumbnailError>)
    ensures
        is_outcome(preview, preview_of_picture(picture_in_file(path@, content@))),
{
    match format_from_path(path) {
        Ok(format) => preview_of_decoded(decode_as(content, format)),
        Err(_) => Err(ThumbnailError::InvalidImage),
    }
}

/// The preview made from one frame of a video, given as an encoded picture.
pub fn frame_thumbnail(frame: &[u8]) -> (preview: Result<Vec<u8>, ThumbnailError>)
    ensures
        is_outcome(preview, preview_of_picture(picture_in_frame(frame@))),
{
    match format_from_signature(frame) {
        Ok(format) => preview_of_decoded(decode_as(frame, format)),
        Err(_) => Err(ThumbnailError::InvalidImage),
    }
}

/// A media tool to run, and the arguments to run it with.
#[derive(Debug, PartialEq, Eq)]
pub struct Command {
    pub program: String,
    pub args: Vec<String>,
}

/// What a `Command` stands for.
pub struct CommandView {
    pub program: Seq<char>,
    pub args: Seq<Seq<char>>,
}

impl View for Command {
    type V = CommandView;

    open spec fn view(&self) -> CommandView {
        CommandView { program: self.program@, args: self.args@.map_values(|a: String| a@) }
    }
}

/// The run of the media probe that prints the duration of the video at
/// `path`, in seconds, and nothing else.
pub open spec fn probe_of(path: Seq<char>) -> CommandView {
    CommandView {
        program: "ffprobe"@,
        args: seq![
            "-v"@,
            "error"@,
            "-show_entries"@,
            "format=duration"@,
            "-of"@,
            "default=noprint_wrappers=1:nokey=1"@,
            path,
        ],
    }
}

/// The run of the frame extractor that prints, as one PNG picture, the
/// frame of the video at `path` that is shown at the time `seek`.
pub open spec fn extraction_of(path: Seq<char>, seek: Seq<char>) -> CommandView {
    CommandView {
        program: "ffmpeg"@,
        args: seq![
            "-i"@,
            path,
            "-ss"@,
            seek,
            "-vframes"@,
            "1"@,
            "-f"@,
            "image2"@,
            "-c:v"@,
            "png"@,
            "-"@,
        ],
    }
}

/// The command that asks the media probe for the duration of a video.
pub fn probe_command(path: &str) -> (command: Command)
    ensures
        command@ == probe_of(path@),
{
    let mut args: Vec<String> = Vec::new();
    args.push("-v".to_owned());
    args.push("error".to_owned());
    args.push("-show_entries".to_owned());
    args.push("format=duration".to_owned());
    args.push("-of".to_owned());
    args.push("default=noprint_wrappers=1:nokey=1".to_owned());
    args.push(path.to_owned());
    let command = Command { program: "ffprobe".to_owned(), args };
    assert(command@.args =~= probe_of(path@).args);
    command
}

/// The command that asks the frame extractor for the frame at `seek`.
pub fn extraction_command(path: &str, seek: &str) -> (command: Command)
    ensures
        command@ == extraction_of(path@, seek@),
{
    let mut args: Vec<String> = Vec::new();
    args.push("-i".to_owned());
    args.push(path.to_owned());
    args.push("-ss".to_owned());
    args.push(seek.to_owned());
    args.push("-vframes".to_owned());
    args.push("1".to_owned());
    args.push("-f".to_owned());
    args.push("image2".to_owned());
    args.push("-c:v".to_owned());
    args.push("png".to_owned());
    args.push("-".to_owned());
    let command = Command { program: "ffmpeg".to_owned(), args };
    assert(command@.args =~= extraction_of(path@, seek@).args);
    command
}

/// The error that a failed run of a media tool is reported as: a duration
/// that cannot be read is told apart from a tool that did not do its work.
pub open spec fn error_of(failure: ToolFailure) -> ThumbnailError {
    match failure {
        ToolFailure::ParseFailure => ThumbnailError::ParseError,
        _ => ThumbnailError::ExternalToolError,
    }
}

/// Names the error that a failed run of a media tool is reported as.
pub fn tool_error(failure: ToolFailure) -> (error: ThumbnailError)
    ensures
        error == error_of(failure),
{
    match failure {
        ToolFailure::ParseFailure => ThumbnailError::ParseError,
        ToolFailure::ToolMissing => ThumbnailError::ExternalToolError,
        ToolFailure::NonZeroExit => ThumbnailError::ExternalToolError,
        ToolFailure::Timeout => ThumbnailError::ExternalToolError,
    }
}

/// What the caller is to do next for a preview. Each step but the last is
/// answered by handing its result to the function named with it.
#[derive(Debug, PartialEq, Eq)]
pub enum Step {
    /// Read the source file; its content goes to `after_read`.
    ReadSource,
    /// Run the media probe and work out the time to seek to; that time,
    /// or the failure, goes to `after_probe`.
    Probe(Command),
    /// Run the frame extractor; what it printed, or the failure, goes to
    /// `after_extraction`.
    Extract(Command),
    /// The preview is made, or cannot be.
    Done(Result<Vec<u8>, ThumbnailError>),
}

/// What a `Step` stands for.
pub enum StepView {
    ReadSource,
    Probe(CommandView),
    Extract(CommandView),
    Done(Result<Seq<u8>, ThumbnailError>),
}

impl View for Step {
    type V = StepView;

    open spec fn view(&self) -> StepView {
        match self {
            Step::ReadSource => StepView::ReadSource,
            Step::Probe(c) => StepView::Probe(c@),
            Step::Extract(c) => StepView::Extract(c@),
            Step::Done(Ok(png)) => StepView::Done(Ok(png@)),
            Step::Done(Err(e)) => StepView::Done(Err(*e)),
        }
    }
}

/// The first step towards the preview of the file at `path`: an image is
/// read, a video is probed, and nothing else has a preview.
pub open spec fn first_step(path: Seq<char>, kind: MimeKind) -> StepView {
    match kind {
        MimeKind::Image => StepView::ReadSource,
        MimeKind::Video => StepView::Probe(probe_of(path)),
        MimeKind::Other => StepView::Done(Err(ThumbnailError::UnsupportedKind)),
    }
}

/// The step that follows the probe: the frame at the time `seek` is
/// extracted, unless the probe failed.
pub open spec fn step_after_probe(path: Seq<char>, probed: Result<Seq<char>, ToolFailure>) -> StepView {
    match probed {
        Ok(seek) => StepView::Extract(extraction_of(path, seek)),
        Err(failure) => StepView::Done(Err(error_of(failure))),
    }
}

/// Begins the making of a preview of the file at `path`.
pub fn begin(path: &str, kind: MimeKind) -> (step: Step)
    ensures
        step@ == first_step(path@, kind),
{
    match kind {
        MimeKind::Image => Step::ReadSource,
        MimeKind::Video => Step::Probe(probe_command(path)),
        MimeKind::Other => Step::Done(Err(ThumbnailError::UnsupportedKind)),
    }
}

/// Goes on after the source file was read: `content` holds its bytes, or
/// nothing where it could not be read.
pub fn after_read(path: &str, content: Option<Vec<u8>>) -> (preview: Result<Vec<u8>, ThumbnailError>)
    ensures
        match content {
            Some(bytes) => is_outcome(
                preview,
                preview_of_picture(picture_in_file(path@, bytes@)),
            ),
            None => preview == Err::<Vec<u8>, ThumbnailError>(ThumbnailError::IoFailure),
        },
{
    match content {
        Some(bytes) => image_thumbnail(path, bytes.as_slice()),
        None => Err(ThumbnailError::IoFailure),
    }
}

/// Goes on after the media probe ran: `probed` holds the time to seek to,
/// written as the frame extractor reads it, or says how the probe failed.
pub fn after_probe(path: &str, probed: Result<String, ToolFailure>) -> (step: Step)
    ensures
        step@ == step_after_probe(
            path@,
            match probed {
                Ok(seek) => Ok(seek@),
                Err(failure) => Err(failure),
            },
        ),
{
    match probed {
        Ok(seek) => Step::Extract(extraction_command(path, seek.as_str())),
        Err(failure) => Step::Done(Err(tool_error(failure))),
    }
}

/// Goes on after the frame extractor ran: `extracted` holds the picture
/// that it printed, or says how it failed.
pub fn after_extraction(extracted: Result<Vec<u8>, ToolFailure>) -> (preview: Result<
    Vec<u8>,
    ThumbnailError,
>)
    ensures
        match extracted {
            Ok(frame) => is_outcome(preview, preview_of_picture(picture_in_frame(frame@))),
            Err(failure) => preview == Err::<Vec<u8>, ThumbnailError>(error_of(failure)),
        },
{
    match extracted {
        Ok(frame) => frame_thumbnail(frame.as_slice()),
        Err(failure) => Err(tool_error(failure)),
    }
}

} // verus!
