//! Responses: what is sent back for a file, whole or in part, for a
//! directory listing, and for a path that cannot be served.

use crate::media::{guess_content_type, guessed_content_type};
use crate::range::{parse_range, parsed_range, RangeSpec};
use crate::text::{decimal, push_decimal};
use vstd::prelude::*;
use vstd::slice::{slice_subrange, slice_to_vec};
use vstd::string::*;

verus! {

/// The status of a response that carries the whole resource.
pub const STATUS_OK: u16 = 200;

/// The status of a response that carries a part of the resource.
pub const STATUS_PARTIAL_CONTENT: u16 = 206;

/// The status of the response for a path that does not exist.
pub const STATUS_NOT_FOUND: u16 = 404;

/// The status of the response for a path that cannot be served.
pub const STATUS_INTERNAL_SERVER_ERROR: u16 = 500;

/// An HTTP response, as far as this library decides it.
#[derive(Debug, PartialEq, Eq)]
pub struct Response {
    pub status: u16,
    /// The value of the `Content-Type` header, if one is sent.
    pub content_type: Option<String>,
    /// The value of the `Content-Range` header, if one is sent.
    pub content_range: Option<String>,
    pub body: Vec<u8>,
}

/// What a `Response` stands for.
pub struct ResponseView {
    pub status: u16,
    pub content_type: Option<Seq<char>>,
    pub content_range: Option<Seq<char>>,
    pub body: Seq<u8>,
}

impl View for Response {
    type V = ResponseView;

    open spec fn view(&self) -> ResponseView {
        ResponseView {
            status: self.status,
            content_type: match self.content_type {
                Some(t) => Some(t@),
                None => None,
            },
            content_range: match self.content_range {
                Some(r) => Some(r@),
                None => None,
            },
            body: self.body@,
        }
    }
}

/// What a path leads to.
#[derive(Clone, Copy, Debug, PartialEq, Eq, Structural)]
pub enum Route {
    /// Nothing is there.
    NotFound,
    /// A regular file.
    File,
    /// A directory.
    Directory,
    /// Something that is neither.
    Unknown,
}

/// Where a request goes, given what the file system says of its path.
pub open spec fn route_of(exists: bool, is_file: bool, is_dir: bool) -> Route {
    if !exists {
        Route::NotFound
    } else if is_file {
        Route::File
    } else if is_dir {
        Route::Directory
    } else {
        Route::Unknown
    }
}

/// Decides where a request goes, given what the file system says of its
/// path.
pub fn route(exists: bool, is_file: bool, is_dir: bool) -> (to: Route)
    ensures
        to == route_of(exists, is_file, is_dir),
{
    if !exists {
        Route::NotFound
    } else if is_file {
        Route::File
    } else if is_dir {
        Route::Directory
    } else {
        Route::Unknown
    }
}

/// The response for a path that does not exist.
pub fn not_found() -> (response: Response)
    ensures
        response@ == (ResponseView {
            status: STATUS_NOT_FOUND,
            content_type: None,
            content_range: None,
            body: "File or directory not found".spec_bytes(),
        }),
{
    Response {
        status: STATUS_NOT_FOUND,
        content_type: None,
        content_range: None,
        body: "File or directory not found".as_bytes_vec(),
    }
}

/// The response for a path that is neither a file nor a directory.
pub fn unknown_file_type() -> (response: Response)
    ensures
        response@ == (ResponseView {
            status: STATUS_INTERNAL_SERVER_ERROR,
            content_type: None,
            content_range: None,
            body: "Unknown file type".spec_bytes(),
        }),
{
    Response {
        status: STATUS_INTERNAL_SERVER_ERROR,
        content_type: None,
        content_range: None,
        body: "Unknown file type".as_bytes_vec(),
    }
}

/// The response that carries a directory listing.
pub fn listing_response(html: String) -> (response: Response)
    ensures
        response@ == (ResponseView {
            status: STATUS_OK,
            content_type: Some("text/html"@),
            content_range: None,
            body: vstd::utf8::encode_utf8(html@),
        }),
{
    Response {
        status: STATUS_OK,
        content_type: Some("text/html".to_owned()),
        content_range: None,
        body: html.as_str().as_bytes_vec(),
    }
}

/// The value of the `Content-Range` header for the interval `range` of a
/// file of `total` bytes.
pub open spec fn content_range_text(range: RangeSpec, total: u64) -> Seq<char> {
    "bytes "@ + decimal(range.start as nat) + "-"@ + decimal(range.end as nat) + "/"@ + decimal(
        total as nat,
    )
}

/// Writes the value of the `Content-Range` header for the interval `range`
/// of a file of `total` bytes.
pub fn content_range_value(range: RangeSpec, total: u64) -> (value: String)
    ensures
        value@ == content_range_text(range, total),
{
    let mut value = String::new();
    value.append("bytes ");
    push_decimal(&mut value, range.start);
    value.append("-");
    push_decimal(&mut value, range.end);
    value.append("/");
    push_decimal(&mut value, total);
    assert(value@ =~= content_range_text(range, total));
    value
}

/// The part of a file that a response carries.
#[derive(Clone, Copy, Debug, PartialEq, Eq, Structural)]
pub struct ByteWindow {
    /// Where the part begins.
    pub offset: u64,
    /// How many bytes it holds.
    pub length: u64,
}

/// The bytes to read for a response: the whole file, or the interval asked
/// for.
pub open spec fn window_of(range: Option<RangeSpec>, file_size: u64) -> ByteWindow {
    match range {
        Some(r) => ByteWindow { offset: r.start, length: (r.end - r.start + 1) as u64 },
        None => ByteWindow { offset: 0, length: file_size },
    }
}

/// The response that serves a file of `file_size` bytes with the given
/// content type, given the bytes of its window as `body`: with a range it
/// is partial and says which bytes it carries, without one it is whole.
pub open spec fn file_response(
    content_type: Seq<char>,
    range: Option<RangeSpec>,
    file_size: u64,
    body: Seq<u8>,
) -> ResponseView {
    match range {
        Some(r) => ResponseView {
            status: STATUS_PARTIAL_CONTENT,
            content_type: Some(content_type),
            content_range: Some(content_range_text(r, file_size)),
            body,
        },
        None => ResponseView {
            status: STATUS_OK,
            content_type: Some(content_type),
            content_range: None,
            body,
        },
    }
}

/// The bytes of `content` that lie in the window.
pub open spec fn window_content(content: Seq<u8>, window: ByteWindow) -> Seq<u8> {
    content.subrange(window.offset as int, window.offset + window.length)
}

/// Says which bytes of a file of `file_size` bytes to read for a response.
pub fn read_window(range: Option<RangeSpec>, file_size: u64) -> (window: ByteWindow)
    requires
        range matches Some(r) ==> r.fits(file_size),
    ensures
        window == window_of(range, file_size),
        window.offset + window.length <= file_size,
        range matches Some(r) ==> window.length == r.span(),
{
    match range {
        Some(r) => ByteWindow { offset: r.start, length: r.end - r.start + 1 },
        None => ByteWindow { offset: 0, length: file_size },
    }
}

/// Puts together the response for a file of `file_size` bytes that is sent
/// with the given content type, from the bytes that were read from its
/// window.
pub fn typed_response(
    content_type: String,
    range: Option<RangeSpec>,
    file_size: u64,
    body: Vec<u8>,
) -> (response: Response)
    requires
        range matches Some(r) ==> r.fits(file_size),
        body.len() == window_of(range, file_size).length,
    ensures
        response@ == file_response(content_type@, range, file_size, body@),
{
    match range {
        Some(r) => Response {
            status: STATUS_PARTIAL_CONTENT,
            content_type: Some(content_type),
            content_range: Some(content_range_value(r, file_size)),
            body,
        },
        None => Response {
            status: STATUS_OK,
            content_type: Some(content_type),
            content_range: None,
            body,
        },
    }
}

/// Puts together the response for the file at `path`, of `file_size` bytes,
/// from the bytes that were read from its window. The content type is the
/// one that goes with the path's extension.
pub fn assemble(path: &str, range: Option<RangeSpec>, file_size: u64, body: Vec<u8>) -> (response:
    Response)
    requires
        range matches Some(r) ==> r.fits(file_size),
        body.len() == window_of(range, file_size).length,
    ensures
        response@ == file_response(guessed_content_type(path@), range, file_size, body@),
{
    typed_response(guess_content_type(path), range, file_size, body)
}

/// The response for the file at `path` whose content is in memory: the
/// whole content, or exactly the bytes of `range`.
pub fn respond(path: &str, content: &[u8], range: Option<RangeSpec>) -> (response: Response)
    requires
        range matches Some(r) ==> r.start <= r.end < content.len(),
    ensures
        response@ == file_response(
            guessed_content_type(path@),
            range,
            content.len() as u64,
            window_content(content@, window_of(range, content.len() as u64)),
        ),
        range is None ==> response.status == STATUS_OK && response.body@ == content@,
        range matches Some(r) ==> response.status == STATUS_PARTIAL_CONTENT && response.body@.len()
            == r.end - r.start + 1 && response.body@ == content@.subrange(
            r.start as int,
            r.end + 1,
        ),
{
    let file_size: u64 = content.len() as u64;
    let window = read_window(range, file_size);
    let from: usize = window.offset as usize;
    let to: usize = from + window.length as usize;
    let body = slice_to_vec(slice_subrange(content, from, to));
    assert(content@.subrange(0, content.len() as int) =~= content@);
    assemble(path, range, file_size, body)
}

/// The response to a request for the file at `path` whose content is in
/// memory, given the value of the request's `Range` header, if it has one.
/// A value that asks for no interval within the file is answered with the
/// whole file.
pub fn serve(path: &str, content: &[u8], range_header: Option<&str>) -> (response: Response)
    ensures
        response@ == file_response(
            guessed_content_type(path@),
            requested_range(range_header, content.len() as u64),
            content.len() as u64,
            window_content(
                content@,
                window_of(
                    requested_range(range_header, content.len() as u64),
                    content.len() as u64,
                ),
            ),
        ),
{
    let range = match range_header {
        Some(value) => parse_range(value, content.len() as u64),
        None => None,
    };
    respond(path, content, range)
}

/// The interval that a request asks for, if it carries a `Range` header
/// that names one within the file.
pub open spec fn requested_range(range_header: Option<&str>, file_size: u64) -> Option<RangeSpec> {
    match range_header {
        Some(value) => parsed_range(value@, file_size),
        None => None,
    }
}

} // verus!
