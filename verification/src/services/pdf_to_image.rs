//! PDF pages as images: counting a document's pages, and turning a rasterized page
//! into the requested format (through `hayro` and `image`).
use vstd::prelude::*;
use crate::models::dto::ImageFormat;
use crate::decimal::{dec_string, push_decimal};
use crate::text::{push_str, string_from_chars};

verus! {

/// One page rendered to an image.
#[derive(Debug)]
pub struct RenderedImage {
    pub page: usize,
    pub width: u32,
    pub height: u32,
    pub bytes: Vec<u8>,
}

/// What `hayro::hayro_syntax::Pdf::new` makes of a file: its number of pages, or the
/// `Debug` text of its load error.
pub uninterp spec fn pdf_page_count_of(pdf: Seq<u8>) -> Result<usize, Seq<char>>;

/// Loads a PDF and counts its pages (`Pdf::new`, then `pages().len()`).
/// Trusted: the outcome depends on the bytes alone.
#[verifier::external_body]
fn load_page_count(pdf: &[u8]) -> (r: Result<usize, String>)
    ensures
        match (r, pdf_page_count_of(pdf@)) {
            (Ok(a), Ok(b)) => a == b,
            (Err(e), Err(f)) => e@ == f,
            _ => false,
        },
{
    match hayro::hayro_syntax::Pdf::new(pdf.to_vec()) {
        Ok(doc) => Ok(doc.pages().len()),
        Err(e) => Err(format!("{e:?}")),
    }
}

/// The number of pages of a PDF file.
pub fn pdf_page_count(pdf: &[u8]) -> (r: Result<usize, String>)
    ensures
        match (r, pdf_page_count_of(pdf@)) {
            (Ok(a), Ok(b)) => a == b,
            (Err(e), Err(f)) => e@ == "failed to parse PDF: "@ + f,
            _ => false,
        },
{
    match load_page_count(pdf) {
        Ok(n) => Ok(n),
        Err(e) => {
            let mut m: Vec<char> = Vec::new();
            push_str(&mut m, "failed to parse PDF: ");
            push_str(&mut m, e.as_str());
            Err(string_from_chars(&m))
        },
    }
}

/// The stage of an image conversion that failed.
#[derive(Clone, Copy, Debug, PartialEq, Eq, Structural)]
pub enum ImageStep {
    Decode,
    Encode,
}

/// What `image::load_from_memory` makes of encoded image bytes: the width and height, or
/// the text of the error.
pub uninterp spec fn image_size_of(bytes: Seq<u8>) -> Result<(u32, u32), Seq<char>>;

/// The image decoded from `png`, with its width and height, re-encoded as JPEG; or the
/// failing stage and the text of its error.
pub uninterp spec fn jpeg_of(png: Seq<u8>) -> Result<(u32, u32, Seq<u8>), (ImageStep, Seq<char>)>;

/// Decodes an image and reads its size (`image::load_from_memory`, `width`, `height`),
/// the error as its `Display` text.
/// Trusted: the outcome depends on the bytes alone.
#[verifier::external_body]
fn decode_image_size(bytes: &[u8]) -> (r: Result<(u32, u32), String>)
    ensures
        match (r, image_size_of(bytes@)) {
            (Ok(a), Ok(b)) => a == b,
            (Err(e), Err(f)) => e@ == f,
            _ => false,
        },
{
    match image::load_from_memory(bytes) {
        Ok(img) => Ok((img.width(), img.height())),
        Err(e) => Err(e.to_string()),
    }
}

/// Decodes an image and writes it as JPEG (`image::load_from_memory`, then
/// `DynamicImage::write_to` with `ImageFormat::Jpeg`), each error as its `Display` text.
/// Trusted: the outcome depends on the bytes alone.
#[verifier::external_body]
fn reencode_as_jpeg(png: &[u8]) -> (r: Result<(u32, u32, Vec<u8>), (ImageStep, String)>)
    ensures
        match (r, jpeg_of(png@)) {
            (Ok((w, h, v)), Ok((x, y, u))) => w == x && h == y && v@ == u,
            (Err((s, e)), Err((t, f))) => s == t && e@ == f,
            _ => false,
        },
{
    let img = match image::load_from_memory(png) {
        Ok(img) => img,
        Err(e) => return Err((ImageStep::Decode, e.to_string())),
    };
    let mut buf = std::io::Cursor::new(Vec::new());
    match img.write_to(&mut buf, image::ImageFormat::Jpeg) {
        Ok(()) => Ok((img.width(), img.height(), buf.into_inner())),
        Err(e) => Err((ImageStep::Encode, e.to_string())),
    }
}

/// The message of a failed image step.
pub open spec fn image_step_message(step: ImageStep, text: Seq<char>) -> Seq<char> {
    match step {
        ImageStep::Decode => "decode png: "@ + text,
        ImageStep::Encode => "encode jpeg: "@ + text,
    }
}

fn step_message(step: ImageStep, text: &str) -> (m: String)
    ensures
        m@ == image_step_message(step, text@),
{
    let mut m: Vec<char> = Vec::new();
    match step {
        ImageStep::Decode => push_str(&mut m, "decode png: "),
        ImageStep::Encode => push_str(&mut m, "encode jpeg: "),
    }
    push_str(&mut m, text);
    string_from_chars(&m)
}

/// Turns a page rasterized to PNG into the requested format: PNG bytes are kept as they
/// are, JPEG is re-encoded; the size is read from the decoded image.
pub fn finish_page(page: usize, png: Vec<u8>, format: ImageFormat) -> (r: Result<RenderedImage, String>)
    ensures
        format == ImageFormat::Png ==> match (r, image_size_of(png@)) {
            (Ok(img), Ok((w, h))) => img.page == page && img.width == w && img.height == h
                && img.bytes@ == png@,
            (Err(e), Err(f)) => e@ == image_step_message(ImageStep::Decode, f),
            _ => false,
        },
        format == ImageFormat::Jpeg ==> match (r, jpeg_of(png@)) {
            (Ok(img), Ok((w, h, b))) => img.page == page && img.width == w && img.height == h
                && img.bytes@ == b,
            (Err(e), Err((step, f))) => e@ == image_step_message(step, f),
            _ => false,
        },
{
    match format {
        ImageFormat::Png => match decode_image_size(png.as_slice()) {
            Ok((width, height)) => Ok(RenderedImage { page, width, height, bytes: png }),
            Err(e) => Err(step_message(ImageStep::Decode, e.as_str())),
        },
        ImageFormat::Jpeg => match reencode_as_jpeg(png.as_slice()) {
            Ok((width, height, bytes)) => Ok(RenderedImage { page, width, height, bytes }),
            Err((step, e)) => Err(step_message(step, e.as_str())),
        },
    }
}

/// The message for a requested page outside a document's `total` pages.
pub open spec fn page_range_message(p: usize, total: usize) -> Seq<char> {
    "page "@ + dec_string(p as nat) + " out of range 1..="@ + dec_string(total as nat)
}

/// The index among a document's `total` pages of the 1-based page number `p`, or the
/// message that refuses it.
pub fn page_slot(p: usize, total: usize) -> (r: Result<usize, String>)
    ensures
        r is Ok <==> 1 <= p <= total,
        r matches Ok(i) ==> i == p - 1,
        r matches Err(e) ==> e@ == page_range_message(p, total),
{
    if 1 <= p && p <= total {
        Ok(p - 1)
    } else {
        let mut m: Vec<char> = Vec::new();
        push_str(&mut m, "page ");
        push_decimal(&mut m, p as u64);
        push_str(&mut m, " out of range 1..=");
        push_decimal(&mut m, total as u64);
        Err(string_from_chars(&m))
    }
}

} // verus!
