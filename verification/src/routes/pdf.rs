//! `POST /v1/pdf`: size limit, file name, storage key and inline answer.
use vstd::prelude::*;
use crate::error::AppError;
use crate::models::dto::{sanitize_filename, sanitized_filename, PdfInlineResponse, PdfRequest, PdfUrlResponse};
use crate::services::codec::{base64_encode, base64_standard_encode};
use crate::text::{push_str, string_from_chars};

verus! {

/// Refuses HTML over the configured size: `actual` bytes against a limit of `max`.
pub fn check_html_size(actual: usize, max: usize) -> (r: Result<(), AppError>)
    ensures
        actual <= max ==> r is Ok,
        actual > max ==> r == Err::<(), AppError>(AppError::PayloadTooLarge { max, actual }),
{
    if actual > max {
        return Err(AppError::html_too_large(max, actual));
    }
    Ok(())
}

/// The file name a request's PDF is given: its sanitized `filename`, or `document.pdf`.
pub fn pdf_filename(req: &PdfRequest) -> (name: String)
    ensures
        name@ == sanitized_filename(
            match req.filename {
                Some(f) => f@,
                None => Seq::<char>::empty(),
            },
        ),
{
    match &req.filename {
        Some(f) => sanitize_filename(f.as_str()),
        None => {
            proof {
                reveal_strlit("");
            }
            sanitize_filename("")
        },
    }
}

/// Where a generated PDF is stored: `pdfs/{folder}/{filename}`.
pub fn pdf_storage_key(folder: &str, filename: &str) -> (key: String)
    ensures
        key@ == "pdfs/"@ + folder@ + "/"@ + filename@,
{
    let mut out: Vec<char> = Vec::new();
    push_str(&mut out, "pdfs/");
    push_str(&mut out, folder);
    push_str(&mut out, "/");
    push_str(&mut out, filename);
    string_from_chars(&out)
}

/// The inline answer: the file name and the PDF in base64.
pub fn inline_pdf_response(filename: String, pdf: &[u8]) -> (r: PdfInlineResponse)
    requires
        (pdf@.len() + 2) / 3 * 4 <= usize::MAX,
    ensures
        r.filename == filename,
        r.pdf@ == base64_standard_encode(pdf@),
{
    let b64 = base64_encode(pdf);
    PdfInlineResponse { filename, pdf: b64 }
}

/// The answer when storage is on: the file name and its signed download link.
pub fn url_pdf_response(filename: String, download_url: String) -> (r: PdfUrlResponse)
    ensures
        r.filename == filename,
        r.download_url == download_url,
{
    PdfUrlResponse { filename, download_url }
}

} // verus!
