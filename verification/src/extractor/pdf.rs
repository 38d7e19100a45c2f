//! Text out of a PDF, then the same date and task extraction as pasted text. Runs
//! locally; the PDF never leaves the machine.
use crate::extractor::text::{extract_from_text, read_with, result_says, spec_extraction};
use crate::extractor::ExtractionResult;
use crate::text::{chars_of, trim, trim_bounds};
use crate::time::LocalClock;
use vstd::prelude::*;
use vstd::string::StringExecFns;

verus! {

/// PDFs larger than this are refused instead of stalling the app.
pub const MAX_PDF_BYTES: usize = 25 * 1024 * 1024;

/// Why no text came out of a PDF.
#[derive(Debug)]
pub enum PdfError {
    TooLarge,
    Unreadable(String),
    NoText,
}

impl PdfError {
    /// The error as a sentence.
    pub fn message(&self) -> (s: String)
        ensures
            s@ == match self {
                PdfError::TooLarge => "the PDF is larger than 25 MB"@,
                PdfError::Unreadable(m) => "the PDF could not be read: "@ + m@,
                PdfError::NoText => "the PDF contains no text; scanned pages would need OCR"@,
            },
    {
        match self {
            PdfError::TooLarge => "the PDF is larger than 25 MB".to_owned(),
            PdfError::Unreadable(m) => {
                let mut s = "the PDF could not be read: ".to_owned();
                s.append(m.as_str());
                s
            },
            PdfError::NoText => "the PDF contains no text; scanned pages would need OCR".to_owned(),
        }
    }
}

/// The key the interface translates for each error.
pub fn pdf_message(error: &PdfError) -> (s: String)
    ensures
        s@ == match error {
            PdfError::TooLarge => "pdfTooLarge"@,
            PdfError::Unreadable(_) => "pdfUnreadable"@,
            PdfError::NoText => "pdfNoText"@,
        },
{
    match error {
        PdfError::TooLarge => "pdfTooLarge".to_owned(),
        PdfError::Unreadable(_) => "pdfUnreadable".to_owned(),
        PdfError::NoText => "pdfNoText".to_owned(),
    }
}

/// Refuses a file over 25 MB before it is read at all.
pub fn check_pdf_size(bytes: &[u8]) -> (r: Result<(), PdfError>)
    ensures
        bytes@.len() <= MAX_PDF_BYTES <==> r is Ok,
        bytes@.len() > MAX_PDF_BYTES ==> r matches Err(PdfError::TooLarge),
{
    if bytes.len() > MAX_PDF_BYTES {
        Err(PdfError::TooLarge)
    } else {
        Ok(())
    }
}

/// The text of a PDF, from what the PDF reader gave for the file: its text, or the
/// message of its error. An unreadable file and one that holds only white space
/// (scanned pages) are refused.
///
/// The reader (`pdf_extract::extract_text_from_mem`) is called by the caller, after
/// `check_pdf_size`: it can panic on a malformed file, which no contract here could
/// rule out, so its outcome comes in as an argument.
pub fn pdf_text(extracted: Result<String, String>) -> (r: Result<String, PdfError>)
    ensures
        match extracted {
            Err(m) => r matches Err(PdfError::Unreadable(s)) && s@ == m@,
            Ok(t) => if trim(t@).len() == 0 {
                r matches Err(PdfError::NoText)
            } else {
                r matches Ok(s) && s@ == t@
            },
        },
{
    match extracted {
        Err(m) => Err(PdfError::Unreadable(m)),
        Ok(text) => {
            let v = chars_of(text.as_str());
            let (lo, hi) = trim_bounds(v.as_slice(), 0, v.len());
            assert(v@.subrange(0, v@.len() as int) =~= v@);
            if lo == hi {
                Err(PdfError::NoText)
            } else {
                Ok(text)
            }
        },
    }
}

/// The events and tasks in a PDF, from what the PDF reader gave for it, read as
/// pasted text is; its errors as `pdf_text` gives them.
pub fn extract_from_pdf(extracted: Result<String, String>) -> (r: Result<ExtractionResult, PdfError>)
    ensures
        match extracted {
            Err(m) => r matches Err(PdfError::Unreadable(s)) && s@ == m@,
            Ok(t) => if trim(t@).len() == 0 {
                r matches Err(PdfError::NoText)
            } else {
                r matches Ok(found) && exists|clock: LocalClock, zone: Seq<(i64, Option<i64>)>|
                    {
                        &&& read_with(t@, clock, zone)
                        &&& result_says(found, t@, spec_extraction(t@, clock, zone))
                    }
            },
        },
{
    match pdf_text(extracted) {
        Ok(text) => Ok(extract_from_text(text.as_str())),
        Err(e) => Err(e),
    }
}

} // verus!
