//! The text-extraction state machine: native PDF extraction first, OCR
//! fallback when that yields nothing, and a final emptiness check on the
//! re-extracted text.
//!
//! The machine only decides; the caller runs each returned command (the
//! PDF text adapter, the `ocrmypdf` rewrite, the `convert` thumbnail
//! renderer) and feeds its outcome back in.

use vstd::prelude::*;
use crate::text::{spec_extension, spec_lower, spec_join_plus};

verus! {

/// An error during OCR: the adapter could not be run or its output could
/// not be read. The payload carries the adapter's own message.
#[derive(Debug, Clone)]
pub enum OCRError {
    TesseractError(String),
    IOError(String),
    UTF8Error,
    ImageError(String),
    LanguageError(String),
}

/// An error during native text extraction.
#[derive(Debug, Clone)]
pub enum ExtractError {
    IOError(String),
    UTF8Error,
}

/// A command the caller must run to advance an extraction.
pub enum ExtractCmd {
    /// Run the native PDF text adapter on `file`.
    NativeExtract { file: String },
    /// Rewrite `file` in place through `ocrmypdf` with the given
    /// argument list (the program name first).
    OcrRewrite { args: Vec<String> },
}

/// Where an extraction stands.
pub enum ExtractPhase {
    /// Waiting for the native extraction's text.
    Native,
    /// Waiting for the in-place OCR rewrite to finish.
    Rewrite,
    /// Waiting for the post-OCR re-extraction's text.
    PostOcr,
}

/// One step of the extraction machine: either a command to run together
/// with the phase to resume at, or the finished body.
pub enum ExtractStep {
    Run { phase: ExtractPhase, cmd: ExtractCmd },
    Finished { body: Option<String> },
}

/// The lowercased extension of a path.
pub open spec fn spec_ext_lower(p: Seq<char>) -> Option<Seq<char>> {
    match spec_extension(p) {
        Some(e) => Some(spec_lower(e)),
        None => None,
    }
}

/// The `ocrmypdf` invocation for `file`: deskew, clean, force OCR, with
/// the configured languages joined by `+`, rewriting the file in place.
pub open spec fn spec_ocr_args(langs: Seq<Seq<char>>, file: Seq<char>) -> Seq<Seq<char>> {
    seq![
        "ocrmypdf"@,
        "--deskew"@,
        "--clean"@,
        "--force-ocr"@,
        "-l"@,
        spec_join_plus(langs),
        file,
        file,
    ]
}

/// The `convert` invocation that renders page one of `file` as a
/// thumbnail into `thumbnail_file`.
pub open spec fn spec_thumbnail_args(file: Seq<char>, thumbnail_file: Seq<char>) -> Seq<Seq<char>> {
    seq![
        "convert"@,
        "-colorspace"@,
        "RGB"@,
        file + "[0]"@,
        "-trim"@,
        "+repage"@,
        "-background"@,
        "white"@,
        "-flatten"@,
        thumbnail_file,
    ]
}

/// Extracts text (and other content) from files.
pub struct ContentExtractor {
    tesseract_languages: Vec<String>,
}

impl ContentExtractor {
    /// The mathematical view: the configured tesseract languages.
    pub closed spec fn view(&self) -> Seq<Seq<char>> {
        self.tesseract_languages.deep_view()
    }

    /// A new extractor with the configured tesseract languages.
    pub fn new(tesseract_languages: &Vec<String>) -> (r: ContentExtractor)
        ensures
            r@ == tesseract_languages.deep_view(),
    {
        ContentExtractor { tesseract_languages: crate::document::clone_string_vec(
            tesseract_languages,
        ) }
    }

    /// The lowercased extension of a path, the key the machine
    /// dispatches on.
    pub fn extract_extension(file: &str) -> (r: Option<String>)
        ensures
            r matches Some(e) ==> spec_ext_lower(file@) == Some(e@),
            r is None ==> spec_ext_lower(file@) is None,
    {
        match crate::text::extension(file) {
            Some(e) => Some(crate::text::to_ascii_lowercase(e.as_str())),
            None => None,
        }
    }

    /// Whether a lowercased extension is the one the machine supports.
    fn is_pdf(ext: &String) -> (r: bool)
        ensures
            r <==> ext@ == "pdf"@,
    {
        let pdf = String::from_str("pdf");
        let r = *ext == pdf;
        r
    }

    /// Starts an extraction: a PDF goes to the native adapter; any other
    /// file finishes at once with no body.
    pub fn extract_body(&self, file: &str) -> (r: ExtractStep)
        ensures
            spec_ext_lower(file@) == Some("pdf"@) ==> (r matches ExtractStep::Run {
                phase: ExtractPhase::Native,
                cmd,
            } && (cmd matches ExtractCmd::NativeExtract { file: f } && f@ == file@)),
            spec_ext_lower(file@) != Some("pdf"@) ==> (r matches ExtractStep::Finished {
                body,
            } && body is None),
    {
        match Self::extract_extension(file) {
            Some(ext) => {
                if Self::is_pdf(&ext) {
                    ExtractStep::Run {
                        phase: ExtractPhase::Native,
                        cmd: ExtractCmd::NativeExtract { file: file.to_owned() },
                    }
                } else {
                    ExtractStep::Finished { body: None }
                }
            },
            None => ExtractStep::Finished { body: None },
        }
    }

    /// Starts a forced OCR pass: a PDF goes straight to the `ocrmypdf`
    /// rewrite; any other file finishes with no body.
    pub fn ocr(&self, file: &str) -> (r: ExtractStep)
        ensures
            spec_ext_lower(file@) == Some("pdf"@) ==> (r matches ExtractStep::Run {
                phase: ExtractPhase::Rewrite,
                cmd,
            } && (cmd matches ExtractCmd::OcrRewrite { args } && args.deep_view() == spec_ocr_args(
                self@,
                file@,
            ))),
            spec_ext_lower(file@) != Some("pdf"@) ==> (r matches ExtractStep::Finished {
                body,
            } && body is None),
    {
        match Self::extract_extension(file) {
            Some(ext) => {
                if Self::is_pdf(&ext) {
                    ExtractStep::Run {
                        phase: ExtractPhase::Rewrite,
                        cmd: ExtractCmd::OcrRewrite { args: self.ocr_args(file) },
                    }
                } else {
                    ExtractStep::Finished { body: None }
                }
            },
            None => ExtractStep::Finished { body: None },
        }
    }

    /// The native adapter returned: non-empty text finishes the
    /// extraction; empty or no text falls back to OCR.
    pub fn continue_native(&self, file: &str, text: Option<String>) -> (r: ExtractStep)
        ensures
            (match text {
                Some(t) => t@.len() > 0,
                None => false,
            }) ==> (r matches ExtractStep::Finished { body } && body == text),
            !(match text {
                Some(t) => t@.len() > 0,
                None => false,
            }) ==> (if spec_ext_lower(file@) == Some("pdf"@) {
                r matches ExtractStep::Run { phase: ExtractPhase::Rewrite, cmd } && (
                cmd matches ExtractCmd::OcrRewrite { args } && args.deep_view() == spec_ocr_args(
                    self@,
                    file@,
                ))
            } else {
                r matches ExtractStep::Finished { body } && body is None
            }),
    {
        let non_empty = match &text {
            Some(t) => t.as_str().unicode_len() > 0,
            None => false,
        };
        if non_empty {
            ExtractStep::Finished { body: text }
        } else {
            self.ocr(file)
        }
    }

    /// The `ocrmypdf` rewrite returned: on success the file is
    /// re-extracted; on failure the extraction finishes with no body.
    pub fn continue_rewrite(&self, file: &str, rewrite_ok: bool) -> (r: ExtractStep)
        ensures
            rewrite_ok ==> (r matches ExtractStep::Run { phase: ExtractPhase::PostOcr, cmd } && (
            cmd matches ExtractCmd::NativeExtract { file: f } && f@ == file@)),
            !rewrite_ok ==> (r matches ExtractStep::Finished { body } && body is None),
    {
        if rewrite_ok {
            ExtractStep::Run {
                phase: ExtractPhase::PostOcr,
                cmd: ExtractCmd::NativeExtract { file: file.to_owned() },
            }
        } else {
            ExtractStep::Finished { body: None }
        }
    }

    /// The post-OCR re-extraction returned: still-empty text means the
    /// OCR attempt yielded nothing.
    pub fn continue_post_ocr(&self, text: Option<String>) -> (r: Option<String>)
        ensures
            (match text {
                Some(t) => t@.len() > 0,
                None => false,
            }) ==> r == text,
            !(match text {
                Some(t) => t@.len() > 0,
                None => false,
            }) ==> r is None,
    {
        match text {
            Some(t) => {
                if t.as_str().unicode_len() > 0 {
                    Some(t)
                } else {
                    None
                }
            },
            None => None,
        }
    }

    /// The `ocrmypdf` argument list for `file`.
    fn ocr_args(&self, file: &str) -> (r: Vec<String>)
        ensures
            r.deep_view() == spec_ocr_args(self@, file@),
    {
        let mut args: Vec<String> = Vec::new();
        args.push(String::from_str("ocrmypdf"));
        args.push(String::from_str("--deskew"));
        args.push(String::from_str("--clean"));
        args.push(String::from_str("--force-ocr"));
        args.push(String::from_str("-l"));
        args.push(crate::text::join_plus(&self.tesseract_languages));
        args.push(file.to_owned());
        args.push(file.to_owned());
        assert(args.deep_view() =~= spec_ocr_args(self@, file@));
        args
    }

    /// The `convert` argument list that renders a JPEG thumbnail of page
    /// one of `file` into `thumbnail_file`. The caller runs it;
    /// rendering is best-effort and its failure is not the library's
    /// concern.
    pub fn render_thumbnail(file: &str, thumbnail_file: &str) -> (r: Vec<String>)
        ensures
            r.deep_view() == spec_thumbnail_args(file@, thumbnail_file@),
    {
        let mut args: Vec<String> = Vec::new();
        args.push(String::from_str("convert"));
        args.push(String::from_str("-colorspace"));
        args.push(String::from_str("RGB"));
        args.push(file.to_owned().concat("[0]"));
        args.push(String::from_str("-trim"));
        args.push(String::from_str("+repage"));
        args.push(String::from_str("-background"));
        args.push(String::from_str("white"));
        args.push(String::from_str("-flatten"));
        args.push(thumbnail_file.to_owned());
        assert(args.deep_view() =~= spec_thumbnail_args(file@, thumbnail_file@));
        args
    }
}

} // verus!
