//! The decision rule of the consume-directory watcher: which created
//! files are enqueued for import. The event loop around it performs the
//! actual file-system watching and runs outside the library.

use vstd::prelude::*;
use crate::text::spec_extension;

verus! {

/// Watches a directory for newly created PDF files.
pub struct PDFWatcher {
    dir: String,
}

impl PDFWatcher {
    /// The mathematical view: the watched directory.
    pub closed spec fn view(&self) -> Seq<char> {
        self.dir@
    }

    pub fn new(dir: &str) -> (r: PDFWatcher)
        ensures
            r@ == dir@,
    {
        PDFWatcher { dir: dir.to_owned() }
    }

    /// The watched directory.
    pub fn dir(&self) -> (r: &str)
        ensures
            r@ == self@,
    {
        self.dir.as_str()
    }

    /// Whether a created file is picked up: exactly the files whose
    /// extension is `pdf`.
    pub fn match_file(file: &str) -> (r: bool)
        ensures
            r <==> spec_extension(file@) == Some("pdf"@),
    {
        match crate::text::extension(file) {
            Some(e) => {
                let pdf = String::from_str("pdf");
                let eq = e == pdf;
                proof {
                    assert(e@ == pdf@ ==> spec_extension(file@) == Some("pdf"@));
                }
                eq
            },
            None => false,
        }
    }
}

} // verus!
