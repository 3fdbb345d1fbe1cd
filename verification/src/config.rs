//! The enumerated configuration options of the engine.

use vstd::prelude::*;

verus! {

/// All available Shreddr configuration values.
#[derive(Debug, Clone)]
pub struct ShreddrConfig {
    /// The storage and config directory.
    pub data_dir: String,
    /// The directory from which PDF files are consumed.
    pub consume_dir: String,
    /// Whether to start the HTTP server.
    pub server: bool,
    /// Languages to use with tesseract, in priority order (ISO 639).
    /// An empty list is a startup error.
    pub tesseract_languages: Vec<String>,
    /// Upload size cap in bytes.
    pub max_upload_size: u64,
    pub extract_extended_metadata: bool,
}

impl core::default::Default for ShreddrConfig {
    /// The defaults: empty directories, no server, no languages,
    /// a 20 MiB upload cap, extended extraction on.
    fn default() -> (r: ShreddrConfig)
        ensures
            r.data_dir@.len() == 0,
            r.consume_dir@.len() == 0,
            !r.server,
            r.tesseract_languages@.len() == 0,
            r.max_upload_size == 20971520,
            r.extract_extended_metadata,
    {
        ShreddrConfig {
            data_dir: String::new(),
            consume_dir: String::new(),
            server: false,
            tesseract_languages: Vec::new(),
            max_upload_size: 20 * 1024 * 1024,
            extract_extended_metadata: true,
        }
    }
}

impl ShreddrConfig {
    /// Whether the configuration can start the engine: at least one
    /// tesseract language must be configured.
    pub fn is_startable(&self) -> (r: bool)
        ensures
            r <==> self.tesseract_languages@.len() > 0,
    {
        self.tesseract_languages.len() > 0
    }
}

} // verus!
