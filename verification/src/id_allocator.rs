//! The monotonic document-id generator, backed by a single integer that
//! callers persist as a UTF-8 decimal file.

use vstd::prelude::*;
use crate::DocId;
use crate::text::{spec_parse_u64, spec_u64_string, parse_u64, u64_to_string};

verus! {

/// An error of the id allocator: the persisted integer is corrupt.
#[derive(Debug, Clone)]
pub enum IdAllocatorError {
    ParseError,
}

/// A monotonic `u64` generator. The value is the last id handed out;
/// callers persist [`IdAllocator::file_content`] after each allocation
/// so ids never decrease across restarts.
pub struct IdAllocator {
    curr: u64,
}

impl IdAllocator {
    /// The mathematical view: the last allocated id.
    pub closed spec fn view(&self) -> u64 {
        self.curr
    }

    /// Restores the allocator from the persisted file content; absence
    /// of the file counts as zero. Fails with `ParseError` exactly when
    /// the content is not a decimal integer.
    pub fn from_content(content: Option<&str>) -> (r: Result<IdAllocator, IdAllocatorError>)
        ensures
            content is None ==> (r matches Ok(a) && a@ == 0),
            content matches Some(s) ==> match spec_parse_u64(s@) {
                Some(v) => (r matches Ok(a) && a@ == v),
                None => (r matches Err(e) && e is ParseError),
            },
    {
        match content {
            None => Ok(IdAllocator { curr: 0 }),
            Some(s) => match parse_u64(s) {
                Some(v) => Ok(IdAllocator { curr: v }),
                None => Err(IdAllocatorError::ParseError),
            },
        }
    }

    /// The last id handed out.
    pub fn current(&self) -> (r: u64)
        ensures
            r == self@,
    {
        self.curr
    }

    /// Allocates the next id: one more than the last.
    pub fn next(&mut self) -> (r: DocId)
        requires
            old(self)@ < u64::MAX,
        ensures
            final(self)@ == old(self)@ + 1,
            r == final(self)@,
    {
        self.curr = self.curr + 1;
        self.curr
    }

    /// What the id file must hold for this allocator state.
    pub fn file_content(&self) -> (r: String)
        ensures
            r@ == spec_u64_string(self@ as int),
    {
        u64_to_string(self.curr)
    }
}

} // verus!
