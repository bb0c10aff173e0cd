use crate::error::ParseResult;
use crate::sourcemap::borrowed::BorrowedSourceMap;
use crate::sourcemap::borrowed::parse_outcome;
use vstd::prelude::*;

verus! {

/// `SourceMap` is a source map that owns all its internal strings.
///
/// This implementation copies every string while parsing, so every
/// [BorrowedSourceMap] already owns its contents and the two are one type.
pub type SourceMap = BorrowedSourceMap;

impl BorrowedSourceMap {
    /// Creates a new owned [SourceMap] from a JSON buffer. The result is
    /// exactly what [`Self::from_slice`] yields on the buffer.
    pub fn from(source: Vec<u8>) -> (r: ParseResult<SourceMap>)
        ensures
            parse_outcome(source@, r),
    {
        let mut buf = source;
        match BorrowedSourceMap::from_slice(&mut buf) {
            Ok(sm) => Ok(sm.into_owned()),
            Err(e) => Err(e),
        }
    }

    /// Converts a [BorrowedSourceMap] into a [SourceMap] that owns all its
    /// internal strings. Every string here is already an owned copy, so
    /// nothing changes hands.
    pub fn into_owned(self) -> (r: SourceMap)
        ensures
            r@ == self@,
    {
        self
    }
}

} // verus!
