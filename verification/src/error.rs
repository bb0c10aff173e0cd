use vstd::prelude::*;

verus! {

/// The result of parsing a source map.
pub type ParseResult<T> = Result<T, ParseError>;

/// The result of validating a source map.
pub type ValidateResult<T> = Result<T, ValidateError>;

/// Errors reported while parsing a source map document.
#[derive(Debug)]
#[non_exhaustive]
pub enum ParseError {
    /// The document does not declare version 3.
    UnsupportedFormat,
    /// The underlying JSON document is not well formed; carries the JSON
    /// reader's message.
    Syntax(String),
    /// A mapping segment is malformed (bad character, bad field count, or a
    /// numeric overflow); carries the offending segment's text.
    MappingMalformed(String),
    /// Mappings (or index-map sections) are not ordered by generated position.
    MappingsUnordered,
    /// A mapping references a source id that is out of bounds.
    UnknownSourceReference(u32),
    /// A mapping references a name id that is out of bounds.
    UnknownNameReference(u32),
    /// `sources` and `sourcesContent` differ in length.
    MismatchSourcesContent { sources_len: u32, sources_content_len: u32 },
    /// An error inside an index-map section, with the section's index.
    Section(u32, Box<ParseError>),
}

/// Errors reported by `validate`.
#[derive(Debug)]
#[non_exhaustive]
pub enum ValidateError {
    /// Mappings are not ordered by generated position.
    MappingsUnordered,
    /// A mapping references a source id that is out of bounds.
    UnknownSourceReference(u32),
    /// A mapping references a name id that is out of bounds.
    UnknownNameReference(u32),
    /// `sources` and `sourcesContent` differ in length.
    MismatchSourcesContent { sources_len: u32, sources_content_len: u32 },
    /// An ignore-list entry references a source id that is out of bounds.
    InvalidIgnoreList { index: u32, source_id: u32 },
}

} // verus!
