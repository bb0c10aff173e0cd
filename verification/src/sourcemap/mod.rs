mod borrowed;
mod builder;
mod owned;
mod json;
mod raw;

pub use raw::RawSection;
pub use raw::RawSectionOffset;
pub use raw::RawSourceMap;

pub use borrowed::BorrowedSourceMap;
pub use builder::SourceMapBuilder;
pub use builder::SourceMapBuilderData;
pub use builder::built_map;
pub use owned::SourceMap;
pub use borrowed::SmErr;
pub use borrowed::parse_outcome;
pub use json::JsonDoc;
pub use json::json_model;
pub use json::parsed_doc;
pub use json::parse_raw_spec;
pub use json::doc_raw_fields;
pub use json::doc_section;
pub use raw::RawDocData;
pub use raw::RawFieldsData;
pub use raw::RawSectionData;
pub use raw::raw_doc_view;
pub use raw::raw_fields_view;
pub use raw::raw_section_view;
pub use raw::raw_sections_view;
pub use borrowed::sm_err_matches;
pub use borrowed::from_raw_spec;
pub use borrowed::process_map_spec;
pub use borrowed::process_index_map_spec;
pub use borrowed::ser_bytes;
pub use borrowed::json_quoted;
pub use borrowed::dec_digits;
pub use borrowed::SourceMapData;
pub use borrowed::sm_counts;
pub use borrowed::sm_valid;
pub use borrowed::sm_validate_spec;
pub use borrowed::joined_sources;
pub use borrowed::join_one;
pub use borrowed::trim_slashes;
pub use borrowed::path_stands_alone;
