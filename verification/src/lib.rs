//! Data structures and utilities for working with source maps: parsing,
//! validating, querying and re-serializing the "Source Map version 3"
//! format, with the format's rules stated as contracts and proved.
//!
//! ## Overview
//!
//! - [BorrowedSourceMap] is a source map assembled from parsed fields, with
//!   methods for creating, accessing, modifying and serializing it.
//! - [SourceMap] is a source map that owns all its internal strings. This
//!   implementation copies every string while parsing, so it is the same
//!   type as [BorrowedSourceMap].
//! - [Position] represents a 0-based line and 0-based column in a file.
//! - [Mapping] presents an item of the `mappings` in source maps.
//! - [Mappings] is the ordered mapping table; [MappingFinder] accelerates
//!   repeated, mostly sequential lookups against it.
//! - [SourceMapBuilder] and [Extension] assemble maps and the rarely-used
//!   `ignoreList` feature from explicit fields.

use vstd::prelude::*;

mod error;
mod extension;
mod finder;
mod mapping;
mod mappings;
mod sourcemap;
mod splitter;
mod text;
mod vlq;

pub use error::ParseError;
pub use extension::Extension;
pub use extension::ExtensionBuilder;
pub use extension::ext_validate_spec;
pub use error::ParseResult;
pub use error::ValidateError;
pub use error::ValidateResult;
pub use finder::MappingFinder;
pub use finder::count_le;
pub use finder::find_result;
pub use finder::lemma_count_le_bounds;
pub use finder::lemma_find_result_closest;
pub use finder::lemma_find_result_monotonic;
pub use finder::lemma_finder_agrees_with_stateless;
pub use mapping::MISSING_NUM;
pub use mapping::Mapping;
pub use mapping::MappingData;
pub use mapping::OptionNum;
pub use mapping::Position;
pub use mapping::SourceInfo;
pub use mapping::pos_le;
pub use mappings::ItemsCount;
pub use mappings::Mappings;
pub use mappings::mappings_sorted;
pub use mappings::mappings_valid;
pub use mappings::validate_spec;
pub use splitter::MappingSplitter;
pub use sourcemap::BorrowedSourceMap;
pub use sourcemap::SourceMapData;
pub use sourcemap::sm_counts;
pub use sourcemap::sm_valid;
pub use sourcemap::sm_validate_spec;
pub use sourcemap::joined_sources;
pub use sourcemap::join_one;
pub use sourcemap::trim_slashes;
pub use sourcemap::path_stands_alone;
pub use sourcemap::SourceMap;
pub use sourcemap::SourceMapBuilder;
pub use sourcemap::SourceMapBuilderData;
pub use sourcemap::built_map;
pub use sourcemap::SmErr;
pub use sourcemap::parse_outcome;
pub use sourcemap::JsonDoc;
pub use sourcemap::json_model;
pub use sourcemap::parsed_doc;
pub use sourcemap::parse_raw_spec;
pub use sourcemap::doc_raw_fields;
pub use sourcemap::doc_section;
pub use sourcemap::RawDocData;
pub use sourcemap::RawFieldsData;
pub use sourcemap::RawSectionData;
pub use sourcemap::raw_doc_view;
pub use sourcemap::raw_fields_view;
pub use sourcemap::raw_section_view;
pub use sourcemap::raw_sections_view;
pub use sourcemap::sm_err_matches;
pub use sourcemap::from_raw_spec;
pub use sourcemap::process_map_spec;
pub use sourcemap::process_index_map_spec;
pub use sourcemap::ser_bytes;
pub use sourcemap::json_quoted;
pub use sourcemap::dec_digits;
pub use sourcemap::RawSection;
pub use sourcemap::RawSectionOffset;
pub use sourcemap::RawSourceMap;
pub use mappings::DecErr;
pub use mappings::DecState;
pub use mappings::dec_err_matches;
pub use mappings::decode_mappings;
pub use mappings::encode_spec;
pub use mappings::lemma_decode_mappings_valid;
pub use mappings::lemma_validate_spec_valid;
pub use splitter::split_segments;
pub use vlq::VlqDecoder;
pub use vlq::VlqEncoder;
pub use vlq::b64_char;
pub use vlq::b64_value;
pub use vlq::lemma_vlq_rejects_bad_char;
pub use vlq::lemma_vlq_rejects_empty;
pub use vlq::lemma_vlq_rejects_unterminated;
pub use vlq::lemma_vlq_round_trip;
pub use vlq::vlq_encode_bytes;
pub use vlq::vlq_values;
pub use vlq::zigzag_decode;
pub use vlq::zigzag_encode;
