use vstd::prelude::*;

verus! {

/// The named fields of a source-map JSON document, as plain values, before
/// any of the format's rules have been applied. The external JSON reader
/// fills this in; `BorrowedSourceMap::from_raw` turns it into a checked
/// aggregate.
pub struct RawSourceMap {
    pub version: Option<u32>,
    pub file: Option<String>,
    pub sources: Option<Vec<Option<String>>>,
    pub source_root: Option<String>,
    pub sources_content: Option<Vec<Option<String>>>,
    pub names: Option<Vec<String>>,
    pub mappings: Option<String>,
    pub ignore_list: Option<Vec<u32>>,
    pub sections: Option<Vec<RawSection>>,
}

/// The generated position at which an index-map section starts.
pub struct RawSectionOffset {
    pub line: u32,
    pub column: u32,
}

/// One section of an index map: an offset and, unless the section only
/// referenced an external map, its nested document. Nested documents'
/// own `sections` fields are not processed.
pub struct RawSection {
    pub offset: RawSectionOffset,
    pub map: Option<Box<RawSourceMap>>,
}


/// The mathematical value of a document's plain named fields.
#[verifier::ext_equal]
pub ghost struct RawFieldsData {
    pub version: Option<u32>,
    pub file: Option<Seq<char>>,
    pub sources: Option<Seq<Option<Seq<char>>>>,
    pub source_root: Option<Seq<char>>,
    pub sources_content: Option<Seq<Option<Seq<char>>>>,
    pub names: Option<Seq<Seq<char>>>,
    pub mappings: Option<Seq<char>>,
    pub ignore_list: Option<Seq<u32>>,
}

/// The mathematical value of one index-map section. A nested document's own
/// `sections` are not processed, so only its plain fields appear here.
#[verifier::ext_equal]
pub ghost struct RawSectionData {
    pub line: u32,
    pub column: u32,
    pub map: Option<RawFieldsData>,
}

/// The mathematical value of a whole parsed document.
#[verifier::ext_equal]
pub ghost struct RawDocData {
    pub fields: RawFieldsData,
    pub sections: Option<Seq<RawSectionData>>,
}

/// The plain fields of a `RawSourceMap`, as mathematical values.
pub open spec fn raw_fields_view(r: RawSourceMap) -> RawFieldsData {
    RawFieldsData {
        version: r.version,
        file: r.file.deep_view(),
        sources: match r.sources {
            Some(v) => Some(v.deep_view()),
            None => None,
        },
        source_root: r.source_root.deep_view(),
        sources_content: match r.sources_content {
            Some(v) => Some(v.deep_view()),
            None => None,
        },
        names: match r.names {
            Some(v) => Some(v.deep_view()),
            None => None,
        },
        mappings: match r.mappings {
            Some(s) => Some(s@),
            None => None,
        },
        ignore_list: match r.ignore_list {
            Some(v) => Some(v@),
            None => None,
        },
    }
}

/// One section of a `RawSourceMap`, as mathematical values.
pub open spec fn raw_section_view(s: RawSection) -> RawSectionData {
    RawSectionData {
        line: s.offset.line,
        column: s.offset.column,
        map: match s.map {
            Some(b) => Some(raw_fields_view(*b)),
            None => None,
        },
    }
}

/// A section list, as mathematical values.
pub open spec fn raw_sections_view(s: Seq<RawSection>) -> Seq<RawSectionData> {
    s.map_values(|x: RawSection| raw_section_view(x))
}

/// A whole `RawSourceMap`, as mathematical values.
pub open spec fn raw_doc_view(r: RawSourceMap) -> RawDocData {
    RawDocData {
        fields: raw_fields_view(r),
        sections: match r.sections {
            Some(v) => Some(raw_sections_view(v@)),
            None => None,
        },
    }
}
} // verus!
