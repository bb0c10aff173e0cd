use crate::error::ValidateResult;
use crate::extension::Extension;
use crate::mappings::Mappings;
use crate::mapping::MappingData;
use crate::sourcemap::borrowed::BorrowedSourceMap;
use crate::sourcemap::borrowed::SourceMapData;
use crate::sourcemap::borrowed::sm_valid;
use crate::sourcemap::borrowed::sm_validate_spec;
use vstd::prelude::*;

verus! {

/// The fields gathered by a [SourceMapBuilder], as mathematical values;
/// an unset list builds as empty.
#[verifier::ext_equal]
pub ghost struct SourceMapBuilderData {
    pub file: Option<Seq<char>>,
    pub mappings: Option<Seq<MappingData>>,
    pub names: Option<Seq<Seq<char>>>,
    pub source_root: Option<Seq<char>>,
    pub sources: Option<Seq<Option<Seq<char>>>>,
    pub sources_content: Option<Seq<Option<Seq<char>>>>,
    pub ignore_list: Seq<u32>,
}

/// The map a builder's fields assemble into: each unset field is empty.
pub open spec fn built_map(b: SourceMapBuilderData) -> SourceMapData {
    SourceMapData {
        file: b.file,
        mappings: match b.mappings {
            Some(m) => m,
            None => Seq::empty(),
        },
        names: match b.names {
            Some(n) => n,
            None => Seq::empty(),
        },
        source_root: b.source_root,
        sources: match b.sources {
            Some(s) => s,
            None => Seq::empty(),
        },
        sources_content: match b.sources_content {
            Some(s) => s,
            None => Seq::empty(),
        },
        ignore_list: b.ignore_list,
    }
}

impl BorrowedSourceMap {
    pub fn builder() -> (r: SourceMapBuilder)
        ensures
            r@ == (SourceMapBuilderData {
                file: None,
                mappings: None,
                names: None,
                source_root: None,
                sources: None,
                sources_content: None,
                ignore_list: Seq::empty(),
            }),
    {
        let r = SourceMapBuilder {
            file: None,
            mappings: None,
            names: None,
            source_root: None,
            sources: None,
            sources_content: None,
            extension: Extension::from_raw(None),
        };
        proof {
            assert(r@ =~~= (SourceMapBuilderData {
                file: None,
                mappings: None,
                names: None,
                source_root: None,
                sources: None,
                sources_content: None,
                ignore_list: Seq::empty(),
            }));
        }
        r
    }
}

/// Assembles a [BorrowedSourceMap] (or [SourceMap](crate::SourceMap)) from
/// explicit fields, validating on [`build`](SourceMapBuilder::build).
#[derive(Debug)]
pub struct SourceMapBuilder {
    pub(crate) file: Option<String>,
    pub(crate) mappings: Option<Mappings>,
    pub(crate) names: Option<Vec<String>>,
    pub(crate) source_root: Option<String>,
    pub(crate) sources: Option<Vec<Option<String>>>,
    pub(crate) sources_content: Option<Vec<Option<String>>>,
    pub(crate) extension: Extension,
}

impl View for SourceMapBuilder {
    type V = SourceMapBuilderData;

    closed spec fn view(&self) -> SourceMapBuilderData {
        SourceMapBuilderData {
            file: self.file.deep_view(),
            mappings: match self.mappings {
                Some(ref m) => Some(m@),
                None => None,
            },
            names: match self.names {
                Some(ref n) => Some(n.deep_view()),
                None => None,
            },
            source_root: self.source_root.deep_view(),
            sources: match self.sources {
                Some(ref s) => Some(s.deep_view()),
                None => None,
            },
            sources_content: match self.sources_content {
                Some(ref s) => Some(s.deep_view()),
                None => None,
            },
            ignore_list: self.extension@,
        }
    }
}

impl SourceMapBuilder {
    pub fn with_file(self, file: String) -> (r: Self)
        ensures
            r@ == (SourceMapBuilderData { file: Some(file@), ..self@ }),
    {
        let r = Self { file: Some(file), ..self };
        proof {
            assert(r@ =~~= (SourceMapBuilderData { file: Some(file@), ..self@ }));
        }
        r
    }

    pub fn with_mappings(self, mappings: Mappings) -> (r: Self)
        ensures
            r@ == (SourceMapBuilderData { mappings: Some(mappings@), ..self@ }),
    {
        let r = Self { mappings: Some(mappings), ..self };
        proof {
            assert(r@ =~~= (SourceMapBuilderData { mappings: Some(mappings@), ..self@ }));
        }
        r
    }

    pub fn with_names(self, names: Vec<String>) -> (r: Self)
        ensures
            r@ == (SourceMapBuilderData { names: Some(names.deep_view()), ..self@ }),
    {
        let r = Self { names: Some(names), ..self };
        proof {
            assert(r@ =~~= (SourceMapBuilderData { names: Some(names.deep_view()), ..self@ }));
        }
        r
    }

    pub fn with_source_root(self, source_root: String) -> (r: Self)
        ensures
            r@ == (SourceMapBuilderData { source_root: Some(source_root@), ..self@ }),
    {
        let r = Self { source_root: Some(source_root), ..self };
        proof {
            assert(r@ =~~= (SourceMapBuilderData { source_root: Some(source_root@), ..self@ }));
        }
        r
    }

    pub fn with_sources(self, sources: Vec<Option<String>>) -> (r: Self)
        ensures
            r@ == (SourceMapBuilderData { sources: Some(sources.deep_view()), ..self@ }),
    {
        let r = Self { sources: Some(sources), ..self };
        proof {
            assert(r@ =~~= (SourceMapBuilderData { sources: Some(sources.deep_view()), ..self@ }));
        }
        r
    }

    pub fn with_sources_content(self, sources_content: Vec<Option<String>>) -> (r: Self)
        ensures
            r@ == (SourceMapBuilderData {
                sources_content: Some(sources_content.deep_view()),
                ..self@
            }),
    {
        let r = Self { sources_content: Some(sources_content), ..self };
        proof {
            assert(r@ =~~= (SourceMapBuilderData {
                sources_content: Some(sources_content.deep_view()),
                ..self@
            }));
        }
        r
    }

    pub fn with_extension(self, extension: Extension) -> (r: Self)
        ensures
            r@ == (SourceMapBuilderData { ignore_list: extension@, ..self@ }),
    {
        let r = Self { extension, ..self };
        proof {
            assert(r@ =~~= (SourceMapBuilderData { ignore_list: extension@, ..self@ }));
        }
        r
    }

    /// Builds the map and validates it, so that whatever comes out is a
    /// valid aggregate.
    pub fn build(self) -> (r: ValidateResult<BorrowedSourceMap>)
        ensures
            match r {
                Ok(sm) => sm@ == built_map(self@) && sm_valid(sm@),
                Err(e) => sm_validate_spec(built_map(self@)) == Some(e),
            },
    {
        let v = self.build_unchecked();
        match v.validate() {
            Ok(_) => Ok(v),
            Err(e) => Err(e),
        }
    }

    /// Creates a new [BorrowedSourceMap] without validation.
    ///
    /// The caller must ensure that the fields make a valid aggregate before
    /// any lookup: lookups expect an ordered table and are only promised to
    /// be right on one.
    pub fn build_unchecked(self) -> (r: BorrowedSourceMap)
        ensures
            r@ == built_map(self@),
    {
        let ghost b = self@;
        proof {
            self.extension.lemma_view();
        }
        let mappings = match self.mappings {
            Some(m) => m,
            None => Mappings::empty(),
        };
        let names = match self.names {
            Some(n) => n,
            None => empty_strings(),
        };
        let sources = match self.sources {
            Some(s) => s,
            None => empty_opt_strings(),
        };
        let sources_content = match self.sources_content {
            Some(s) => s,
            None => empty_opt_strings(),
        };
        proof {
            assert(mappings@ == built_map(b).mappings);
            assert(names.deep_view() == built_map(b).names);
            assert(sources.deep_view() == built_map(b).sources);
            assert(sources_content.deep_view() == built_map(b).sources_content);
        }
        let r = BorrowedSourceMap {
            file: self.file,
            mappings,
            names,
            source_root: self.source_root,
            sources,
            sources_content,
            ignore_list: self.extension.ignore_list,
        };
        proof {
            r.lemma_view();
            assert(r@.file == built_map(b).file);
            assert(r@.source_root == built_map(b).source_root);
            assert(r@.ignore_list == built_map(b).ignore_list);
            assert(r@ =~~= built_map(b));
        }
        r
    }
}

/// An empty name list.
fn empty_strings() -> (r: Vec<String>)
    ensures
        r.deep_view() == Seq::<Seq<char>>::empty(),
{
    let r: Vec<String> = Vec::new();
    proof {
        assert(r.deep_view() =~= Seq::<Seq<char>>::empty());
    }
    r
}

/// An empty source or content list.
fn empty_opt_strings() -> (r: Vec<Option<String>>)
    ensures
        r.deep_view() == Seq::<Option<Seq<char>>>::empty(),
{
    let r: Vec<Option<String>> = Vec::new();
    proof {
        assert(r.deep_view() =~= Seq::<Option<Seq<char>>>::empty());
    }
    r
}

} // verus!
