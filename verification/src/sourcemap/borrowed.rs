use crate::error::ParseError;
use crate::error::ParseResult;
use crate::error::ValidateError;
use crate::error::ValidateResult;
use crate::finder::MappingFinder;
use crate::finder::find_result;
use crate::mapping::Mapping;
use crate::mapping::MappingData;
use crate::mapping::Position;
use crate::mapping::pos_le;
use crate::sourcemap::raw::RawDocData;
use crate::sourcemap::raw::RawFieldsData;
use crate::sourcemap::raw::RawSection;
use crate::sourcemap::raw::RawSectionData;
use crate::sourcemap::raw::RawSourceMap;
use crate::sourcemap::raw::raw_doc_view;
use crate::sourcemap::raw::raw_fields_view;
use crate::sourcemap::raw::raw_section_view;
use crate::sourcemap::raw::raw_sections_view;
use crate::mappings::ItemsCount;
use crate::mappings::Mappings;
use crate::mappings::mappings_sorted;
use crate::mappings::mappings_valid;
use crate::mappings::validate_spec;
use simd_json_derive::Serialize;
use vstd::prelude::*;
use vstd::string::StrSliceExecFns;
use vstd::string::StringExecFns;
use vstd::string::StringSliceAdditionalSpecFns;

verus! {

broadcast use vstd::std_specs::vec::vec_clone_deep_view_proof;

/// The mathematical value of a source map: every field as its sequence of
/// characters, the table as its sequence of entries.
#[verifier::ext_equal]
pub ghost struct SourceMapData {
    pub file: Option<Seq<char>>,
    pub mappings: Seq<MappingData>,
    pub names: Seq<Seq<char>>,
    pub source_root: Option<Seq<char>>,
    pub sources: Seq<Option<Seq<char>>>,
    pub sources_content: Seq<Option<Seq<char>>>,
    pub ignore_list: Seq<u32>,
}

/// The items-count bound a map's own lists give to its mapping table.
pub open spec fn sm_counts(d: SourceMapData) -> ItemsCount {
    ItemsCount { sources: d.sources.len() as u32, names: d.names.len() as u32 }
}

/// The first violation `validate` reports: the two source lists must agree
/// in length before the table itself is checked.
pub open spec fn sm_validate_spec(d: SourceMapData) -> Option<ValidateError> {
    if d.sources_content.len() != d.sources.len() {
        Some(
            ValidateError::MismatchSourcesContent {
                sources_len: d.sources.len() as u32,
                sources_content_len: d.sources_content.len() as u32,
            },
        )
    } else {
        validate_spec(d.mappings, sm_counts(d))
    }
}

/// A valid aggregate: the content list matches the source list and the
/// table is valid against the map's own lists.
pub open spec fn sm_valid(d: SourceMapData) -> bool {
    d.sources_content.len() == d.sources.len() && mappings_valid(d.mappings, sm_counts(d))
}

/// `BorrowedSourceMap` is a source map assembled from parsed fields.
///
/// This implementation copies every string out of the document it was
/// parsed from, so the map owns all its contents; [SourceMap](crate::SourceMap)
/// is the same type under the name callers reach for when they want that
/// spelled out.
///
/// # Methods
///
/// ## Parsing
///
/// - [`BorrowedSourceMap::from_slice`]
/// - [`BorrowedSourceMap::from_str`]
/// - [`BorrowedSourceMap::from_raw`], when the fields are already in hand
///
/// The buffer-taking methods are mutable because the JSON reader de-escapes
/// strings in place. Index maps are flattened into a single table as they
/// are read; sections are not retained.
///
/// ## Access & Modification
///
/// Field accessors come in pairs, such as [`sources`](BorrowedSourceMap::sources)
/// and [`sources_mut`](BorrowedSourceMap::sources_mut). After changing
/// anything that mappings refer to, call
/// [`validate`](BorrowedSourceMap::validate): lookups expect an ordered
/// table and are only promised to be right on one.
///
/// ## Finding mappings
///
/// - [`find_mapping`](BorrowedSourceMap::find_mapping) for one position
/// - [`finder`](BorrowedSourceMap::finder) for runs of nearby positions
///
/// ## Output
///
/// - [`write`](BorrowedSourceMap::write), [`to_vec`](BorrowedSourceMap::to_vec)
///   and [`to_string`](BorrowedSourceMap::to_string) serialize the map back
///   to JSON.
#[derive(Debug, Clone)]
pub struct BorrowedSourceMap {
    pub(crate) file: Option<String>,
    pub(crate) mappings: Mappings,
    pub(crate) names: Vec<String>,
    pub(crate) source_root: Option<String>,
    pub(crate) sources: Vec<Option<String>>,
    pub(crate) sources_content: Vec<Option<String>>,
    pub(crate) ignore_list: Vec<u32>,
}

impl View for BorrowedSourceMap {
    type V = SourceMapData;

    closed spec fn view(&self) -> SourceMapData {
        SourceMapData {
            file: self.file.deep_view(),
            mappings: self.mappings@,
            names: self.names.deep_view(),
            source_root: self.source_root.deep_view(),
            sources: self.sources.deep_view(),
            sources_content: self.sources_content.deep_view(),
            ignore_list: self.ignore_list@,
        }
    }
}

impl BorrowedSourceMap {
    /// What the view is made of, for the crate's other modules.
    pub(crate) proof fn lemma_view(&self)
        ensures
            self@ == (SourceMapData {
                file: self.file.deep_view(),
                mappings: self.mappings@,
                names: self.names.deep_view(),
                source_root: self.source_root.deep_view(),
                sources: self.sources.deep_view(),
                sources_content: self.sources_content.deep_view(),
                ignore_list: self.ignore_list@,
            }),
    {
    }

    /// Finds the mapping for a given generated position.
    ///
    /// If an exact match is not found, this method returns the closest
    /// preceding mapping. If there are no preceding mappings, it returns
    /// `None`. The table must be ordered, as every constructor of this type
    /// leaves it; after mutating the table through the direct accessors,
    /// re-establish that with [`validate`](Self::validate) before looking
    /// anything up.
    pub fn find_mapping(&self, pos: Position) -> (r: Option<Mapping>)
        requires
            mappings_sorted(self@.mappings),
        ensures
            match r {
                Some(m) => find_result(self@.mappings, pos) == Some(m@),
                None => find_result(self@.mappings, pos) is None,
            },
    {
        self.mappings.find_mapping(pos)
    }

    /// Creates a `MappingFinder` for the source map.
    ///
    /// This stateful finder is highly efficient for frequent mapping
    /// findings, especially when traversing the source map in small
    /// increments (e.g., sequentially finding mappings from start to finish
    /// in a source map for a minified file).
    pub fn finder(&self) -> (r: MappingFinder<'_>)
        requires
            mappings_sorted(self@.mappings),
        ensures
            r.wf(),
            r.table() == self@.mappings,
    {
        self.mappings.finder()
    }

    /// Validates the source map: the source and content lists agree in
    /// length, the table is ordered, and every reference is in bounds.
    /// Reports the first violation.
    pub fn validate(&self) -> (r: ValidateResult<()>)
        ensures
            match r {
                Ok(_) => sm_validate_spec(self@) is None && sm_valid(self@),
                Err(e) => sm_validate_spec(self@) == Some(e),
            },
    {
        let sources_len = self.sources.len();
        let sources_content_len = self.sources_content.len();
        let names_len = self.names.len();
        if sources_content_len != sources_len {
            return Err(
                ValidateError::MismatchSourcesContent {
                    sources_len: #[verifier::truncate] (sources_len as u32),
                    sources_content_len: #[verifier::truncate] (sources_content_len as u32),
                },
            );
        }
        // Note:
        // `ignore_list` is an additional feature that does not hinder the
        // primary functionality of source maps, so it is not subject to
        // validation here.
        match self.mappings.validate(
            ItemsCount::new(
                #[verifier::truncate] (sources_len as u32),
                #[verifier::truncate] (names_len as u32),
            ),
        ) {
            Ok(_) => {
                proof {
                    crate::mappings::lemma_validate_spec_valid(self@.mappings, sm_counts(self@));
                }
                Ok(())
            },
            Err(e) => Err(e),
        }
    }
}

impl BorrowedSourceMap {
    pub fn file(&self) -> (r: &Option<String>)
        ensures
            r.deep_view() == self@.file,
    {
        &self.file
    }

    pub fn file_mut(&mut self) -> (r: &mut Option<String>)
        ensures
            r.deep_view() == old(self)@.file,
            final(self)@ == (SourceMapData { file: final(r).deep_view(), ..old(self)@ }),
    {
        &mut self.file
    }

    pub fn mappings(&self) -> (r: &Mappings)
        ensures
            r@ == self@.mappings,
    {
        &self.mappings
    }

    /// Mutable access to the table. Re-validate before looking anything up:
    /// the order of the entries is in the caller's hands here.
    pub fn mappings_mut(&mut self) -> (r: &mut Mappings)
        ensures
            r@ == old(self)@.mappings,
            final(self)@ == (SourceMapData { mappings: final(r)@, ..old(self)@ }),
    {
        &mut self.mappings
    }

    pub fn names(&self) -> (r: &Vec<String>)
        ensures
            r.deep_view() == self@.names,
    {
        &self.names
    }

    /// Mutable access to the names themselves. The list cannot change
    /// length this way, and no mapping refers to what a name says, so
    /// nothing can break.
    pub fn names_mut(&mut self) -> (r: &mut [String])
        ensures
            r.deep_view() == old(self)@.names,
            final(self)@ == (SourceMapData { names: final(r).deep_view(), ..old(self)@ }),
    {
        self.names.as_mut_slice()
    }

    pub fn sources(&self) -> (r: &Vec<Option<String>>)
        ensures
            r.deep_view() == self@.sources,
    {
        &self.sources
    }

    /// Mutable access to the source names themselves. The list cannot
    /// change length this way, so mapping references stay in bounds.
    pub fn sources_mut(&mut self) -> (r: &mut [Option<String>])
        ensures
            r.deep_view() == old(self)@.sources,
            final(self)@ == (SourceMapData { sources: final(r).deep_view(), ..old(self)@ }),
    {
        self.sources.as_mut_slice()
    }

    pub fn sources_content(&self) -> (r: &Vec<Option<String>>)
        ensures
            r.deep_view() == self@.sources_content,
    {
        &self.sources_content
    }

    /// Mutable access to the contents themselves. The list cannot change
    /// length this way, so it keeps matching the source list.
    pub fn sources_content_mut(&mut self) -> (r: &mut [Option<String>])
        ensures
            r.deep_view() == old(self)@.sources_content,
            final(self)@ == (SourceMapData {
                sources_content: final(r).deep_view(),
                ..old(self)@
            }),
    {
        self.sources_content.as_mut_slice()
    }

    /// Returns a mutable reference to the whole name list.
    ///
    /// This tier allows more extensive modifications: the caller must keep
    /// every name id referenced in the mappings below the list's length, and
    /// it is best to call [Self::validate] after making modifications.
    pub fn names_mut2(&mut self) -> (r: &mut Vec<String>)
        ensures
            r.deep_view() == old(self)@.names,
            final(self)@ == (SourceMapData { names: final(r).deep_view(), ..old(self)@ }),
    {
        &mut self.names
    }

    /// Returns a mutable reference to the whole source list.
    ///
    /// This tier allows more extensive modifications: the caller must keep
    /// every source id referenced in the mappings below the list's length,
    /// and the content list at the same length; it is best to call
    /// [Self::validate] after making modifications.
    pub fn sources_mut2(&mut self) -> (r: &mut Vec<Option<String>>)
        ensures
            r.deep_view() == old(self)@.sources,
            final(self)@ == (SourceMapData { sources: final(r).deep_view(), ..old(self)@ }),
    {
        &mut self.sources
    }

    /// Returns a mutable reference to the whole content list.
    ///
    /// This tier allows more extensive modifications: the caller must keep
    /// the list at the source list's length, and it is best to call
    /// [Self::validate] after making modifications.
    pub fn sources_content_mut2(&mut self) -> (r: &mut Vec<Option<String>>)
        ensures
            r.deep_view() == old(self)@.sources_content,
            final(self)@ == (SourceMapData {
                sources_content: final(r).deep_view(),
                ..old(self)@
            }),
    {
        &mut self.sources_content
    }

    pub fn source_root(&self) -> (r: &Option<String>)
        ensures
            r.deep_view() == self@.source_root,
    {
        &self.source_root
    }

    pub fn ignore_list(&self) -> (r: &Vec<u32>)
        ensures
            r@ == self@.ignore_list,
    {
        &self.ignore_list
    }

    /// Mutable access to the ignore list. Arbitrary changes here cannot
    /// break lookups, so nothing needs re-validating.
    pub fn ignore_list_mut(&mut self) -> (r: &mut Vec<u32>)
        ensures
            r@ == old(self)@.ignore_list,
            final(self)@ == (SourceMapData { ignore_list: final(r)@, ..old(self)@ }),
    {
        &mut self.ignore_list
    }
}

/// Whether a source path is left alone by source-root joining: empty,
/// absolute, or already an `http:`/`https:` URL.
pub open spec fn path_stands_alone(p: Seq<char>) -> bool {
    ||| p.len() == 0
    ||| p[0] == '/'
    ||| (p.len() >= 5 && p[0] == 'h' && p[1] == 't' && p[2] == 't' && p[3] == 'p' && p[4] == ':')
    ||| (p.len() >= 6 && p[0] == 'h' && p[1] == 't' && p[2] == 't' && p[3] == 'p' && p[4] == 's'
        && p[5] == ':')
}

/// The source root with its trailing slashes removed.
pub open spec fn trim_slashes(root: Seq<char>) -> Seq<char>
    decreases root.len(),
{
    if root.len() > 0 && root.last() == '/' {
        trim_slashes(root.drop_last())
    } else {
        root
    }
}

/// One source path joined onto the source root, unless it stands alone.
pub open spec fn join_one(root: Seq<char>, p: Seq<char>) -> Seq<char> {
    if path_stands_alone(p) {
        p
    } else {
        trim_slashes(root) + seq!['/'] + p
    }
}

/// The whole source list joined onto the root; an absent or empty root
/// leaves every path alone.
pub open spec fn joined_sources(root: Option<Seq<char>>, sources: Seq<Option<Seq<char>>>) -> Seq<
    Option<Seq<char>>,
> {
    match root {
        Some(r) => if r.len() == 0 {
            sources
        } else {
            sources.map_values(
                |s: Option<Seq<char>>|
                    match s {
                        Some(p) => Some(join_one(r, p)),
                        None => None,
                    },
            )
        },
        None => sources,
    }
}

/// Joins one source path onto a non-empty source root, unless the path is
/// empty, absolute, or already an `http:`/`https:` URL.
fn join_one_path(root: &str, p: &str) -> (r: String)
    ensures
        r@ == join_one(root@, p@),
{
    let n = p.unicode_len();
    let alone = if n == 0 {
        true
    } else if p.get_char(0) == '/' {
        true
    } else if n >= 5 && p.get_char(0) == 'h' && p.get_char(1) == 't' && p.get_char(2) == 't'
        && p.get_char(3) == 'p' && p.get_char(4) == ':' {
        true
    } else {
        n >= 6 && p.get_char(0) == 'h' && p.get_char(1) == 't' && p.get_char(2) == 't'
            && p.get_char(3) == 'p' && p.get_char(4) == 's' && p.get_char(5) == ':'
    };
    if alone {
        proof {
            assert(path_stands_alone(p@));
        }
        return p.to_owned();
    }
    let rn = root.unicode_len();
    let mut k = rn;
    proof {
        assert(root@.subrange(0, rn as int) =~= root@);
    }
    while k > 0 && root.get_char(k - 1) == '/'
        invariant
            k <= rn,
            rn == root@.len(),
            trim_slashes(root@) == trim_slashes(root@.subrange(0, k as int)),
        decreases k,
    {
        proof {
            assert(root@.subrange(0, k as int).drop_last() =~= root@.subrange(0, k - 1));
            assert(root@.subrange(0, k as int).last() == root@[k - 1]);
        }
        k = k - 1;
    }
    proof {
        if k > 0 {
            assert(root@.subrange(0, k as int).last() == root@[k - 1]);
        }
        assert(trim_slashes(root@.subrange(0, k as int)) == root@.subrange(0, k as int));
    }
    let mut out = root.substring_char(0, k).to_owned();
    out.append("/");
    out.append(p);
    proof {
        reveal_strlit("/");
        assert("/"@ =~= seq!['/']);
        assert(out@ =~= join_one(root@, p@));
    }
    out
}

/// Joins every source path onto the root, per `joined_sources`.
fn join_all_sources(root: &Option<String>, sources: Vec<Option<String>>) -> (r: Vec<
    Option<String>,
>)
    ensures
        r.deep_view() == joined_sources(root.deep_view(), sources.deep_view()),
{
    let ghost goal = joined_sources(root.deep_view(), sources.deep_view());
    match root {
        None => {
            proof {
                assert(sources.deep_view() =~= goal);
            }
            sources
        },
        Some(rt) => {
            if rt.as_str().is_empty() {
                proof {
                    assert(sources.deep_view() =~= goal);
                }
                return sources;
            }
            let mut out: Vec<Option<String>> = Vec::new();
            let n = sources.len();
            let mut i: usize = 0;
            while i < n
                invariant
                    i <= n,
                    n == sources.len(),
                    rt@.len() > 0,
                    goal == joined_sources(root.deep_view(), sources.deep_view()),
                    root.deep_view() == Some(rt@),
                    out.deep_view() =~= goal.subrange(0, i as int),
                decreases n - i,
            {
                let ghost before = out.deep_view();
                match &sources[i] {
                    None => {
                        out.push(None);
                    },
                    Some(p) => {
                        out.push(Some(join_one_path(rt.as_str(), p.as_str())));
                    },
                }
                proof {
                    assert(out.deep_view() =~= before.push(goal[i as int]));
                    assert(out.deep_view() =~= goal.subrange(0, i + 1));
                }
                i = i + 1;
            }
            proof {
                assert(out.deep_view() =~= goal);
            }
            out
        },
    }
}

/// A list of `n` absent entries.
pub open spec fn none_seq(n: nat) -> Seq<Option<Seq<char>>> {
    Seq::new(n, |i: int| None)
}

/// A same-length list of absent contents, for maps that carry none.
fn none_contents(n: usize) -> (r: Vec<Option<String>>)
    ensures
        r.deep_view() == none_seq(n as nat),
{
    let mut out: Vec<Option<String>> = Vec::new();
    let mut i: usize = 0;
    while i < n
        invariant
            i <= n,
            out@.len() == i,
            forall|j: int| 0 <= j < i ==> out@[j] is None,
        decreases n - i,
    {
        out.push(None);
        i = i + 1;
    }
    proof {
        assert forall|j: int| 0 <= j < n implies out.deep_view()[j] == none_seq(n as nat)[j] by {
            assert(out@[j] is None);
        }
        assert(out.deep_view() =~= none_seq(n as nat));
    }
    out
}


/// What assembling a source map from parsed fields can report.
pub ghost enum SmErr {
    /// The declared version is not 3.
    Unsupported,
    /// A list is too large for 32-bit references.
    TooLarge,
    /// `sources` and `sourcesContent` lengths differ.
    Mismatch(u32, u32),
    /// The mapping string failed to decode.
    Dec(crate::mappings::DecErr),
    /// A section starts at or before the end of the one before it.
    SectionUnordered(u32),
    /// A section's `sources` and `sourcesContent` lengths differ.
    SectionMismatch(u32, u32, u32),
    /// A section's mapping string failed to decode.
    SectionDec(u32, crate::mappings::DecErr),
}

/// Whether a reported `ParseError` says what the assembly fault `d` says.
pub open spec fn sm_err_matches(e: ParseError, d: SmErr) -> bool {
    match d {
        SmErr::Unsupported => e == ParseError::UnsupportedFormat,
        SmErr::TooLarge => e matches ParseError::Syntax(_),
        SmErr::Mismatch(a, b) => e == (ParseError::MismatchSourcesContent {
            sources_len: a,
            sources_content_len: b,
        }),
        SmErr::Dec(de) => crate::mappings::dec_err_matches(e, de),
        SmErr::SectionUnordered(i) => e matches ParseError::Section(j, be) && j == i && *be
            == ParseError::MappingsUnordered,
        SmErr::SectionMismatch(i, a, b) => e matches ParseError::Section(j, be) && j == i && *be
            == (ParseError::MismatchSourcesContent { sources_len: a, sources_content_len: b }),
        SmErr::SectionDec(i, de) => e matches ParseError::Section(j, be) && j == i
            && crate::mappings::dec_err_matches(*be, de),
    }
}

/// The source list of a document, absent meaning empty.
pub open spec fn raw_sources_view(v: Option<Seq<Option<Seq<char>>>>) -> Seq<Option<Seq<char>>> {
    match v {
        Some(x) => x,
        None => Seq::empty(),
    }
}

/// The name list of a document, absent meaning empty.
pub open spec fn raw_names_view(v: Option<Seq<Seq<char>>>) -> Seq<Seq<char>> {
    match v {
        Some(x) => x,
        None => Seq::empty(),
    }
}

/// The mapping string of a document as bytes, absent meaning empty.
pub open spec fn raw_mappings_bytes(v: Option<Seq<char>>) -> Seq<u8> {
    match v {
        Some(x) => vstd::utf8::encode_utf8(x),
        None => Seq::empty(),
    }
}

/// The ignore list of a document, absent meaning empty.
pub open spec fn raw_ignore_view(v: Option<Seq<u32>>) -> Seq<u32> {
    match v {
        Some(x) => x,
        None => Seq::empty(),
    }
}

/// The state decoding starts from at the top of a document.
pub open spec fn zero_state() -> crate::mappings::DecState {
    crate::mappings::DecState {
        generated_line: 0,
        generated_col: 0,
        source_id: 0,
        source_line: 0,
        source_col: 0,
        name_id: 0,
    }
}

/// What assembling a plain (non-index) document yields: the source root
/// joined onto each source path, an all-absent content list synthesized when
/// none was declared, and the mapping string decoded against the lists'
/// lengths.
pub open spec fn process_map_spec(f: RawFieldsData) -> Result<SourceMapData, SmErr> {
    let sources = joined_sources(f.source_root, raw_sources_view(f.sources));
    let names = raw_names_view(f.names);
    let mismatch = match f.sources_content {
        Some(c) => c.len() != sources.len(),
        None => false,
    };
    if mismatch {
        Err(
            SmErr::Mismatch(
                sources.len() as u32,
                (match f.sources_content {
                    Some(c) => c.len(),
                    None => 0,
                }) as u32,
            ),
        )
    } else if sources.len() > u32::MAX || names.len() > u32::MAX {
        Err(SmErr::TooLarge)
    } else {
        let counts = ItemsCount { sources: sources.len() as u32, names: names.len() as u32 };
        match crate::mappings::decode_mappings(
            raw_mappings_bytes(f.mappings),
            counts,
            zero_state(),
        ) {
            Ok(ms) => Ok(
                SourceMapData {
                    file: f.file,
                    mappings: ms,
                    names,
                    source_root: f.source_root,
                    sources,
                    sources_content: match f.sources_content {
                        Some(c) => c,
                        None => none_seq(sources.len()),
                    },
                    ignore_list: raw_ignore_view(f.ignore_list),
                },
            ),
            Err(d) => Err(SmErr::Dec(d)),
        }
    }
}

/// A section's ignore-list entries, shifted by the sources the earlier
/// sections contributed; an entry that would point past this section's
/// sources is dropped.
pub open spec fn shifted_ignore(entries: Seq<u32>, start: int, end: int) -> Seq<u32>
    decreases entries.len(),
{
    if entries.len() == 0 {
        Seq::empty()
    } else {
        let hd = shifted_ignore(entries.drop_last(), start, end);
        if start + entries.last() < end {
            hd + seq![#[verifier::truncate] ((start + entries.last()) as u32)]
        } else {
            hd
        }
    }
}

/// The lists gathered while flattening an index map, and the position the
/// last section ended at.
pub ghost struct SecState {
    pub names: Seq<Seq<char>>,
    pub sources: Seq<Option<Seq<char>>>,
    pub contents: Seq<Option<Seq<char>>>,
    pub ignore: Seq<u32>,
    pub mappings: Seq<MappingData>,
    pub last_end: Option<Position>,
}

/// Flattens the sections from index `k` on. Each section must start at or
/// after the previous section's last mapping (or its offset, when it had
/// none) - only a decrease is an ordering error;
/// its lists are appended to the gathered ones, and its mapping string is
/// decoded starting at its offset with its references shifted by the
/// gathered lists' lengths, so that ids stay unique after flattening.
pub open spec fn process_sections_spec(secs: Seq<RawSectionData>, k: int, st: SecState) -> Result<
    SecState,
    SmErr,
>
    decreases secs.len() - k,
{
    if k < 0 || k >= secs.len() {
        Ok(st)
    } else {
        let sec = secs[k];
        let cur = Position { line: sec.line, column: sec.column };
        let out_of_order = match st.last_end {
            Some(p) => pos_le(cur, p) && cur != p,
            None => false,
        };
        if out_of_order {
            Err(SmErr::SectionUnordered(k as u32))
        } else {
            match sec.map {
                None => process_sections_spec(
                    secs,
                    k + 1,
                    SecState { last_end: Some(cur), ..st },
                ),
                Some(m) => {
                    let sec_mismatch = match m.sources {
                        Some(sl) => match m.sources_content {
                            Some(c) => c.len() != sl.len(),
                            None => false,
                        },
                        None => false,
                    };
                    if sec_mismatch {
                        Err(
                            SmErr::SectionMismatch(
                                k as u32,
                                (match m.sources {
                                    Some(sl) => sl.len(),
                                    None => 0,
                                }) as u32,
                                (match m.sources_content {
                                    Some(c) => c.len(),
                                    None => 0,
                                }) as u32,
                            ),
                        )
                    } else {
                        let added_sources = match m.sources {
                            Some(sl) => joined_sources(m.source_root, sl),
                            None => Seq::empty(),
                        };
                        let added_contents = match m.sources {
                            Some(sl) => match m.sources_content {
                                Some(c) => c,
                                None => none_seq(sl.len()),
                            },
                            None => Seq::empty(),
                        };
                        let names2 = st.names + raw_names_view(m.names);
                        let sources2 = st.sources + added_sources;
                        let contents2 = st.contents + added_contents;
                        let ignore2 = st.ignore + (match m.ignore_list {
                            Some(il) => shifted_ignore(
                                il,
                                st.sources.len() as int,
                                sources2.len() as int,
                            ),
                            None => Seq::empty(),
                        });
                        if sources2.len() > u32::MAX || names2.len() > u32::MAX {
                            Err(SmErr::TooLarge)
                        } else {
                            let counts = ItemsCount {
                                sources: sources2.len() as u32,
                                names: names2.len() as u32,
                            };
                            let init = crate::mappings::DecState {
                                generated_line: cur.line,
                                generated_col: cur.column,
                                source_id: st.sources.len() as u32,
                                source_line: 0,
                                source_col: 0,
                                name_id: st.names.len() as u32,
                            };
                            match crate::mappings::dec_fold(
                                crate::splitter::split_segments(raw_mappings_bytes(m.mappings)),
                                0,
                                init,
                                Seq::empty(),
                                counts,
                            ) {
                                Err(d) => Err(SmErr::SectionDec(k as u32, d)),
                                Ok(p) => {
                                    let ms2 = crate::mappings::dec_fixup(st.mappings + p.0, p.1);
                                    let le2 = if ms2.len() > 0 {
                                        Some(ms2.last().generated)
                                    } else {
                                        None
                                    };
                                    process_sections_spec(
                                        secs,
                                        k + 1,
                                        SecState {
                                            names: names2,
                                            sources: sources2,
                                            contents: contents2,
                                            ignore: ignore2,
                                            mappings: ms2,
                                            last_end: le2,
                                        },
                                    )
                                },
                            }
                        }
                    }
                },
            }
        }
    }
}

/// The empty gathered state flattening starts from.
pub open spec fn sec_state_init() -> SecState {
    SecState {
        names: Seq::empty(),
        sources: Seq::empty(),
        contents: Seq::empty(),
        ignore: Seq::empty(),
        mappings: Seq::empty(),
        last_end: None,
    }
}

/// What assembling an index map yields: the flattened lists, with the
/// top-level `file` and `sourceRoot` dropped.
pub open spec fn process_index_map_spec(secs: Seq<RawSectionData>) -> Result<SourceMapData, SmErr> {
    match process_sections_spec(secs, 0, sec_state_init()) {
        Ok(st) => Ok(
            SourceMapData {
                file: None,
                mappings: st.mappings,
                names: st.names,
                source_root: None,
                sources: st.sources,
                sources_content: st.contents,
                ignore_list: st.ignore,
            },
        ),
        Err(e) => Err(e),
    }
}

/// What assembling any parsed document yields: only version 3 is accepted;
/// a document with `sections` is an index map, any other is a plain map.
pub open spec fn from_raw_spec(d: RawDocData) -> Result<SourceMapData, SmErr> {
    if d.fields.version != Some(3u32) {
        Err(SmErr::Unsupported)
    } else {
        match d.sections {
            Some(secs) => process_index_map_spec(secs),
            None => process_map_spec(d.fields),
        }
    }
}

/// Appends cloned strings onto a gathered list.
fn append_strings(dst: &mut Vec<String>, src: &Vec<String>)
    ensures
        final(dst).deep_view() == old(dst).deep_view() + src.deep_view(),
{
    let ghost before = dst.deep_view();
    let mut c = src.clone();
    proof {
        assert(c.deep_view() == src.deep_view());
    }
    dst.append(&mut c);
    proof {
        assert forall|j: int| 0 <= j < dst.deep_view().len() implies dst.deep_view()[j] == (before
            + src.deep_view())[j] by {}
        assert(dst.deep_view() =~= before + src.deep_view());
    }
}

/// Appends optional strings onto a gathered list.
fn append_opt_strings(dst: &mut Vec<Option<String>>, src: Vec<Option<String>>)
    ensures
        final(dst).deep_view() == old(dst).deep_view() + src.deep_view(),
{
    let ghost before = dst.deep_view();
    let ghost srcv = src.deep_view();
    let mut c = src;
    dst.append(&mut c);
    proof {
        assert forall|j: int| 0 <= j < dst.deep_view().len() implies dst.deep_view()[j] == (before
            + srcv)[j] by {}
        assert(dst.deep_view() =~= before + srcv);
    }
}

impl BorrowedSourceMap {
    /// Assembles a plain (non-index) document: joins the source root onto
    /// each source path, fills in an absent content list, and decodes the
    /// mapping string against the lists' lengths.
    fn process_map(raw: RawSourceMap) -> (r: ParseResult<BorrowedSourceMap>)
        ensures
            match r {
                Ok(sm) => process_map_spec(raw_fields_view(raw)) matches Ok(d) && sm@ == d
                    && sm_valid(sm@),
                Err(e) => process_map_spec(raw_fields_view(raw)) matches Err(d) && sm_err_matches(
                    e,
                    d,
                ),
            },
    {
        let ghost f = raw_fields_view(raw);
        let RawSourceMap {
            version: _,
            file,
            sources,
            source_root,
            sources_content,
            names,
            mappings,
            ignore_list,
            sections: _,
        } = raw;
        let sources_vec = match sources {
            Some(v) => v,
            None => {
                let v: Vec<Option<String>> = Vec::new();
                proof {
                    assert(v.deep_view() =~= raw_sources_view(f.sources));
                }
                v
            },
        };
        let sources_joined = join_all_sources(&source_root, sources_vec);
        let slen = sources_joined.len();
        let ghost sources_spec = joined_sources(f.source_root, raw_sources_view(f.sources));
        proof {
            assert(sources_joined.deep_view() == sources_spec);
        }
        let scontent = match sources_content {
            Some(c) => {
                if c.len() != slen {
                    return Err(
                        ParseError::MismatchSourcesContent {
                            sources_len: #[verifier::truncate] (slen as u32),
                            sources_content_len: #[verifier::truncate] (c.len() as u32),
                        },
                    );
                }
                c
            },
            None => none_contents(slen),
        };
        let names_vec = match names {
            Some(v) => v,
            None => {
                let v: Vec<String> = Vec::new();
                proof {
                    assert(v.deep_view() =~= raw_names_view(f.names));
                }
                v
            },
        };
        if slen > u32::MAX as usize || names_vec.len() > u32::MAX as usize {
            return Err(ParseError::Syntax("a list is too large for 32-bit references".to_owned()));
        }
        let mappings_str: &str = match &mappings {
            Some(s) => s.as_str(),
            None => "",
        };
        proof {
            reveal_strlit("");
            assert(mappings_str.spec_bytes() =~= raw_mappings_bytes(f.mappings));
        }
        let decoder = crate::mappings::MappingsDecoder::new(mappings_str).items_count(
            slen as u32,
            names_vec.len() as u32,
        );
        match decoder.decode() {
            Err(e) => Err(e),
            Ok(ms) => {
                proof {
                    crate::mappings::lemma_decode_mappings_valid(
                        raw_mappings_bytes(f.mappings),
                        ItemsCount {
                            sources: sources_spec.len() as u32,
                            names: raw_names_view(f.names).len() as u32,
                        },
                        zero_state(),
                    );
                }
                let sm = BorrowedSourceMap {
                    file,
                    mappings: ms,
                    names: names_vec,
                    source_root,
                    sources: sources_joined,
                    sources_content: scontent,
                    ignore_list: match ignore_list {
                        Some(l) => l,
                        None => Vec::new(),
                    },
                };
                proof {
                    let d = process_map_spec(f)->Ok_0;
                    assert(sm@ =~~= d);
                }
                Ok(sm)
            },
        }
    }
}

impl BorrowedSourceMap {
    // To simplify the flattening logic of the index map, the following
    // strategies are adopted:
    // 1. drop the `file` attribute of the child maps,
    // 2. join each child map's `sourceRoot` onto its own `sources`,
    // 3. merge `sources`/`names` from the child maps without deduplication,
    //    shifting each child's references by the totals gathered before it.
    #[verifier::rlimit(80)]
    fn process_index_map(sections: Vec<RawSection>) -> (r: ParseResult<BorrowedSourceMap>)
        ensures
            match r {
                Ok(sm) => process_index_map_spec(raw_sections_view(sections@)) matches Ok(d) && sm@
                    == d && sm_valid(sm@),
                Err(e) => process_index_map_spec(raw_sections_view(sections@)) matches Err(d)
                    && sm_err_matches(e, d),
            },
    {
        let ghost secs = raw_sections_view(sections@);
        let mut mappings = Mappings::empty();
        let mut names: Vec<String> = Vec::new();
        let mut sources: Vec<Option<String>> = Vec::new();
        let mut sources_content: Vec<Option<String>> = Vec::new();
        let mut ignore_list: Vec<u32> = Vec::new();
        let mut last_end: Option<Position> = None;
        let n = sections.len();
        let mut k: usize = 0;
        proof {
            assert(names.deep_view() =~= Seq::<Seq<char>>::empty());
            assert(sources.deep_view() =~= Seq::<Option<Seq<char>>>::empty());
            assert(sources_content.deep_view() =~= Seq::<Option<Seq<char>>>::empty());
            assert(ignore_list@ =~= Seq::<u32>::empty());
            assert((SecState {
                names: names.deep_view(),
                sources: sources.deep_view(),
                contents: sources_content.deep_view(),
                ignore: ignore_list@,
                mappings: mappings@,
                last_end,
            }) =~~= sec_state_init());
        }
        while k < n
            invariant
                k <= n,
                n == sections@.len(),
                secs == raw_sections_view(sections@),
                secs.len() == n,
                process_sections_spec(secs, 0, sec_state_init()) == process_sections_spec(
                    secs,
                    k as int,
                    SecState {
                        names: names.deep_view(),
                        sources: sources.deep_view(),
                        contents: sources_content.deep_view(),
                        ignore: ignore_list@,
                        mappings: mappings@,
                        last_end,
                    },
                ),
                mappings_sorted(mappings@),
                crate::mappings::mappings_refs_valid(
                    mappings@,
                    ItemsCount {
                        sources: sources.deep_view().len() as u32,
                        names: names.deep_view().len() as u32,
                    },
                ),
                sources.deep_view().len() <= u32::MAX,
                names.deep_view().len() <= u32::MAX,
                sources_content@.len() == sources@.len(),
                match last_end {
                    Some(p) => forall|i: int|
                        0 <= i < mappings@.len() ==> pos_le(#[trigger] mappings@[i].generated, p),
                    None => mappings@.len() == 0,
                },
            decreases n - k,
        {
            let ghost st0 = SecState {
                names: names.deep_view(),
                sources: sources.deep_view(),
                contents: sources_content.deep_view(),
                ignore: ignore_list@,
                mappings: mappings@,
                last_end,
            };
            let sec = &sections[k];
            let ghost secd = secs[k as int];
            proof {
                assert(secd == raw_section_view(sections@[k as int]));
            }
            let cur = Position::new(sec.offset.line, sec.offset.column);
            let out_of_order = match &last_end {
                Some(p) => cur.lt(p),
                None => false,
            };
            if out_of_order {
                return Err(
                    ParseError::Section(
                        #[verifier::truncate] (k as u32),
                        Box::new(ParseError::MappingsUnordered),
                    ),
                );
            }
            match &sec.map {
                None => {
                    last_end = Some(cur);
                    proof {
                        assert(process_sections_spec(secs, k as int, st0)
                            == process_sections_spec(
                            secs,
                            k + 1,
                            SecState { last_end: Some(cur), ..st0 },
                        ));
                        assert((SecState {
                            names: names.deep_view(),
                            sources: sources.deep_view(),
                            contents: sources_content.deep_view(),
                            ignore: ignore_list@,
                            mappings: mappings@,
                            last_end,
                        }) =~~= (SecState { last_end: Some(cur), ..st0 }));
                    }
                },
                Some(bm) => {
                    let m: &RawSourceMap = &**bm;
                    let ghost md = raw_fields_view(*m);
                    proof {
                        assert(secd.map == Some(md));
                    }
                    let start_sources = sources.len();
                    let start_names = names.len();
                    match &m.sources {
                        Some(sl) => {
                            match &m.sources_content {
                                Some(c) => {
                                    if c.len() != sl.len() {
                                        return Err(
                                            ParseError::Section(
                                                #[verifier::truncate] (k as u32),
                                                Box::new(
                                                    ParseError::MismatchSourcesContent {
                                                        sources_len: #[verifier::truncate] (
                                                        sl.len() as u32),
                                                        sources_content_len: #[verifier::truncate] (
                                                        c.len() as u32),
                                                    },
                                                ),
                                            ),
                                        );
                                    }
                                    append_opt_strings(&mut sources_content, c.clone());
                                },
                                None => {
                                    append_opt_strings(&mut sources_content, none_contents(
                                        sl.len(),
                                    ));
                                },
                            }
                            let joined = join_all_sources(&m.source_root, sl.clone());
                            append_opt_strings(&mut sources, joined);
                        },
                        None => {
                            proof {
                                assert(sources.deep_view() =~= st0.sources + Seq::<
                                    Option<Seq<char>>,
                                >::empty());
                                assert(sources_content.deep_view() =~= st0.contents + Seq::<
                                    Option<Seq<char>>,
                                >::empty());
                            }
                        },
                    }
                    match &m.names {
                        Some(nv) => {
                            append_strings(&mut names, nv);
                        },
                        None => {
                            proof {
                                assert(names.deep_view() =~= st0.names + Seq::<
                                    Seq<char>,
                                >::empty());
                            }
                        },
                    }
                    let end_sources = sources.len();
                    match &m.ignore_list {
                        Some(il) => {
                            let ghost base_ignore = ignore_list@;
                            let mut i: usize = 0;
                            let in_count = il.len();
                            proof {
                                assert(il@.subrange(0, 0) =~= Seq::<u32>::empty());
                                assert(shifted_ignore(
                                    Seq::<u32>::empty(),
                                    start_sources as int,
                                    end_sources as int,
                                ) =~= Seq::<u32>::empty());
                                assert(ignore_list@ =~= base_ignore + shifted_ignore(
                                    il@.subrange(0, 0),
                                    start_sources as int,
                                    end_sources as int,
                                ));
                            }
                            while i < in_count
                                invariant
                                    i <= in_count,
                                    in_count == il@.len(),
                                    start_sources <= end_sources,
                                    start_sources <= u32::MAX,
                                    ignore_list@ == base_ignore + shifted_ignore(
                                        il@.subrange(0, i as int),
                                        start_sources as int,
                                        end_sources as int,
                                    ),
                                decreases in_count - i,
                            {
                                let id = il[i];
                                let fixed: u64 = start_sources as u64 + id as u64;
                                proof {
                                    assert(il@.subrange(0, i + 1).drop_last() =~= il@.subrange(
                                        0,
                                        i as int,
                                    ));
                                    assert(il@.subrange(0, i + 1).last() == il@[i as int]);
                                }
                                if fixed < end_sources as u64 {
                                    ignore_list.push(#[verifier::truncate] (fixed as u32));
                                    proof {
                                        assert(ignore_list@ =~= base_ignore + shifted_ignore(
                                            il@.subrange(0, i + 1),
                                            start_sources as int,
                                            end_sources as int,
                                        ));
                                    }
                                } else {
                                    proof {
                                        assert(ignore_list@ =~= base_ignore + shifted_ignore(
                                            il@.subrange(0, i + 1),
                                            start_sources as int,
                                            end_sources as int,
                                        ));
                                    }
                                }
                                i = i + 1;
                            }
                            proof {
                                assert(il@.subrange(0, in_count as int) =~= il@);
                            }
                        },
                        None => {
                            proof {
                                assert(ignore_list@ =~= st0.ignore + Seq::<u32>::empty());
                            }
                        },
                    }
                    if sources.len() > u32::MAX as usize || names.len() > u32::MAX as usize {
                        return Err(
                            ParseError::Syntax(
                                "a list is too large for 32-bit references".to_owned(),
                            ),
                        );
                    }
                    let mappings_str: &str = match &m.mappings {
                        Some(ms) => ms.as_str(),
                        None => "",
                    };
                    proof {
                        reveal_strlit("");
                        assert(mappings_str.spec_bytes() =~= raw_mappings_bytes(md.mappings));
                    }
                    let decoder = crate::mappings::MappingsDecoder::new(mappings_str).items_count(
                        sources.len() as u32,
                        names.len() as u32,
                    ).state(
                        sec.offset.line,
                        sec.offset.column,
                        start_sources as u32,
                        start_names as u32,
                    );
                    let ghost prior = mappings@;
                    let ghost counts = ItemsCount {
                        sources: sources.deep_view().len() as u32,
                        names: names.deep_view().len() as u32,
                    };

                    let ghost init = decoder.spec_init();
                    proof {
                        assert(crate::mappings::mappings_refs_valid(prior, counts)) by {
                            assert forall|i: int| 0 <= i < prior.len() implies match #[trigger] prior[i].source {
                                Some(si) => si.id < counts.sources && match prior[i].name {
                                    Some(nid) => nid < counts.names,
                                    None => true,
                                },
                                None => true,
                            } by {
                                assert(crate::mappings::mappings_refs_valid(
                                    prior,
                                    ItemsCount {
                                        sources: st0.sources.len() as u32,
                                        names: st0.names.len() as u32,
                                    },
                                ));
                            }
                        }
                        assert forall|i: int| 0 <= i < prior.len() implies pos_le(
                            #[trigger] prior[i].generated,
                            crate::mappings::pos_of(init),
                        ) by {
                            match last_end {
                                Some(p) => {
                                    assert(pos_le(prior[i].generated, p));
                                    assert(pos_le(p, cur));
                                },
                                None => {},
                            }
                        }
                        crate::mappings::lemma_decode_into_valid(
                            raw_mappings_bytes(md.mappings),
                            counts,
                            init,
                            prior,
                        );
                    }
                    match decoder.decode_into(&mut mappings) {
                        Err(e) => {
                            return Err(
                                ParseError::Section(#[verifier::truncate] (k as u32), Box::new(e)),
                            );
                        },
                        Ok(_) => {},
                    }
                    let mlen = mappings.len();
                    if mlen > 0 {
                        last_end = Some(mappings.get(mlen - 1).generated());
                        proof {
                            assert forall|i: int| 0 <= i < mappings@.len() implies pos_le(
                                #[trigger] mappings@[i].generated,
                                mappings@[mappings@.len() - 1].generated,
                            ) by {}
                        }
                    } else {
                        last_end = None;
                    }
                    proof {
                        let st1 = SecState {
                            names: names.deep_view(),
                            sources: sources.deep_view(),
                            contents: sources_content.deep_view(),
                            ignore: ignore_list@,
                            mappings: mappings@,
                            last_end,
                        };
                        assert(process_sections_spec(secs, k as int, st0)
                            == process_sections_spec(secs, k + 1, st1));
                    }
                },
            }
            k = k + 1;
        }
        let sm = BorrowedSourceMap {
            file: None,
            mappings,
            names,
            source_root: None,
            sources,
            sources_content,
            ignore_list,
        };
        proof {
            match process_index_map_spec(secs) {
                Ok(d) => {
                    assert(sm@ =~~= d);
                },
                Err(_) => {},
            }
        }
        Ok(sm)
    }
}

impl BorrowedSourceMap {
    /// Assembles a source map from its parsed fields: only version 3 is
    /// accepted; a document with `sections` is an index map and is
    /// flattened, any other is a plain map.
    pub fn from_raw(raw: RawSourceMap) -> (r: ParseResult<Self>)
        ensures
            match r {
                Ok(sm) => from_raw_spec(raw_doc_view(raw)) matches Ok(d) && sm@ == d && sm_valid(
                    sm@,
                ),
                Err(e) => from_raw_spec(raw_doc_view(raw)) matches Err(d) && sm_err_matches(e, d),
            },
    {
        let version_ok = match &raw.version {
            Some(v) => *v == 3,
            None => false,
        };
        if !version_ok {
            return Err(ParseError::UnsupportedFormat);
        }
        let has_sections = raw.sections.is_some();
        if has_sections {
            let RawSourceMap { sections, .. } = raw;
            match sections {
                Some(secs) => Self::process_index_map(secs),
                None => Err(ParseError::UnsupportedFormat),
            }
        } else {
            Self::process_map(raw)
        }
    }

    /// Creates a new `BorrowedSourceMap` from a JSON buffer.
    ///
    /// The buffer is mutable to let the JSON reader replace escape
    /// sequences in place. Bytes that are not well-formed JSON, and
    /// documents whose fields do not have the format's shapes, are syntax
    /// errors; any other document yields exactly what assembling its fields
    /// yields, and whatever comes back is a valid aggregate.
    pub fn from_slice(json: &mut Vec<u8>) -> (r: ParseResult<Self>)
        ensures
            parse_outcome(old(json)@, r),
    {
        match crate::sourcemap::json::parse_json(json) {
            Err(msg) => Err(ParseError::Syntax(msg)),
            Ok(v) => match crate::sourcemap::json::raw_from_value(&v) {
                Err(e) => Err(e),
                Ok(raw) => Self::from_raw(raw),
            },
        }
    }

    /// Creates a new `BorrowedSourceMap` from a JSON string. The result is
    /// exactly what [`Self::from_slice`] yields on the string's bytes.
    pub fn from_str(json: &str) -> (r: ParseResult<Self>)
        ensures
            parse_outcome(json.spec_bytes(), r),
    {
        let mut bytes = json.as_bytes_vec();
        Self::from_slice(&mut bytes)
    }
}

/// What parsing a byte buffer must yield: a syntax error exactly when the
/// bytes are not well-formed JSON or a field has the wrong shape; otherwise
/// exactly what assembling the document's fields yields, every success a
/// valid aggregate. Both byte-level entry points and the string entry point
/// promise this of the same bytes, so they agree with one another.
pub open spec fn parse_outcome(bytes: Seq<u8>, r: ParseResult<BorrowedSourceMap>) -> bool {
    match r {
        Ok(sm) => {
            &&& sm_valid(sm@)
            &&& crate::sourcemap::json::parsed_doc(bytes) matches Some(j)
            &&& crate::sourcemap::json::parse_raw_spec(j) matches Ok(rd)
            &&& from_raw_spec(rd) == Ok::<_, SmErr>(sm@)
        },
        Err(e) => {
            ||| (crate::sourcemap::json::parsed_doc(bytes) is None && e matches ParseError::Syntax(
                _,
            ))
            ||| {
                &&& crate::sourcemap::json::parsed_doc(bytes) matches Some(j)
                &&& crate::sourcemap::json::parse_raw_spec(j) is Err
                &&& e matches ParseError::Syntax(_)
            }
            ||| {
                &&& crate::sourcemap::json::parsed_doc(bytes) matches Some(j)
                &&& crate::sourcemap::json::parse_raw_spec(j) matches Ok(rd)
                &&& from_raw_spec(rd) matches Err(d)
                &&& sm_err_matches(e, d)
            }
        },
    }
}

/// The bytes that a string becomes inside a serialized JSON document:
/// quoted and escaped. They depend on the characters alone.
pub uninterp spec fn json_quoted(s: Seq<char>) -> Seq<u8>;

/// Relies on simd_json_derive's `Serialize` for `str`: writes the string as
/// a JSON string literal, quoted and escaped; what it appends is valid
/// UTF-8 (the escapes are ASCII and the rest is the string's own encoding).
/// Writing into a byte vector cannot fail.
#[verifier::external_body]
fn write_json_string(out: &mut Vec<u8>, s: &str)
    ensures
        final(out)@ == old(out)@ + json_quoted(s@),
        vstd::utf8::valid_utf8(final(out)@.skip(old(out)@.len() as int)),
{
    let _ = s.json_write(out);
}

/// The decimal digits of a number.
pub open spec fn dec_digits(n: nat) -> Seq<u8>
    decreases n,
{
    if n < 10 {
        seq![(48 + n) as u8]
    } else {
        dec_digits(n / 10) + seq![(48 + n % 10) as u8]
    }
}

/// Writes a number in decimal.
fn write_u32_decimal(out: &mut Vec<u8>, n: u32)
    ensures
        final(out)@ == old(out)@ + dec_digits(n as nat),
    decreases n,
{
    if n < 10 {
        out.push(48 + (n as u8));
        proof {
            assert(out@ =~= old(out)@ + dec_digits(n as nat));
        }
    } else {
        write_u32_decimal(out, n / 10);
        out.push(48 + ((n % 10) as u8));
        proof {
            assert(out@ =~= old(out)@ + dec_digits(n as nat));
        }
    }
}

/// The serialized items of a JSON array of nullable strings, from index `i`.
pub open spec fn ser_opt_items(v: Seq<Option<Seq<char>>>, i: int) -> Seq<u8>
    decreases v.len() - i,
{
    if i < 0 || i >= v.len() {
        Seq::empty()
    } else {
        (if i > 0 {
            ",".spec_bytes()
        } else {
            Seq::empty()
        }) + (match v[i] {
            Some(x) => json_quoted(x),
            None => "null".spec_bytes(),
        }) + ser_opt_items(v, i + 1)
    }
}

/// A JSON array of nullable strings.
pub open spec fn ser_opt_str_array(v: Seq<Option<Seq<char>>>) -> Seq<u8> {
    "[".spec_bytes() + ser_opt_items(v, 0) + "]".spec_bytes()
}

/// The serialized items of a JSON array of strings, from index `i`.
pub open spec fn ser_str_items(v: Seq<Seq<char>>, i: int) -> Seq<u8>
    decreases v.len() - i,
{
    if i < 0 || i >= v.len() {
        Seq::empty()
    } else {
        (if i > 0 {
            ",".spec_bytes()
        } else {
            Seq::empty()
        }) + json_quoted(v[i]) + ser_str_items(v, i + 1)
    }
}

/// A JSON array of strings.
pub open spec fn ser_str_array(v: Seq<Seq<char>>) -> Seq<u8> {
    "[".spec_bytes() + ser_str_items(v, 0) + "]".spec_bytes()
}

/// The serialized items of a JSON array of numbers, from index `i`.
pub open spec fn ser_u32_items(v: Seq<u32>, i: int) -> Seq<u8>
    decreases v.len() - i,
{
    if i < 0 || i >= v.len() {
        Seq::empty()
    } else {
        (if i > 0 {
            ",".spec_bytes()
        } else {
            Seq::empty()
        }) + dec_digits(v[i] as nat) + ser_u32_items(v, i + 1)
    }
}

/// A JSON array of numbers.
pub open spec fn ser_u32_array(v: Seq<u32>) -> Seq<u8> {
    "[".spec_bytes() + ser_u32_items(v, 0) + "]".spec_bytes()
}

/// The serialized JSON document of a source map: always version 3, its
/// `file` when present, the source and content lists, the name list when
/// not empty, the encoded mapping string, and the ignore list when not
/// empty. `sourceRoot` was already folded into the sources when the map was
/// assembled, so it is not written.
pub open spec fn ser_bytes(d: SourceMapData) -> Seq<u8> {
    "{\"version\":3".spec_bytes() + (match d.file {
        Some(f) => ",\"file\":".spec_bytes() + json_quoted(f),
        None => Seq::empty(),
    }) + ",\"sources\":".spec_bytes() + ser_opt_str_array(d.sources)
        + ",\"sourcesContent\":".spec_bytes() + ser_opt_str_array(d.sources_content) + (
    if d.names.len() > 0 {
        ",\"names\":".spec_bytes() + ser_str_array(d.names)
    } else {
        Seq::empty()
    }) + ",\"mappings\":\"".spec_bytes() + crate::mappings::encode_spec(d.mappings)
        + "\"".spec_bytes() + (if d.ignore_list.len() > 0 {
        ",\"ignoreList\":".spec_bytes() + ser_u32_array(d.ignore_list)
    } else {
        Seq::empty()
    }) + "}".spec_bytes()
}


/// Bytes below 0x80: what the separators, base64 characters and decimal
/// digits of the format all are.
pub open spec fn ascii_bytes(s: Seq<u8>) -> bool {
    forall|i: int| 0 <= i < s.len() ==> #[trigger] s[i] < 128
}

/// ASCII stretches concatenate to ASCII stretches.
proof fn lemma_ascii_concat(a: Seq<u8>, b: Seq<u8>)
    requires
        ascii_bytes(a),
        ascii_bytes(b),
    ensures
        ascii_bytes(a + b),
{
    assert forall|i: int| 0 <= i < (a + b).len() implies #[trigger] (a + b)[i] < 128 by {
        if i < a.len() {
            assert((a + b)[i] == a[i]);
        } else {
            assert((a + b)[i] == b[i - a.len()]);
        }
    }
}

/// Bytes below 0x80 form valid UTF-8 on their own.
proof fn lemma_ascii_valid_utf8(s: Seq<u8>)
    requires
        ascii_bytes(s),
    ensures
        vstd::utf8::valid_utf8(s),
{
    assert(s.subrange(0, 0) =~= Seq::<u8>::empty());
    assert(vstd::utf8::partial_valid_utf8(s, 0));
    assert forall|i: int|
        0 <= 0 <= i < s.len() <= s.len() implies #[trigger] vstd::utf8::is_leading_byte_width_1(
        s[i],
    ) by {
        assert(s[i] < 128);
    }
    vstd::utf8::partial_valid_utf8_extend_ascii_block(s, 0, s.len() as int);
    assert(s.subrange(0, s.len() as int) =~= s);
}

/// Every byte a VLQ group writes is a base64 character, hence ASCII.
proof fn lemma_vlq_digits_ascii(n: nat)
    ensures
        ascii_bytes(crate::vlq::vlq_digits(n)),
    decreases n,
{
    if n < 32 {
        assert(ascii_bytes(seq![crate::vlq::b64_char(n)]));
    } else {
        lemma_vlq_digits_ascii(n / 32);
        assert(ascii_bytes(seq![crate::vlq::b64_char(n % 32 + 32)]));
        lemma_ascii_concat(
            seq![crate::vlq::b64_char(n % 32 + 32)],
            crate::vlq::vlq_digits(n / 32),
        );
    }
}

/// Every byte the mapping-string encoder writes is ASCII: separators and
/// base64 characters.
proof fn lemma_encode_from_ascii(s: Seq<MappingData>, k: int, st: crate::mappings::EncState)
    ensures
        ascii_bytes(crate::mappings::encode_from(s, k, st)),
    decreases s.len() - k,
{
    if 0 <= k < s.len() {
        let step = crate::mappings::encode_entry(s[k], st, k == 0);
        lemma_encode_from_ascii(s, k + 1, step.1);
        let m = s[k];
        let sep = if m.generated.line != st.line {
            crate::mappings::seq_repeat(crate::splitter::SEMICOLON, (m.generated.line - st.line) as nat)
        } else if k != 0 {
            seq![crate::splitter::COMMA]
        } else {
            Seq::<u8>::empty()
        };
        assert(ascii_bytes(sep));
        let col_prev: u32 = if m.generated.line != st.line {
            0
        } else {
            st.col
        };
        lemma_vlq_digits_ascii(crate::vlq::zigzag_encode(m.generated.column - col_prev));
        lemma_ascii_concat(sep, crate::vlq::vlq_encode_bytes(col_prev, m.generated.column));
        let head = sep + crate::vlq::vlq_encode_bytes(col_prev, m.generated.column);
        match m.source {
            Some(si) => {
                lemma_vlq_digits_ascii(crate::vlq::zigzag_encode(si.id - st.sid));
                lemma_vlq_digits_ascii(crate::vlq::zigzag_encode(si.position.line - st.sline));
                lemma_vlq_digits_ascii(crate::vlq::zigzag_encode(si.position.column - st.scol));
                lemma_ascii_concat(
                    crate::vlq::vlq_encode_bytes(st.sid, si.id),
                    crate::vlq::vlq_encode_bytes(st.sline, si.position.line),
                );
                lemma_ascii_concat(
                    crate::vlq::vlq_encode_bytes(st.sid, si.id) + crate::vlq::vlq_encode_bytes(
                        st.sline,
                        si.position.line,
                    ),
                    crate::vlq::vlq_encode_bytes(st.scol, si.position.column),
                );
                let sbytes = crate::vlq::vlq_encode_bytes(st.sid, si.id)
                    + crate::vlq::vlq_encode_bytes(st.sline, si.position.line)
                    + crate::vlq::vlq_encode_bytes(st.scol, si.position.column);
                lemma_ascii_concat(head, sbytes);
                match m.name {
                    Some(nid) => {
                        lemma_vlq_digits_ascii(crate::vlq::zigzag_encode(nid - st.nid));
                        lemma_ascii_concat(
                            head + sbytes,
                            crate::vlq::vlq_encode_bytes(st.nid, nid),
                        );
                        lemma_ascii_concat(
                            head + sbytes + crate::vlq::vlq_encode_bytes(st.nid, nid),
                            crate::mappings::encode_from(s, k + 1, step.1),
                        );
                    },
                    None => {
                        lemma_ascii_concat(
                            head + sbytes,
                            crate::mappings::encode_from(s, k + 1, step.1),
                        );
                    },
                }
            },
            None => {
                lemma_ascii_concat(head, crate::mappings::encode_from(s, k + 1, step.1));
            },
        }
    }
}

/// Every byte of a decimal number is a digit, hence ASCII.
proof fn lemma_dec_digits_ascii(n: nat)
    ensures
        ascii_bytes(dec_digits(n)),
    decreases n,
{
    if n < 10 {
        assert(ascii_bytes(seq![(48 + n) as u8]));
    } else {
        lemma_dec_digits_ascii(n / 10);
        assert(ascii_bytes(seq![(48 + n % 10) as u8]));
        lemma_ascii_concat(dec_digits(n / 10), seq![(48 + n % 10) as u8]);
    }
}

/// A serialized array of nullable strings is valid UTF-8, given that every
/// quoted string is.
proof fn lemma_ser_opt_items_valid(v: Seq<Option<Seq<char>>>, i: int)
    requires
        forall|j: int|
            0 <= j < v.len() ==> match #[trigger] v[j] {
                Some(x) => vstd::utf8::valid_utf8(json_quoted(x)),
                None => true,
            },
    ensures
        vstd::utf8::valid_utf8(ser_opt_items(v, i)),
    decreases v.len() - i,
{
    broadcast use vstd::utf8::encode_utf8_valid_utf8;

    assert(vstd::utf8::valid_utf8(Seq::<u8>::empty()));
    if 0 <= i < v.len() {
        lemma_ser_opt_items_valid(v, i + 1);
        let sep = if i > 0 {
            ",".spec_bytes()
        } else {
            Seq::<u8>::empty()
        };
        let item = match v[i] {
            Some(x) => json_quoted(x),
            None => "null".spec_bytes(),
        };
        vstd::utf8::valid_utf8_concat(sep, item);
        vstd::utf8::valid_utf8_concat(sep + item, ser_opt_items(v, i + 1));
    }
}

/// A serialized array of strings is valid UTF-8, given that every quoted
/// string is.
proof fn lemma_ser_str_items_valid(v: Seq<Seq<char>>, i: int)
    requires
        forall|j: int| 0 <= j < v.len() ==> vstd::utf8::valid_utf8(json_quoted(#[trigger] v[j])),
    ensures
        vstd::utf8::valid_utf8(ser_str_items(v, i)),
    decreases v.len() - i,
{
    broadcast use vstd::utf8::encode_utf8_valid_utf8;

    assert(vstd::utf8::valid_utf8(Seq::<u8>::empty()));
    if 0 <= i < v.len() {
        lemma_ser_str_items_valid(v, i + 1);
        let sep = if i > 0 {
            ",".spec_bytes()
        } else {
            Seq::<u8>::empty()
        };
        vstd::utf8::valid_utf8_concat(sep, json_quoted(v[i]));
        vstd::utf8::valid_utf8_concat(sep + json_quoted(v[i]), ser_str_items(v, i + 1));
    }
}

/// A serialized array of numbers is valid UTF-8.
proof fn lemma_ser_u32_items_valid(v: Seq<u32>, i: int)
    ensures
        vstd::utf8::valid_utf8(ser_u32_items(v, i)),
    decreases v.len() - i,
{
    broadcast use vstd::utf8::encode_utf8_valid_utf8;

    assert(vstd::utf8::valid_utf8(Seq::<u8>::empty()));
    if 0 <= i < v.len() {
        lemma_ser_u32_items_valid(v, i + 1);
        lemma_dec_digits_ascii(v[i] as nat);
        lemma_ascii_valid_utf8(dec_digits(v[i] as nat));
        let sep = if i > 0 {
            ",".spec_bytes()
        } else {
            Seq::<u8>::empty()
        };
        vstd::utf8::valid_utf8_concat(sep, dec_digits(v[i] as nat));
        vstd::utf8::valid_utf8_concat(sep + dec_digits(v[i] as nat), ser_u32_items(v, i + 1));
    }
}

/// A serialized source map is valid UTF-8, given that every quoted string in
/// it is - which `write_json_string` asserts of each one it writes.
proof fn lemma_ser_bytes_valid(d: SourceMapData)
    requires
        match d.file {
            Some(f) => vstd::utf8::valid_utf8(json_quoted(f)),
            None => true,
        },
        forall|j: int|
            0 <= j < d.sources.len() ==> match #[trigger] d.sources[j] {
                Some(x) => vstd::utf8::valid_utf8(json_quoted(x)),
                None => true,
            },
        forall|j: int|
            0 <= j < d.sources_content.len() ==> match #[trigger] d.sources_content[j] {
                Some(x) => vstd::utf8::valid_utf8(json_quoted(x)),
                None => true,
            },
        forall|j: int|
            0 <= j < d.names.len() ==> vstd::utf8::valid_utf8(json_quoted(#[trigger] d.names[j])),
    ensures
        vstd::utf8::valid_utf8(ser_bytes(d)),
{
    broadcast use vstd::utf8::encode_utf8_valid_utf8;

    assert(vstd::utf8::valid_utf8(Seq::<u8>::empty()));
    lemma_ser_opt_items_valid(d.sources, 0);
    lemma_ser_opt_items_valid(d.sources_content, 0);
    lemma_ser_str_items_valid(d.names, 0);
    lemma_ser_u32_items_valid(d.ignore_list, 0);
    vstd::utf8::valid_utf8_concat("[".spec_bytes(), ser_opt_items(d.sources, 0));
    vstd::utf8::valid_utf8_concat(
        "[".spec_bytes() + ser_opt_items(d.sources, 0),
        "]".spec_bytes(),
    );
    vstd::utf8::valid_utf8_concat("[".spec_bytes(), ser_opt_items(d.sources_content, 0));
    vstd::utf8::valid_utf8_concat(
        "[".spec_bytes() + ser_opt_items(d.sources_content, 0),
        "]".spec_bytes(),
    );
    vstd::utf8::valid_utf8_concat("[".spec_bytes(), ser_str_items(d.names, 0));
    vstd::utf8::valid_utf8_concat("[".spec_bytes() + ser_str_items(d.names, 0), "]".spec_bytes());
    vstd::utf8::valid_utf8_concat("[".spec_bytes(), ser_u32_items(d.ignore_list, 0));
    vstd::utf8::valid_utf8_concat(
        "[".spec_bytes() + ser_u32_items(d.ignore_list, 0),
        "]".spec_bytes(),
    );
    lemma_encode_from_ascii(
        d.mappings,
        0,
        crate::mappings::EncState { line: 0, col: 0, sid: 0, sline: 0, scol: 0, nid: 0 },
    );
    lemma_ascii_valid_utf8(crate::mappings::encode_spec(d.mappings));
    let p1 = "{\"version\":3".spec_bytes();
    let pfile = match d.file {
        Some(f) => ",\"file\":".spec_bytes() + json_quoted(f),
        None => Seq::<u8>::empty(),
    };
    match d.file {
        Some(f) => {
            vstd::utf8::valid_utf8_concat(",\"file\":".spec_bytes(), json_quoted(f));
        },
        None => {},
    }
    let p2 = p1 + pfile;
    vstd::utf8::valid_utf8_concat(p1, pfile);
    let p3 = p2 + ",\"sources\":".spec_bytes();
    vstd::utf8::valid_utf8_concat(p2, ",\"sources\":".spec_bytes());
    let p4 = p3 + ser_opt_str_array(d.sources);
    vstd::utf8::valid_utf8_concat(p3, ser_opt_str_array(d.sources));
    let p5 = p4 + ",\"sourcesContent\":".spec_bytes();
    vstd::utf8::valid_utf8_concat(p4, ",\"sourcesContent\":".spec_bytes());
    let p6 = p5 + ser_opt_str_array(d.sources_content);
    vstd::utf8::valid_utf8_concat(p5, ser_opt_str_array(d.sources_content));
    let pnames = if d.names.len() > 0 {
        ",\"names\":".spec_bytes() + ser_str_array(d.names)
    } else {
        Seq::<u8>::empty()
    };
    if d.names.len() > 0 {
        vstd::utf8::valid_utf8_concat(",\"names\":".spec_bytes(), ser_str_array(d.names));
    }
    let p7 = p6 + pnames;
    vstd::utf8::valid_utf8_concat(p6, pnames);
    let p8 = p7 + ",\"mappings\":\"".spec_bytes();
    vstd::utf8::valid_utf8_concat(p7, ",\"mappings\":\"".spec_bytes());
    let p9 = p8 + crate::mappings::encode_spec(d.mappings);
    vstd::utf8::valid_utf8_concat(p8, crate::mappings::encode_spec(d.mappings));
    let p10 = p9 + "\"".spec_bytes();
    vstd::utf8::valid_utf8_concat(p9, "\"".spec_bytes());
    let pignore = if d.ignore_list.len() > 0 {
        ",\"ignoreList\":".spec_bytes() + ser_u32_array(d.ignore_list)
    } else {
        Seq::<u8>::empty()
    };
    if d.ignore_list.len() > 0 {
        vstd::utf8::valid_utf8_concat(
            ",\"ignoreList\":".spec_bytes(),
            ser_u32_array(d.ignore_list),
        );
    }
    let p11 = p10 + pignore;
    vstd::utf8::valid_utf8_concat(p10, pignore);
    vstd::utf8::valid_utf8_concat(p11, "}".spec_bytes());
    assert(ser_bytes(d) == p11 + "}".spec_bytes());
}

/// Writes a JSON array of nullable strings.
fn write_opt_str_array(out: &mut Vec<u8>, v: &Vec<Option<String>>)
    ensures
        final(out)@ == old(out)@ + ser_opt_str_array(v.deep_view()),
        forall|j: int|
            0 <= j < v.deep_view().len() ==> match #[trigger] v.deep_view()[j] {
                Some(x) => vstd::utf8::valid_utf8(json_quoted(x)),
                None => true,
            },
{
    let ghost dv = v.deep_view();
    out.extend_from_slice("[".as_bytes());
    let ghost base = out@;
    let n = v.len();
    let mut i: usize = 0;
    proof {
        assert(out@ =~= base + ser_opt_items(dv, 0).subrange(0, 0));
    }
    while i < n
        invariant
            i <= n,
            n == v.len(),
            dv == v.deep_view(),
            base + ser_opt_items(dv, 0) == out@ + ser_opt_items(dv, i as int),
            forall|j: int|
                0 <= j < i ==> match #[trigger] dv[j] {
                    Some(x) => vstd::utf8::valid_utf8(json_quoted(x)),
                    None => true,
                },
        decreases n - i,
    {
        let ghost pre = out@;
        if i > 0 {
            out.extend_from_slice(",".as_bytes());
        }
        let ghost mid = out@;
        match &v[i] {
            Some(x) => {
                write_json_string(out, x.as_str());
                proof {
                    assert(x@ == dv[i as int]->Some_0);
                    assert(out@.skip(mid.len() as int) =~= json_quoted(x@));
                }
            },
            None => {
                out.extend_from_slice("null".as_bytes());
            },
        }
        proof {
            assert(ser_opt_items(dv, i as int) == (if i > 0 {
                ",".spec_bytes()
            } else {
                Seq::<u8>::empty()
            }) + (match dv[i as int] {
                Some(x) => json_quoted(x),
                None => "null".spec_bytes(),
            }) + ser_opt_items(dv, i + 1));
            assert(base + ser_opt_items(dv, 0) =~= out@ + ser_opt_items(dv, i + 1));
        }
        i = i + 1;
    }
    proof {
        assert(ser_opt_items(dv, n as int) =~= Seq::<u8>::empty());
        assert(out@ =~= base + ser_opt_items(dv, 0));
    }
    out.extend_from_slice("]".as_bytes());
    proof {
        assert(out@ =~= old(out)@ + ser_opt_str_array(dv));
    }
}

/// Writes a JSON array of strings.
fn write_str_array(out: &mut Vec<u8>, v: &Vec<String>)
    ensures
        final(out)@ == old(out)@ + ser_str_array(v.deep_view()),
        forall|j: int|
            0 <= j < v.deep_view().len() ==> vstd::utf8::valid_utf8(
                json_quoted(#[trigger] v.deep_view()[j]),
            ),
{
    let ghost dv = v.deep_view();
    out.extend_from_slice("[".as_bytes());
    let ghost base = out@;
    let n = v.len();
    let mut i: usize = 0;
    while i < n
        invariant
            i <= n,
            n == v.len(),
            dv == v.deep_view(),
            base + ser_str_items(dv, 0) == out@ + ser_str_items(dv, i as int),
            forall|j: int|
                0 <= j < i ==> vstd::utf8::valid_utf8(json_quoted(#[trigger] dv[j])),
        decreases n - i,
    {
        if i > 0 {
            out.extend_from_slice(",".as_bytes());
        }
        let ghost mid = out@;
        write_json_string(out, v[i].as_str());
        proof {
            assert(v@[i as int]@ == dv[i as int]);
            assert(out@.skip(mid.len() as int) =~= json_quoted(dv[i as int]));
            assert(ser_str_items(dv, i as int) == (if i > 0 {
                ",".spec_bytes()
            } else {
                Seq::<u8>::empty()
            }) + json_quoted(dv[i as int]) + ser_str_items(dv, i + 1));
            assert(base + ser_str_items(dv, 0) =~= out@ + ser_str_items(dv, i + 1));
        }
        i = i + 1;
    }
    proof {
        assert(ser_str_items(dv, n as int) =~= Seq::<u8>::empty());
        assert(out@ =~= base + ser_str_items(dv, 0));
    }
    out.extend_from_slice("]".as_bytes());
    proof {
        assert(out@ =~= old(out)@ + ser_str_array(dv));
    }
}

/// Writes a JSON array of numbers.
fn write_u32_array(out: &mut Vec<u8>, v: &Vec<u32>)
    ensures
        final(out)@ == old(out)@ + ser_u32_array(v@),
{
    let ghost dv = v@;
    out.extend_from_slice("[".as_bytes());
    let ghost base = out@;
    let n = v.len();
    let mut i: usize = 0;
    while i < n
        invariant
            i <= n,
            n == v.len(),
            dv == v@,
            base + ser_u32_items(dv, 0) == out@ + ser_u32_items(dv, i as int),
        decreases n - i,
    {
        if i > 0 {
            out.extend_from_slice(",".as_bytes());
        }
        write_u32_decimal(out, v[i]);
        proof {
            assert(ser_u32_items(dv, i as int) == (if i > 0 {
                ",".spec_bytes()
            } else {
                Seq::<u8>::empty()
            }) + dec_digits(dv[i as int] as nat) + ser_u32_items(dv, i + 1));
            assert(base + ser_u32_items(dv, 0) =~= out@ + ser_u32_items(dv, i + 1));
        }
        i = i + 1;
    }
    proof {
        assert(ser_u32_items(dv, n as int) =~= Seq::<u8>::empty());
        assert(out@ =~= base + ser_u32_items(dv, 0));
    }
    out.extend_from_slice("]".as_bytes());
    proof {
        assert(out@ =~= old(out)@ + ser_u32_array(dv));
    }
}

impl BorrowedSourceMap {
    /// Serializes the map as a JSON document onto `out`.
    #[verifier::rlimit(100)]
    pub fn write(&self, out: &mut Vec<u8>)
        requires
            mappings_sorted(self@.mappings),
        ensures
            final(out)@ == old(out)@ + ser_bytes(self@),
            match self@.file {
                Some(f) => vstd::utf8::valid_utf8(json_quoted(f)),
                None => true,
            },
            forall|j: int|
                0 <= j < self@.sources.len() ==> match #[trigger] self@.sources[j] {
                    Some(x) => vstd::utf8::valid_utf8(json_quoted(x)),
                    None => true,
                },
            forall|j: int|
                0 <= j < self@.sources_content.len() ==> match #[trigger] self@.sources_content[j] {
                    Some(x) => vstd::utf8::valid_utf8(json_quoted(x)),
                    None => true,
                },
            forall|j: int|
                0 <= j < self@.names.len() ==> vstd::utf8::valid_utf8(
                    json_quoted(#[trigger] self@.names[j]),
                ),
    {
        let ghost d = self@;
        out.extend_from_slice("{\"version\":3".as_bytes());
        let ghost p1 = "{\"version\":3".spec_bytes();
        proof {
            assert(out@ =~= old(out)@ + p1);
        }
        match &self.file {
            Some(f) => {
                out.extend_from_slice(",\"file\":".as_bytes());
                let ghost mid = out@;
                write_json_string(out, f.as_str());
                proof {
                    assert(out@.skip(mid.len() as int) =~= json_quoted(f@));
                }
            },
            None => {},
        }
        let ghost p2 = p1 + (match d.file {
            Some(f) => ",\"file\":".spec_bytes() + json_quoted(f),
            None => Seq::empty(),
        });
        proof {
            assert(out@ =~= old(out)@ + p2);
        }
        out.extend_from_slice(",\"sources\":".as_bytes());
        write_opt_str_array(out, &self.sources);
        out.extend_from_slice(",\"sourcesContent\":".as_bytes());
        write_opt_str_array(out, &self.sources_content);
        let ghost p3 = p2 + ",\"sources\":".spec_bytes() + ser_opt_str_array(d.sources)
            + ",\"sourcesContent\":".spec_bytes() + ser_opt_str_array(d.sources_content);
        proof {
            assert(out@ =~= old(out)@ + p3);
        }
        if self.names.len() > 0 {
            out.extend_from_slice(",\"names\":".as_bytes());
            write_str_array(out, &self.names);
        }
        let ghost p4 = p3 + (if d.names.len() > 0 {
            ",\"names\":".spec_bytes() + ser_str_array(d.names)
        } else {
            Seq::empty()
        });
        proof {
            assert(out@ =~= old(out)@ + p4);
        }
        out.extend_from_slice(",\"mappings\":\"".as_bytes());
        self.mappings.encode(out);
        out.extend_from_slice("\"".as_bytes());
        let ghost p5 = p4 + ",\"mappings\":\"".spec_bytes() + crate::mappings::encode_spec(
            d.mappings,
        ) + "\"".spec_bytes();
        proof {
            assert(out@ =~= old(out)@ + p5);
        }
        if self.ignore_list.len() > 0 {
            out.extend_from_slice(",\"ignoreList\":".as_bytes());
            write_u32_array(out, &self.ignore_list);
        }
        out.extend_from_slice("}".as_bytes());
        proof {
            let p6 = p5 + (if d.ignore_list.len() > 0 {
                ",\"ignoreList\":".spec_bytes() + ser_u32_array(d.ignore_list)
            } else {
                Seq::empty()
            }) + "}".spec_bytes();
            assert(out@ =~= old(out)@ + p6);
            assert(p6 =~= ser_bytes(d));
            assert(out@ =~= old(out)@ + ser_bytes(self@));
        }
    }

    /// Serializes the map as a JSON document in a fresh buffer.
    pub fn to_vec(&self) -> (r: Vec<u8>)
        requires
            mappings_sorted(self@.mappings),
        ensures
            r@ == ser_bytes(self@),
            vstd::utf8::valid_utf8(r@),
    {
        let mut v: Vec<u8> = Vec::new();
        self.write(&mut v);
        proof {
            assert(v@ =~= ser_bytes(self@));
            lemma_ser_bytes_valid(self@);
        }
        v
    }

    /// Serializes the map as a JSON string: exactly the characters the
    /// serialized document decodes to.
    pub fn to_string(&self) -> (r: String)
        requires
            mappings_sorted(self@.mappings),
        ensures
            r@ == vstd::utf8::decode_utf8(ser_bytes(self@)),
    {
        let v = self.to_vec();
        crate::text::bytes_to_string(v.as_slice())
    }
}
} // verus!
