use crate::error::ParseError;
use crate::error::ParseResult;
use crate::error::ValidateError;
use crate::error::ValidateResult;
use crate::mapping::Mapping;
use crate::mapping::MappingData;
use crate::mapping::Position;
use crate::mapping::pos_le;
use vstd::multiset::Multiset;
use vstd::prelude::*;
use vstd::string::StringSliceAdditionalSpecFns;

verus! {

/// The number of sources and names a mapping may refer to.
#[derive(Debug, Copy, Clone)]
pub struct ItemsCount {
    pub sources: u32,
    pub names: u32,
}

impl ItemsCount {
    pub fn new(sources: u32, names: u32) -> (r: Self)
        ensures
            r == (ItemsCount { sources, names }),
    {
        Self { sources, names }
    }
}

/// The mapping entries are ordered by their generated positions.
pub open spec fn mappings_sorted(s: Seq<MappingData>) -> bool {
    forall|i: int, j: int|
        0 <= i <= j < s.len() ==> pos_le(#[trigger] s[i].generated, #[trigger] s[j].generated)
}

/// Every source or name reference of the entries is in bounds. A name
/// reference counts only when the entry also has a source, as in the format.
pub open spec fn mappings_refs_valid(s: Seq<MappingData>, counts: ItemsCount) -> bool {
    forall|i: int| 0 <= i < s.len() ==> match #[trigger] s[i].source {
        Some(si) => si.id < counts.sources && match s[i].name {
            Some(nid) => nid < counts.names,
            None => true,
        },
        None => true,
    }
}

/// A valid table: ordered, with every reference in bounds.
pub open spec fn mappings_valid(s: Seq<MappingData>, counts: ItemsCount) -> bool {
    mappings_sorted(s) && mappings_refs_valid(s, counts)
}

/// The first violation that a scan of the entries reports, in table order,
/// checking each entry's ordering before its source and then its name
/// reference; None when the table is valid.
pub open spec fn validate_from(
    s: Seq<MappingData>,
    k: int,
    last: Position,
    counts: ItemsCount,
) -> Option<ValidateError>
    decreases s.len() - k,
{
    if k < 0 || k >= s.len() {
        None
    } else {
        let m = s[k];
        if !pos_le(last, m.generated) {
            Some(ValidateError::MappingsUnordered)
        } else {
            let rest = validate_from(s, k + 1, m.generated, counts);
            match m.source {
                Some(si) => if si.id >= counts.sources {
                    Some(ValidateError::UnknownSourceReference(si.id))
                } else {
                    match m.name {
                        Some(nid) => if nid >= counts.names {
                            Some(ValidateError::UnknownNameReference(nid))
                        } else {
                            rest
                        },
                        None => rest,
                    }
                },
                None => rest,
            }
        }
    }
}

/// The first violation of the whole table, or None when it is valid.
pub open spec fn validate_spec(s: Seq<MappingData>, counts: ItemsCount) -> Option<ValidateError> {
    validate_from(s, 0, Position { line: 0, column: 0 }, counts)
}

/// The scan reports no violation exactly when the table is valid from its
/// point of view: ordered after `last`, references in bounds.
proof fn lemma_validate_from_characterizes(
    s: Seq<MappingData>,
    k: int,
    last: Position,
    counts: ItemsCount,
)
    requires
        0 <= k <= s.len(),
    ensures
        validate_from(s, k, last, counts) is None <==> ((forall|i: int, j: int|
            k <= i <= j < s.len() ==> pos_le(#[trigger] s[i].generated, #[trigger] s[j].generated))
            && (forall|i: int|
            k <= i < s.len() ==> pos_le(last, #[trigger] s[i].generated)) && (forall|i: int|
            k <= i < s.len() ==> match #[trigger] s[i].source {
                Some(si) => si.id < counts.sources && match s[i].name {
                    Some(nid) => nid < counts.names,
                    None => true,
                },
                None => true,
            })),
    decreases s.len() - k,
{
    if k < s.len() {
        lemma_validate_from_characterizes(s, k + 1, s[k].generated, counts);
    }
}

/// `validate_spec` reports no violation exactly on valid tables.
pub proof fn lemma_validate_spec_valid(s: Seq<MappingData>, counts: ItemsCount)
    ensures
        validate_spec(s, counts) is None <==> mappings_valid(s, counts),
{
    lemma_validate_from_characterizes(s, 0, Position { line: 0, column: 0 }, counts);
    if mappings_valid(s, counts) {
        assert forall|i: int| 0 <= i < s.len() implies pos_le(
            Position { line: 0, column: 0 },
            #[trigger] s[i].generated,
        ) by {}
    }
}

/// `Mappings` is a collection of [Mapping] entries. Its mathematical value is
/// the sequence of its entries' values.
#[derive(Debug, Clone)]
pub struct Mappings(pub(crate) Vec<Mapping>);

impl View for Mappings {
    type V = Seq<MappingData>;

    closed spec fn view(&self) -> Seq<MappingData> {
        self.0.deep_view()
    }
}

impl Mappings {
    /// The number of entries.
    pub fn len(&self) -> (r: usize)
        ensures
            r == self@.len(),
    {
        self.0.len()
    }

    /// The entry at `index`.
    pub fn get(&self, index: usize) -> (r: &Mapping)
        requires
            index < self@.len(),
        ensures
            r@ == self@[index as int],
    {
        &self.0[index]
    }

    /// The entries as a vector, for the search routines.
    pub(crate) fn vec(&self) -> (r: &Vec<Mapping>)
        ensures
            r.deep_view() == self@,
    {
        &self.0
    }

    /// An empty table.
    pub(crate) fn empty() -> (r: Self)
        ensures
            r@ == Seq::<MappingData>::empty(),
    {
        let r = Mappings(Vec::new());
        proof {
            assert(r@ =~= Seq::<MappingData>::empty());
        }
        r
    }

    /// Creates a new `Mappings` from a vec of [Mapping] entries.
    ///
    /// The entries will be sorted by their generated positions to ensure the
    /// data is valid.
    pub fn new(raw: Vec<Mapping>) -> (r: Self)
        ensures
            mappings_sorted(r@),
            r@.to_multiset() == raw.deep_view().to_multiset(),
    {
        let mut v = Mappings(raw);
        v.sort();
        v
    }

    /// Creates a new `Mappings` from a vec of [Mapping] entries without any
    /// check or sorting.
    ///
    /// The caller must ensure that the entries are ordered by generated
    /// position before anything is looked up: lookups expect an ordered
    /// table and are only promised to be right on one. `validate` tells the
    /// orders apart.
    pub fn new_unchecked(raw: Vec<Mapping>) -> (r: Self)
        ensures
            r@ == raw.deep_view(),
    {
        Mappings(raw)
    }

    /// Provides mutable access to the internal vec of [Mapping] entries.
    ///
    /// The caller must keep the entries ordered by generated position, or
    /// re-sort and re-validate before anything is looked up.
    pub fn inner_mut(&mut self) -> (r: &mut Vec<Mapping>)
        ensures
            r.deep_view() == old(self)@,
            final(self)@ == final(r).deep_view(),
    {
        &mut self.0
    }

    /// Sorts mapping entries by their generated positions to ensure the data
    /// is valid.
    pub fn sort(&mut self)
        ensures
            mappings_sorted(final(self)@),
            final(self)@.to_multiset() == old(self)@.to_multiset(),
    {
        let n = self.0.len();
        let ghost orig = self@;
        if n <= 1 {
            proof {
                assert(mappings_sorted(self@));
            }
            return ;
        }
        let mut i: usize = 1;
        while i < n
            invariant
                1 <= i <= n,
                n == self.0.len(),
                self@.to_multiset() == orig.to_multiset(),
                forall|p: int, q: int|
                    0 <= p <= q < i ==> pos_le(
                        #[trigger] self@[p].generated,
                        #[trigger] self@[q].generated,
                    ),
            decreases n - i,
        {
            let mut j: usize = i;
            while j > 0
                invariant
                    0 <= j <= i < n,
                    n == self.0.len(),
                    self@.to_multiset() == orig.to_multiset(),
                    forall|p: int, q: int|
                        0 <= p <= q <= i && q != j && p != j ==> pos_le(
                            #[trigger] self@[p].generated,
                            #[trigger] self@[q].generated,
                        ),
                    forall|q: int|
                        j < q <= i ==> pos_le(
                            self@[j as int].generated,
                            #[trigger] self@[q].generated,
                        ),
                ensures
                    n == self.0.len(),
                    self@.to_multiset() == orig.to_multiset(),
                    forall|p: int, q: int|
                        0 <= p <= q <= i ==> pos_le(
                            #[trigger] self@[p].generated,
                            #[trigger] self@[q].generated,
                        ),
                decreases j,
            {
                let prev = self.0[j - 1];
                let curm = self.0[j];
                if curm.generated().lt(&prev.generated()) {
                    let ghost before = self@;
                    self.0[j - 1] = curm;
                    self.0[j] = prev;
                    proof {
                        assert(self@ =~= before.update(j - 1, before[j as int]).update(
                            j as int,
                            before[j - 1],
                        ));
                        lemma_swap_multiset(before, j - 1, j as int);
                    }
                    j = j - 1;
                } else {
                    proof {
                        assert(pos_le(self@[j - 1].generated, self@[j as int].generated));
                        assert forall|p: int, q: int| 0 <= p <= q <= i implies pos_le(
                            #[trigger] self@[p].generated,
                            #[trigger] self@[q].generated,
                        ) by {
                            if q == j && p < q {
                                assert(pos_le(self@[p].generated, self@[j - 1].generated));
                            }
                            if p == j && q > p {
                                assert(pos_le(self@[j as int].generated, self@[q].generated));
                            }
                        }
                    }
                    break ;
                }
            }
            i = i + 1;
        }
    }
}

/// Swapping two entries of a sequence keeps its multiset of entries.
proof fn lemma_swap_multiset(s: Seq<MappingData>, i: int, j: int)
    requires
        0 <= i < j < s.len(),
    ensures
        s.update(i, s[j]).update(j, s[i]).to_multiset() == s.to_multiset(),
{
    broadcast use vstd::seq_lib::lemma_multiset_commutative, vstd::seq_lib::group_to_multiset_ensures, vstd::multiset::group_multiset_axioms;

    let a = s.subrange(0, i);
    let mid = s.subrange(i + 1, j);
    let b = s.subrange(j + 1, s.len() as int);
    let t = s.update(i, s[j]).update(j, s[i]);
    assert(s =~= a + seq![s[i]] + mid + seq![s[j]] + b);
    assert(t =~= a + seq![s[j]] + mid + seq![s[i]] + b);
    assert(seq![s[i]].to_multiset() =~= Multiset::empty().insert(s[i])) by {
        assert(seq![s[i]] =~= Seq::empty().push(s[i]));
    }
    assert(seq![s[j]].to_multiset() =~= Multiset::empty().insert(s[j])) by {
        assert(seq![s[j]] =~= Seq::empty().push(s[j]));
    }
    assert(s.to_multiset() =~= t.to_multiset());
}


/// The running state of the mapping-string decoder: the current generated
/// position and the running source, source-position and name counters.
pub ghost struct DecState {
    pub generated_line: u32,
    pub generated_col: u32,
    pub source_id: u32,
    pub source_line: u32,
    pub source_col: u32,
    pub name_id: u32,
}

/// The generated position a decoder state sits at.
pub open spec fn pos_of(st: DecState) -> Position {
    Position { line: st.generated_line, column: st.generated_col }
}

/// What decoding can report about one segment or token.
pub ghost enum DecErr {
    /// The segment is malformed: a bad character, a bad field count, or a
    /// value that does not fit its 32-bit field.
    Malformed(Seq<u8>),
    /// A negative generated-column delta.
    Unordered,
    /// A source reference out of bounds.
    UnknownSource(u32),
    /// A name reference out of bounds.
    UnknownName(u32),
}

/// Whether a reported `ParseError` says what the decoding fault `d` says.
/// A malformed segment's text is pinned only where the segment is valid
/// UTF-8, which it always is when it was cut out of a string.
pub open spec fn dec_err_matches(e: ParseError, d: DecErr) -> bool {
    match d {
        DecErr::Malformed(seg) => e matches ParseError::MappingMalformed(t) && (
        vstd::utf8::valid_utf8(seg) ==> t@ == vstd::utf8::decode_utf8(seg)),
        DecErr::Unordered => e == ParseError::MappingsUnordered,
        DecErr::UnknownSource(id) => e == ParseError::UnknownSourceReference(id),
        DecErr::UnknownName(id) => e == ParseError::UnknownNameReference(id),
    }
}

/// Decodes one segment against the running state: a 1-number segment moves
/// the generated column, a 4- or 5-number segment also moves the source (and
/// name) counters, each as a delta against the state. An empty segment is a
/// generated line without mappings and produces nothing. A negative generated
/// column delta is unordered; a reference out of its bound is unknown; any
/// other shape or overflow is malformed.
pub open spec fn dec_step(st: DecState, seg: Seq<u8>, counts: ItemsCount) -> Result<
    (DecState, Option<MappingData>),
    DecErr,
> {
    if seg.len() == 0 {
        Ok((st, None))
    } else {
        match crate::vlq::vlq_values(seg) {
            None => Err(DecErr::Malformed(seg)),
            Some(nums) => if nums[0] < 0 {
                Err(DecErr::Unordered)
            } else if st.generated_col + nums[0] > u32::MAX {
                Err(DecErr::Malformed(seg))
            } else {
                let col = (st.generated_col + nums[0]) as u32;
                if nums.len() == 1 {
                    Ok(
                        (
                            DecState { generated_col: col, ..st },
                            Some(
                                MappingData {
                                    generated: Position { line: st.generated_line, column: col },
                                    source: None,
                                    name: None,
                                },
                            ),
                        ),
                    )
                } else {
                    let sid = st.source_id + nums[1];
                    if sid < 0 || sid > u32::MAX {
                        Err(DecErr::Malformed(seg))
                    } else if sid >= counts.sources {
                        Err(DecErr::UnknownSource(sid as u32))
                    } else {
                        let sline = st.source_line + nums[2];
                        let scol = st.source_col + nums[3];
                        if sline < 0 || sline > u32::MAX || scol < 0 || scol > u32::MAX {
                            Err(DecErr::Malformed(seg))
                        } else {
                            let st1 = DecState {
                                generated_col: col,
                                source_id: sid as u32,
                                source_line: sline as u32,
                                source_col: scol as u32,
                                ..st
                            };
                            let si = crate::mapping::SourceInfo {
                                id: sid as u32,
                                position: Position { line: sline as u32, column: scol as u32 },
                            };
                            if nums.len() == 4 {
                                Ok(
                                    (
                                        st1,
                                        Some(
                                            MappingData {
                                                generated: Position {
                                                    line: st.generated_line,
                                                    column: col,
                                                },
                                                source: Some(si),
                                                name: None,
                                            },
                                        ),
                                    ),
                                )
                            } else {
                                let nid = st.name_id + nums[4];
                                if nid < 0 || nid > u32::MAX {
                                    Err(DecErr::Malformed(seg))
                                } else if nid >= counts.names {
                                    Err(DecErr::UnknownName(nid as u32))
                                } else {
                                    Ok(
                                        (
                                            DecState { name_id: nid as u32, ..st1 },
                                            Some(
                                                MappingData {
                                                    generated: Position {
                                                        line: st.generated_line,
                                                        column: col,
                                                    },
                                                    source: Some(si),
                                                    name: Some(nid as u32),
                                                },
                                            ),
                                        ),
                                    )
                                }
                            }
                        }
                    }
                }
            },
        }
    }
}

/// Moves the state to the next generated line when the token said so.
pub open spec fn dec_apply_flag(st: DecState, flag: bool) -> Option<DecState> {
    if !flag {
        Some(st)
    } else if st.generated_line == u32::MAX {
        None
    } else {
        Some(
            DecState {
                generated_line: (st.generated_line + 1) as u32,
                generated_col: 0,
                ..st
            },
        )
    }
}

/// Decodes the tokens from index `k` on, with `acc` the mappings produced so
/// far, and yields all produced mappings with the final generated line.
pub open spec fn dec_fold(
    tokens: Seq<(Seq<u8>, bool)>,
    k: int,
    st: DecState,
    acc: Seq<MappingData>,
    counts: ItemsCount,
) -> Result<(Seq<MappingData>, u32), DecErr>
    decreases tokens.len() - k,
{
    if k < 0 || k >= tokens.len() {
        Ok((acc, st.generated_line))
    } else {
        let (seg, flag) = tokens[k];
        match dec_step(st, seg, counts) {
            Err(e) => Err(e),
            Ok((st1, m)) => match dec_apply_flag(st1, flag) {
                None => Err(DecErr::Malformed(seg)),
                Some(st2) => dec_fold(
                    tokens,
                    k + 1,
                    st2,
                    match m {
                        Some(md) => acc.push(md),
                        None => acc,
                    },
                    counts,
                ),
            },
        }
    }
}

/// The mappings the decoder has appended when it stops: all of them when
/// every token decodes, else exactly those produced before the failure. A
/// mapping already produced by the failing token's segment stays only when
/// what failed was the line advance after it.
pub open spec fn dec_fold_trace(
    tokens: Seq<(Seq<u8>, bool)>,
    k: int,
    st: DecState,
    acc: Seq<MappingData>,
    counts: ItemsCount,
) -> Seq<MappingData>
    decreases tokens.len() - k,
{
    if k < 0 || k >= tokens.len() {
        acc
    } else {
        let (seg, flag) = tokens[k];
        match dec_step(st, seg, counts) {
            Err(_) => acc,
            Ok((st1, m)) => {
                let acc2 = match m {
                    Some(md) => acc.push(md),
                    None => acc,
                };
                match dec_apply_flag(st1, flag) {
                    None => acc2,
                    Some(st2) => dec_fold_trace(tokens, k + 1, st2, acc2, counts),
                }
            },
        }
    }
}

/// When the table ends before the final generated line, a synthetic mapping
/// at column 0 of that line marks the end of the map, so that lookups on the
/// trailing line stay within the table.
pub open spec fn dec_fixup(ms: Seq<MappingData>, line: u32) -> Seq<MappingData> {
    if ms.len() > 0 && ms.last().generated.line != line {
        ms.push(
            MappingData { generated: Position { line, column: 0 }, source: None, name: None },
        )
    } else {
        ms
    }
}

/// What decoding a whole mapping string yields, starting from `init`.
pub open spec fn decode_mappings(src: Seq<u8>, counts: ItemsCount, init: DecState) -> Result<
    Seq<MappingData>,
    DecErr,
> {
    match dec_fold(crate::splitter::split_segments(src), 0, init, Seq::empty(), counts) {
        Ok((acc, line)) => Ok(dec_fixup(acc, line)),
        Err(e) => Err(e),
    }
}


impl Mappings {
    /// Re-checks the table: generated positions non-decreasing, every source
    /// id in bounds, every name id (when a source is present) in bounds.
    /// Reports the first violation in table order.
    pub(crate) fn validate(&self, items_count: ItemsCount) -> (r: ValidateResult<()>)
        ensures
            match r {
                Ok(_) => validate_spec(self@, items_count) is None && mappings_valid(
                    self@,
                    items_count,
                ),
                Err(e) => validate_spec(self@, items_count) == Some(e),
            },
    {
        let ghost s = self@;
        let mut last = Position::min();
        let mut k: usize = 0;
        let n = self.0.len();
        while k < n
            invariant
                k <= n,
                n == self.0.len(),
                s == self@,
                k > 0 ==> last == s[k - 1].generated,
                k == 0 ==> last == (Position { line: 0, column: 0 }),
                validate_spec(s, items_count) == validate_from(s, k as int, last, items_count),
            decreases n - k,
        {
            let m = &self.0[k];
            proof {
                assert(m@ == s[k as int]);
            }
            let pos = m.generated();
            if pos.lt(&last) {
                return Err(ValidateError::MappingsUnordered);
            }
            if let Some(si) = m.source_info() {
                if si.id >= items_count.sources {
                    return Err(ValidateError::UnknownSourceReference(si.id));
                }
                if let Some(nid) = m.name_info() {
                    if nid >= items_count.names {
                        return Err(ValidateError::UnknownNameReference(nid));
                    }
                }
            }
            proof {
                assert(validate_from(s, k as int, last, items_count) == validate_from(
                    s,
                    k + 1,
                    pos,
                    items_count,
                ));
            }
            last = pos;
            k = k + 1;
        }
        proof {
            lemma_validate_spec_valid(s, items_count);
        }
        Ok(())
    }
}

/// Decodes a mapping string against an items-count bound, optionally
/// starting from a prior state when an index-map section continues an
/// earlier one.
pub struct MappingsDecoder<'a> {
    source: &'a str,
    items_count: ItemsCount,
    /// (generated_line, generated_col, source_id, name_id)
    state: (u32, u32, u32, u32),
}

impl<'a> MappingsDecoder<'a> {
    /// The bytes of the mapping string.
    pub closed spec fn spec_source(&self) -> Seq<u8> {
        self.source.spec_bytes()
    }

    /// The items-count bound.
    pub closed spec fn spec_counts(&self) -> ItemsCount {
        self.items_count
    }

    /// The state decoding starts from.
    pub closed spec fn spec_init(&self) -> DecState {
        DecState {
            generated_line: self.state.0,
            generated_col: self.state.1,
            source_id: self.state.2,
            source_line: 0,
            source_col: 0,
            name_id: self.state.3,
        }
    }

    pub(crate) fn new(source: &'a str) -> (r: Self)
        ensures
            r.spec_source() == source.spec_bytes(),
            r.spec_counts() == (ItemsCount { sources: 0, names: 0 }),
            r.spec_init() == (DecState {
                generated_line: 0,
                generated_col: 0,
                source_id: 0,
                source_line: 0,
                source_col: 0,
                name_id: 0,
            }),
    {
        Self { source, items_count: ItemsCount::new(0, 0), state: (0, 0, 0, 0) }
    }

    pub(crate) fn items_count(self, sources: u32, names: u32) -> (r: Self)
        ensures
            r.spec_source() == self.spec_source(),
            r.spec_counts() == (ItemsCount { sources, names }),
            r.spec_init() == self.spec_init(),
    {
        Self { items_count: ItemsCount::new(sources, names), ..self }
    }

    pub(crate) fn state(self, generated_line: u32, generated_col: u32, source_id: u32, name_id: u32) -> (r:
        Self)
        ensures
            r.spec_source() == self.spec_source(),
            r.spec_counts() == self.spec_counts(),
            r.spec_init() == (DecState {
                generated_line,
                generated_col,
                source_id,
                source_line: 0,
                source_col: 0,
                name_id,
            }),
    {
        Self { state: (generated_line, generated_col, source_id, name_id), ..self }
    }

    /// Decodes the mapping string into a fresh table.
    pub(crate) fn decode(&self) -> (r: ParseResult<Mappings>)
        ensures
            match r {
                Ok(ms) => decode_mappings(self.spec_source(), self.spec_counts(), self.spec_init())
                    matches Ok(sp) && ms@ == sp,
                Err(e) => decode_mappings(self.spec_source(), self.spec_counts(), self.spec_init())
                    matches Err(d) && dec_err_matches(e, d),
            },
    {
        let mut mappings = Mappings::empty();
        match self.decode_into(&mut mappings) {
            Ok(_) => {
                proof {
                    let f = dec_fold(
                        crate::splitter::split_segments(self.spec_source()),
                        0,
                        self.spec_init(),
                        Seq::empty(),
                        self.spec_counts(),
                    );
                    match f {
                        Ok(p) => {
                            assert(Seq::<MappingData>::empty() + p.0 =~= p.0);
                        },
                        Err(_) => {},
                    }
                }
                Ok(mappings)
            },
            Err(e) => Err(e),
        }
    }

    /// Decodes the mapping string, appending to an existing table; the
    /// synthetic trailing-line mapping considers the whole table's last
    /// entry, so a continued table is extended exactly as one decoded whole.
    pub(crate) fn decode_into(&self, mappings: &mut Mappings) -> (r: ParseResult<()>)
        ensures
            match r {
                Ok(_) => dec_fold(
                    crate::splitter::split_segments(self.spec_source()),
                    0,
                    self.spec_init(),
                    Seq::empty(),
                    self.spec_counts(),
                ) matches Ok((acc, line)) && final(mappings)@ == dec_fixup(
                    old(mappings)@ + acc,
                    line,
                ),
                Err(e) => {
                    &&& dec_fold(
                        crate::splitter::split_segments(self.spec_source()),
                        0,
                        self.spec_init(),
                        Seq::empty(),
                        self.spec_counts(),
                    ) matches Err(d)
                    &&& dec_err_matches(e, d)
                    &&& final(mappings)@ == old(mappings)@ + dec_fold_trace(
                        crate::splitter::split_segments(self.spec_source()),
                        0,
                        self.spec_init(),
                        Seq::empty(),
                        self.spec_counts(),
                    )
                },
            },
    {
        let items_count = self.items_count;
        let ghost src = self.spec_source();
        let ghost toks = crate::splitter::split_segments(src);
        let ghost init = self.spec_init();

        let tokens = crate::splitter::split_tokens(self.source.as_bytes());

        let mut generated_line: u32 = self.state.0;
        let mut generated_col: u32 = self.state.1;
        let mut source_id: u32 = self.state.2;
        let mut name_id: u32 = self.state.3;
        let mut source_line: u32 = 0;
        let mut source_col: u32 = 0;

        let mut decoder = crate::vlq::VlqDecoder::new();
        let ghost orig = mappings@;
        let ghost mut acc: Seq<MappingData> = Seq::empty();

        let mut k: usize = 0;
        let n = tokens.len();
        proof {
            assert(Seq::<MappingData>::empty() + acc =~= acc);
            assert(mappings@ =~= orig + acc);
        }
        while k < n
            invariant
                k <= n,
                n == tokens@.len(),
                toks == crate::splitter::tokens_view(tokens@),
                toks == crate::splitter::split_segments(self.spec_source()),
                init == self.spec_init(),
                orig == old(mappings)@,
                toks.len() == n,
                items_count == self.spec_counts(),
                mappings@ == orig + acc,
                dec_fold(toks, 0, init, Seq::empty(), items_count) == dec_fold(
                    toks,
                    k as int,
                    DecState {
                        generated_line,
                        generated_col,
                        source_id,
                        source_line,
                        source_col,
                        name_id,
                    },
                    acc,
                    items_count,
                ),
                dec_fold_trace(toks, 0, init, Seq::empty(), items_count) == dec_fold_trace(
                    toks,
                    k as int,
                    DecState {
                        generated_line,
                        generated_col,
                        source_id,
                        source_line,
                        source_col,
                        name_id,
                    },
                    acc,
                    items_count,
                ),
            decreases n - k,
        {
            let ghost st0 = DecState {
                generated_line,
                generated_col,
                source_id,
                source_line,
                source_col,
                name_id,
            };
            let seg: &Vec<u8> = &tokens[k].0;
            let flag: bool = tokens[k].1;
            let ghost segs = seg@;
            proof {
                assert(toks[k as int] == (segs, flag));
            }
            if seg.len() > 0 {
                let nums = match decoder.decode_bytes(seg.as_slice()) {
                    Ok(v) => v,
                    Err(e) => {
                        proof {
                            assert(dec_step(st0, segs, items_count) == Err::<
                                (DecState, Option<MappingData>),
                                DecErr,
                            >(DecErr::Malformed(segs)));
                        }
                        return Err(e);
                    },
                };
                let ghost sp = crate::vlq::vlq_values(segs)->Some_0;
                proof {
                    assert(sp.len() == 1 || sp.len() == 4 || sp.len() == 5);
                    assert(nums@[0] as int == sp[0]);
                }
                if nums[0] < 0 {
                    return Err(ParseError::MappingsUnordered);
                }
                let col_i = match (generated_col as i64).checked_add(nums[0]) {
                    Some(c) => c,
                    None => {
                        return Err(
                            ParseError::MappingMalformed(crate::text::bytes_to_string(
                                seg.as_slice(),
                            )),
                        );
                    },
                };
                if col_i > u32::MAX as i64 {
                    return Err(
                        ParseError::MappingMalformed(crate::text::bytes_to_string(seg.as_slice())),
                    );
                }
                generated_col = col_i as u32;
                let mapping = if nums.len() == 1 {
                    Mapping::new(generated_line, generated_col)
                } else {
                    proof {
                        assert(sp.len() >= 4);
                        assert(nums@[1] as int == sp[1]);
                        assert(nums@[2] as int == sp[2]);
                        assert(nums@[3] as int == sp[3]);
                    }
                    let sid_i = match (source_id as i64).checked_add(nums[1]) {
                        Some(v) => v,
                        None => {
                            return Err(
                                ParseError::MappingMalformed(crate::text::bytes_to_string(
                                    seg.as_slice(),
                                )),
                            );
                        },
                    };
                    if sid_i < 0 || sid_i > u32::MAX as i64 {
                        return Err(
                            ParseError::MappingMalformed(crate::text::bytes_to_string(
                                seg.as_slice(),
                            )),
                        );
                    }
                    source_id = sid_i as u32;
                    if source_id >= items_count.sources {
                        return Err(ParseError::UnknownSourceReference(source_id));
                    }
                    let sline_i = match (source_line as i64).checked_add(nums[2]) {
                        Some(v) => v,
                        None => {
                            return Err(
                                ParseError::MappingMalformed(crate::text::bytes_to_string(
                                    seg.as_slice(),
                                )),
                            );
                        },
                    };
                    let scol_i = match (source_col as i64).checked_add(nums[3]) {
                        Some(v) => v,
                        None => {
                            return Err(
                                ParseError::MappingMalformed(crate::text::bytes_to_string(
                                    seg.as_slice(),
                                )),
                            );
                        },
                    };
                    if sline_i < 0 || sline_i > u32::MAX as i64 || scol_i < 0 || scol_i
                        > u32::MAX as i64 {
                        return Err(
                            ParseError::MappingMalformed(crate::text::bytes_to_string(
                                seg.as_slice(),
                            )),
                        );
                    }
                    source_line = sline_i as u32;
                    source_col = scol_i as u32;
                    let with_source = Mapping::new(generated_line, generated_col).with_source(
                        source_id,
                        source_line,
                        source_col,
                    );
                    if nums.len() == 5 {
                        proof {
                            assert(nums@[4] as int == sp[4]);
                        }
                        let nid_i = match (name_id as i64).checked_add(nums[4]) {
                            Some(v) => v,
                            None => {
                                return Err(
                                    ParseError::MappingMalformed(crate::text::bytes_to_string(
                                        seg.as_slice(),
                                    )),
                                );
                            },
                        };
                        if nid_i < 0 || nid_i > u32::MAX as i64 {
                            return Err(
                                ParseError::MappingMalformed(crate::text::bytes_to_string(
                                    seg.as_slice(),
                                )),
                            );
                        }
                        name_id = nid_i as u32;
                        if name_id >= items_count.names {
                            return Err(ParseError::UnknownNameReference(name_id));
                        }
                        with_source.with_name(name_id)
                    } else {
                        with_source
                    }
                };
                let ghost st1 = DecState {
                    generated_line,
                    generated_col,
                    source_id,
                    source_line,
                    source_col,
                    name_id,
                };
                proof {
                    assert(dec_step(st0, segs, items_count) == Ok::<_, DecErr>(
                        (st1, Some(mapping@)),
                    ));
                }
                self.push_mapping(mappings, mapping);
                proof {
                    acc = acc.push(mapping@);
                    assert(mappings@ =~= orig + acc);
                }
            }
            if flag {
                generated_line = match generated_line.checked_add(1) {
                    Some(l) => l,
                    None => {
                        return Err(
                            ParseError::MappingMalformed(crate::text::bytes_to_string(
                                seg.as_slice(),
                            )),
                        );
                    },
                };
                generated_col = 0;
            }
            k = k + 1;
        }
        proof {
            assert(dec_fold(
                toks,
                n as int,
                DecState {
                    generated_line,
                    generated_col,
                    source_id,
                    source_line,
                    source_col,
                    name_id,
                },
                acc,
                items_count,
            ) == Ok::<_, DecErr>((acc, generated_line)));
        }
        let m = mappings.0.len();
        if m > 0 {
            let last_line = mappings.0[m - 1].generated().line;
            if last_line != generated_line {
                self.push_mapping(mappings, Mapping::new(generated_line, 0));
            }
        }
        Ok(())
    }

    /// Appends one entry to the table being decoded.
    fn push_mapping(&self, mappings: &mut Mappings, m: Mapping)
        ensures
            final(mappings)@ == old(mappings)@.push(m@),
    {
        let ghost before = mappings@;
        mappings.0.push(m);
        proof {
            assert(mappings@ =~= before.push(m@));
        }
    }
}

/// The running state of the mapping-string encoder: the previous entry's
/// generated position and the running source, source-position and name
/// counters, against which deltas are written.
pub ghost struct EncState {
    pub line: u32,
    pub col: u32,
    pub sid: u32,
    pub sline: u32,
    pub scol: u32,
    pub nid: u32,
}

/// `count` copies of one byte.
pub open spec fn seq_repeat(b: u8, count: nat) -> Seq<u8> {
    Seq::new(count, |i: int| b)
}

/// The bytes that encode one entry after the previous one: semicolons for
/// each line advanced (resetting the column), a comma between entries of one
/// line, then the VLQ deltas of the column and of the source and name
/// references when present. A name is written only when the entry also has a
/// source.
pub open spec fn encode_entry(m: MappingData, st: EncState, first: bool) -> (Seq<u8>, EncState) {
    let sep = if m.generated.line != st.line {
        seq_repeat(crate::splitter::SEMICOLON, (m.generated.line - st.line) as nat)
    } else if !first {
        seq![crate::splitter::COMMA]
    } else {
        Seq::empty()
    };
    let col_prev: u32 = if m.generated.line != st.line {
        0
    } else {
        st.col
    };
    let head = sep + crate::vlq::vlq_encode_bytes(col_prev, m.generated.column);
    let st_gen = EncState { line: m.generated.line, col: m.generated.column, ..st };
    match m.source {
        None => (head, st_gen),
        Some(si) => {
            let sbytes = crate::vlq::vlq_encode_bytes(st.sid, si.id) + crate::vlq::vlq_encode_bytes(
                st.sline,
                si.position.line,
            ) + crate::vlq::vlq_encode_bytes(st.scol, si.position.column);
            let st_src = EncState {
                sid: si.id,
                sline: si.position.line,
                scol: si.position.column,
                ..st_gen
            };
            match m.name {
                None => (head + sbytes, st_src),
                Some(nid) => (
                    head + sbytes + crate::vlq::vlq_encode_bytes(st.nid, nid),
                    EncState { nid, ..st_src },
                ),
            }
        },
    }
}

/// The bytes that encode the entries from index `k` on.
pub open spec fn encode_from(s: Seq<MappingData>, k: int, st: EncState) -> Seq<u8>
    decreases s.len() - k,
{
    if k < 0 || k >= s.len() {
        Seq::empty()
    } else {
        let step = encode_entry(s[k], st, k == 0);
        step.0 + encode_from(s, k + 1, step.1)
    }
}

/// The mapping string of a table, as bytes.
pub open spec fn encode_spec(s: Seq<MappingData>) -> Seq<u8> {
    encode_from(s, 0, EncState { line: 0, col: 0, sid: 0, sline: 0, scol: 0, nid: 0 })
}

impl Mappings {
    /// Writes the table as a mapping string: the exact inverse walk of
    /// decoding, emitting each entry as VLQ deltas against the previous one.
    #[verifier::rlimit(60)]
    pub(crate) fn encode(&self, out: &mut Vec<u8>)
        requires
            mappings_sorted(self@),
        ensures
            final(out)@ == old(out)@ + encode_spec(self@),
    {
        let ghost s = self@;
        let n = self.0.len();
        let mut prev_line: u32 = 0;
        let mut prev_col: u32 = 0;
        let mut prev_sid: u32 = 0;
        let mut prev_sline: u32 = 0;
        let mut prev_scol: u32 = 0;
        let mut prev_nid: u32 = 0;
        let mut encoder = crate::vlq::VlqEncoder::new();
        let mut idx: usize = 0;
        proof {
            assert(old(out)@ + encode_spec(s) =~= out@ + encode_from(
                s,
                0,
                EncState { line: 0, col: 0, sid: 0, sline: 0, scol: 0, nid: 0 },
            ));
        }
        while idx < n
            invariant
                idx <= n,
                n == self.0.len(),
                s == self@,
                mappings_sorted(s),
                idx > 0 ==> prev_line == s[idx - 1].generated.line,
                idx == 0 ==> prev_line == 0 && prev_col == 0,
                old(out)@ + encode_spec(s) == out@ + encode_from(
                    s,
                    idx as int,
                    EncState {
                        line: prev_line,
                        col: prev_col,
                        sid: prev_sid,
                        sline: prev_sline,
                        scol: prev_scol,
                        nid: prev_nid,
                    },
                ),
            decreases n - idx,
        {
            let ghost st0 = EncState {
                line: prev_line,
                col: prev_col,
                sid: prev_sid,
                sline: prev_sline,
                scol: prev_scol,
                nid: prev_nid,
            };
            let ghost step = encode_entry(s[idx as int], st0, idx == 0);
            let ghost base = out@;
            let m = self.0[idx];
            let gen = m.generated();
            proof {
                assert(m@ == s[idx as int]);
                if idx > 0 {
                    assert(pos_le(s[idx - 1].generated, s[idx as int].generated));
                }
            }
            if gen.line != prev_line {
                prev_col = 0;
                let ghost start_line = prev_line;
                while gen.line != prev_line
                    invariant
                        start_line <= prev_line <= gen.line,
                        out@ == base + seq_repeat(
                            crate::splitter::SEMICOLON,
                            (prev_line - start_line) as nat,
                        ),
                    decreases gen.line - prev_line,
                {
                    let ghost outb = out@;
                    out.push(crate::splitter::SEMICOLON);
                    proof {
                        assert(out@ =~= base + seq_repeat(
                            crate::splitter::SEMICOLON,
                            (prev_line + 1 - start_line) as nat,
                        ));
                    }
                    prev_line = prev_line + 1;
                }
            } else {
                if idx != 0 {
                    out.push(crate::splitter::COMMA);
                    proof {
                        assert(out@ =~= base + seq![crate::splitter::COMMA]);
                    }
                }
            }
            let ghost after_sep = out@;
            encoder.encode(out, prev_col, gen.column);
            prev_col = gen.column;
            if let Some(si) = m.source_info() {
                encoder.encode(out, prev_sid, si.id);
                prev_sid = si.id;
                encoder.encode(out, prev_sline, si.position.line);
                prev_sline = si.position.line;
                encoder.encode(out, prev_scol, si.position.column);
                prev_scol = si.position.column;
                if let Some(nid) = m.name_info() {
                    encoder.encode(out, prev_nid, nid);
                    prev_nid = nid;
                }
            }
            proof {
                assert(out@ =~= base + step.0);
                assert(encode_from(s, idx as int, st0) == step.0 + encode_from(
                    s,
                    idx + 1,
                    step.1,
                ));
                assert(old(out)@ + encode_spec(s) =~= out@ + encode_from(s, idx + 1, step.1));
            }
            idx = idx + 1;
        }
        proof {
            assert(final(out)@ =~= old(out)@ + encode_spec(s));
        }
    }
}

/// Mappings produced earlier stay in the result: decoding only appends.
proof fn lemma_dec_fold_prepend(
    tokens: Seq<(Seq<u8>, bool)>,
    k: int,
    st: DecState,
    a: Seq<MappingData>,
    b: Seq<MappingData>,
    counts: ItemsCount,
)
    ensures
        match dec_fold(tokens, k, st, b, counts) {
            Ok(p) => dec_fold(tokens, k, st, a + b, counts) == Ok::<_, DecErr>(
                (a + p.0, p.1),
            ),
            Err(e) => dec_fold(tokens, k, st, a + b, counts) == Err::<
                (Seq<MappingData>, u32),
                _,
            >(e),
        },
    decreases tokens.len() - k,
{
    if 0 <= k < tokens.len() {
        let (seg, flag) = tokens[k];
        match dec_step(st, seg, counts) {
            Err(_) => {},
            Ok((st1, m)) => {
                match dec_apply_flag(st1, flag) {
                    None => {},
                    Some(st2) => {
                        match m {
                            Some(md) => {
                                assert(a + b.push(md) =~= (a + b).push(md));
                                lemma_dec_fold_prepend(tokens, k + 1, st2, a, b.push(md), counts);
                            },
                            None => {
                                lemma_dec_fold_prepend(tokens, k + 1, st2, a, b, counts);
                            },
                        }
                    },
                }
            },
        }
    }
}

/// Decoding keeps the table ordered and its references in bounds: each new
/// mapping sits at the running generated position, which never goes back.
proof fn lemma_dec_fold_valid(
    tokens: Seq<(Seq<u8>, bool)>,
    k: int,
    st: DecState,
    acc: Seq<MappingData>,
    counts: ItemsCount,
)
    requires
        mappings_sorted(acc),
        mappings_refs_valid(acc, counts),
        forall|i: int| 0 <= i < acc.len() ==> pos_le(#[trigger] acc[i].generated, pos_of(st)),
    ensures
        match dec_fold(tokens, k, st, acc, counts) {
            Ok(p) => {
                &&& mappings_sorted(p.0)
                &&& mappings_refs_valid(p.0, counts)
                &&& forall|i: int| 0 <= i < p.0.len() ==> #[trigger] p.0[i].generated.line <= p.1
            },
            Err(_) => true,
        },
    decreases tokens.len() - k,
{
    if k < 0 || k >= tokens.len() {
        assert forall|i: int| 0 <= i < acc.len() implies #[trigger] acc[i].generated.line
            <= st.generated_line by {
            assert(pos_le(acc[i].generated, pos_of(st)));
        }
    } else {
        let (seg, flag) = tokens[k];
        match dec_step(st, seg, counts) {
            Err(_) => {},
            Ok((st1, m)) => {
                match dec_apply_flag(st1, flag) {
                    None => {},
                    Some(st2) => {
                        let acc2 = match m {
                            Some(md) => acc.push(md),
                            None => acc,
                        };
                        assert(mappings_sorted(acc2) && mappings_refs_valid(acc2, counts)
                            && forall|i: int|
                            0 <= i < acc2.len() ==> pos_le(
                                #[trigger] acc2[i].generated,
                                pos_of(st2),
                            )) by {
                            assert(pos_le(pos_of(st), pos_of(st1)));
                            assert(pos_le(pos_of(st1), pos_of(st2)));
                            match m {
                                Some(md) => {
                                    assert(md.generated == pos_of(st1));
                                    assert forall|i: int, j: int|
                                        0 <= i <= j < acc2.len() implies pos_le(
                                        #[trigger] acc2[i].generated,
                                        #[trigger] acc2[j].generated,
                                    ) by {
                                        if j < acc.len() {
                                            assert(acc2[i] == acc[i] && acc2[j] == acc[j]);
                                        } else if i < acc.len() {
                                            assert(acc2[i] == acc[i]);
                                            assert(pos_le(acc[i].generated, pos_of(st)));
                                        }
                                    }
                                },
                                None => {},
                            }
                        }
                        lemma_dec_fold_valid(tokens, k + 1, st2, acc2, counts);
                    },
                }
            },
        }
    }
}

/// The synthetic trailing-line mapping keeps the table valid: it sits on a
/// strictly later line than every entry.
proof fn lemma_fixup_valid(ms: Seq<MappingData>, line: u32, counts: ItemsCount)
    requires
        mappings_sorted(ms),
        mappings_refs_valid(ms, counts),
        forall|i: int| 0 <= i < ms.len() ==> #[trigger] ms[i].generated.line <= line,
    ensures
        mappings_valid(dec_fixup(ms, line), counts),
{
    let r = dec_fixup(ms, line);
    if ms.len() > 0 && ms.last().generated.line != line {
        assert forall|i: int, j: int| 0 <= i <= j < r.len() implies pos_le(
            #[trigger] r[i].generated,
            #[trigger] r[j].generated,
        ) by {
            if j < ms.len() {
                assert(r[i] == ms[i] && r[j] == ms[j]);
            } else if i < ms.len() {
                assert(r[i] == ms[i]);
                assert(pos_le(ms[i].generated, ms[ms.len() - 1].generated));
            }
        }
        assert forall|i: int| 0 <= i < r.len() implies match #[trigger] r[i].source {
            Some(si) => si.id < counts.sources && match r[i].name {
                Some(nid) => nid < counts.names,
                None => true,
            },
            None => true,
        } by {
            if i < ms.len() {
                assert(r[i] == ms[i]);
            }
        }
    }
}

/// A table decoded onto a prior valid table is valid: ordered as a whole,
/// with every reference in bounds.
pub proof fn lemma_decode_into_valid(
    src: Seq<u8>,
    counts: ItemsCount,
    init: DecState,
    prior: Seq<MappingData>,
)
    requires
        mappings_sorted(prior),
        mappings_refs_valid(prior, counts),
        forall|i: int| 0 <= i < prior.len() ==> pos_le(#[trigger] prior[i].generated, pos_of(init)),
    ensures
        match dec_fold(crate::splitter::split_segments(src), 0, init, Seq::empty(), counts) {
            Ok(p) => mappings_valid(dec_fixup(prior + p.0, p.1), counts),
            Err(_) => true,
        },
{
    let toks = crate::splitter::split_segments(src);
    lemma_dec_fold_prepend(toks, 0, init, prior, Seq::empty(), counts);
    assert(prior + Seq::<MappingData>::empty() =~= prior);
    lemma_dec_fold_valid(toks, 0, init, prior, counts);
    match dec_fold(toks, 0, init, Seq::empty(), counts) {
        Ok(p) => {
            lemma_fixup_valid(prior + p.0, p.1, counts);
        },
        Err(_) => {},
    }
}

/// A freshly decoded table is valid: ordered, with references in bounds.
pub proof fn lemma_decode_mappings_valid(src: Seq<u8>, counts: ItemsCount, init: DecState)
    ensures
        match decode_mappings(src, counts, init) {
            Ok(ms) => mappings_valid(ms, counts),
            Err(_) => true,
        },
{
    lemma_decode_into_valid(src, counts, init, Seq::empty());
    match dec_fold(crate::splitter::split_segments(src), 0, init, Seq::empty(), counts) {
        Ok(p) => {
            assert(Seq::<MappingData>::empty() + p.0 =~= p.0);
        },
        Err(_) => {},
    }
}
} // verus!
