use vstd::prelude::*;

verus! {

/// `Position` represents a zero-based line and zero-based column in a file.
#[derive(Debug, Copy, Clone, Eq, PartialEq, Structural)]
pub struct Position {
    pub line: u32,
    pub column: u32,
}

/// Lexicographic order on (line, column).
pub open spec fn pos_le(a: Position, b: Position) -> bool {
    a.line < b.line || (a.line == b.line && a.column <= b.column)
}

impl Position {
    pub fn max() -> (r: Self)
        ensures
            r.line == u32::MAX,
            r.column == u32::MAX,
    {
        Self { line: u32::MAX, column: u32::MAX }
    }

    pub fn min() -> (r: Self)
        ensures
            r.line == 0,
            r.column == 0,
    {
        Self { line: 0, column: 0 }
    }

    pub fn new(line: u32, column: u32) -> (r: Self)
        ensures
            r.line == line,
            r.column == column,
    {
        Self { line, column }
    }

    /// Lexicographic comparison: `self <= other` by (line, column).
    pub fn le(&self, other: &Position) -> (r: bool)
        ensures
            r == pos_le(*self, *other),
    {
        self.line < other.line || (self.line == other.line && self.column <= other.column)
    }

    /// Strict lexicographic comparison.
    pub fn lt(&self, other: &Position) -> (r: bool)
        ensures
            r == (pos_le(*self, *other) && *self != *other),
    {
        self.line < other.line || (self.line == other.line && self.column < other.column)
    }
}

impl From<(u32, u32)> for Position {
    /// A `(line, column)` pair names the position it reads as.
    fn from(t: (u32, u32)) -> (r: Self) {
        Self { line: t.0, column: t.1 }
    }
}

impl vstd::std_specs::convert::FromSpecImpl<(u32, u32)> for Position {
    open spec fn obeys_from_spec() -> bool {
        true
    }

    open spec fn from_spec(t: (u32, u32)) -> Self {
        Position { line: t.0, column: t.1 }
    }
}

/// Presents a specific position in a specific source file.
#[derive(Debug, Clone, Copy, Eq, PartialEq, Structural)]
pub struct SourceInfo {
    pub id: u32,
    pub position: Position,
}

impl SourceInfo {
    pub fn new(id: u32, position: Position) -> (r: Self)
        ensures
            r.id == id,
            r.position == position,
    {
        Self { id, position }
    }
}

/// The reserved value that marks an absent packed field.
pub const MISSING_NUM: u32 = 0xFFFF_FFFF;

/// A fixed-width tuple of numbers packed as "present unless the first number
/// is the reserved sentinel value" (`MISSING_NUM`).
///
/// Legitimate field values never reach the sentinel, so the packing loses
/// nothing; `Mapping` relies on this to store its optional parts compactly.
/// Its mathematical value is the optional sequence of packed numbers.
#[derive(Debug, Clone, Copy, Eq, PartialEq)]
pub struct OptionNum<const N: usize> {
    vals: [u32; N],
}

impl<const N: usize> View for OptionNum<N> {
    type V = Option<Seq<u32>>;

    closed spec fn view(&self) -> Option<Seq<u32>> {
        if self.vals@[0] == MISSING_NUM {
            None
        } else {
            Some(self.vals@)
        }
    }
}

impl<const N: usize> OptionNum<N> {
    /// An absent tuple: every slot holds the sentinel.
    pub fn missing() -> (r: Self)
        ensures
            N >= 1 ==> r@ is None,
    {
        Self { vals: [MISSING_NUM; N] }
    }

    /// Packs the given numbers.
    pub(crate) fn new(v: [u32; N]) -> (r: Self)
        requires
            N >= 1,
        ensures
            v@[0] != MISSING_NUM ==> r@ == Some(v@),
            v@[0] == MISSING_NUM ==> r@ is None,
    {
        Self { vals: v }
    }

    /// Returns the packed numbers unless the tuple is absent.
    pub(crate) fn get(&self) -> (r: Option<[u32; N]>)
        requires
            N >= 1,
        ensures
            match r {
                Some(v) => self@ == Some(v@),
                None => self@ is None,
            },
    {
        if self.is_missing() {
            None
        } else {
            Some(self.vals)
        }
    }

    /// Tests the sentinel in the first slot.
    pub(crate) fn is_missing(&self) -> (r: bool)
        requires
            N >= 1,
        ensures
            r == (self@ is None),
    {
        self.vals[0] == MISSING_NUM
    }
}

/// The mathematical value of a `Mapping`: a generated position, an optional
/// source reference, and an optional name reference.
pub ghost struct MappingData {
    pub generated: Position,
    pub source: Option<SourceInfo>,
    pub name: Option<u32>,
}

/// Presents an item of the `mappings`: a generated position, an optional
/// source reference, and an optional name reference.
///
/// Lines and columns start at 0. See [Position].
#[derive(Debug, Clone, Copy, Eq, PartialEq)]
pub struct Mapping {
    generated: Position,
    // [source_id, source_line, source_col]
    source: OptionNum<3>,
    // [name_id]
    name: OptionNum<1>,
}

impl View for Mapping {
    type V = MappingData;

    open spec fn view(&self) -> MappingData {
        MappingData {
            generated: self.spec_generated(),
            source: self.spec_source_info(),
            name: self.spec_name_info(),
        }
    }
}

impl DeepView for Mapping {
    type V = MappingData;

    open spec fn deep_view(&self) -> MappingData {
        self.view()
    }
}

impl Mapping {
    /// The generated position, in spec code.
    pub closed spec fn spec_generated(&self) -> Position {
        self.generated
    }

    /// The source reference, in spec code.
    pub closed spec fn spec_source_info(&self) -> Option<SourceInfo> {
        match self.source@ {
            Some(v) => Some(
                SourceInfo { id: v[0], position: Position { line: v[1], column: v[2] } },
            ),
            None => None,
        }
    }

    /// The name reference, in spec code.
    pub closed spec fn spec_name_info(&self) -> Option<u32> {
        match self.name@ {
            Some(v) => Some(v[0]),
            None => None,
        }
    }

    pub fn new(generated_line: u32, generated_col: u32) -> (r: Self)
        ensures
            r@ == (MappingData {
                generated: Position { line: generated_line, column: generated_col },
                source: None,
                name: None,
            }),
    {
        Self {
            generated: Position { line: generated_line, column: generated_col },
            source: OptionNum::missing(),
            name: OptionNum::missing(),
        }
    }

    /// Attaches a source reference.
    ///
    /// The packed representation reserves `MISSING_NUM` for "absent", so a
    /// `source_id` equal to it reads back as absent.
    pub fn with_source(self, source_id: u32, source_line: u32, source_col: u32) -> (r: Self)
        ensures
            r@.generated == self@.generated,
            r@.name == self@.name,
            source_id != MISSING_NUM ==> r@.source == Some(
                SourceInfo {
                    id: source_id,
                    position: Position { line: source_line, column: source_col },
                },
            ),
            source_id == MISSING_NUM ==> r@.source is None,
    {
        Self { source: OptionNum::new([source_id, source_line, source_col]), ..self }
    }

    /// Attaches a name reference.
    ///
    /// The packed representation reserves `MISSING_NUM` for "absent", so a
    /// `name_id` equal to it reads back as absent.
    pub fn with_name(self, name_id: u32) -> (r: Self)
        ensures
            r@.generated == self@.generated,
            r@.source == self@.source,
            name_id != MISSING_NUM ==> r@.name == Some(name_id),
            name_id == MISSING_NUM ==> r@.name is None,
    {
        Self { name: OptionNum::new([name_id]), ..self }
    }

    /// Returns the generated position of the mapping.
    pub fn generated(&self) -> (r: Position)
        ensures
            r == self@.generated,
    {
        self.generated
    }

    /// Returns the source information if available.
    pub fn source_info(&self) -> (r: Option<SourceInfo>)
        ensures
            r == self@.source,
    {
        match self.source.get() {
            Some(v) => Some(SourceInfo::new(v[0], Position::new(v[1], v[2]))),
            None => None,
        }
    }

    /// Checks if the mapping has source information.
    pub fn has_source(&self) -> (r: bool)
        ensures
            r == (self@.source is Some),
    {
        !self.source.is_missing()
    }

    /// Returns the name information if available.
    ///
    /// Note that in a mapping, name information will only be available if the
    /// source information is present.
    pub fn name_info(&self) -> (r: Option<u32>)
        ensures
            r == self@.name,
    {
        match self.name.get() {
            Some(v) => Some(v[0]),
            None => None,
        }
    }

    /// Checks if the mapping has name information.
    pub fn has_name(&self) -> (r: bool)
        ensures
            r == (self@.name is Some),
    {
        !self.name.is_missing()
    }
}

} // verus!
