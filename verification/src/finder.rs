use crate::mapping::Mapping;
use crate::mapping::MappingData;
use crate::mapping::Position;
use crate::mapping::pos_le;
use crate::mappings::Mappings;
use crate::mappings::mappings_sorted;
use vstd::prelude::*;

verus! {

/// How many entries of the table lie at or before the position `p`. In a
/// sorted table these entries form a prefix, so this count also names the
/// index one past the closest preceding entry.
pub open spec fn count_le(s: Seq<MappingData>, p: Position) -> nat
    decreases s.len(),
{
    if s.len() == 0 {
        0
    } else {
        count_le(s.drop_last(), p) + if pos_le(s.last().generated, p) {
            1nat
        } else {
            0nat
        }
    }
}

/// The mapping a lookup at `p` resolves to: the entry with the greatest
/// generated position at or before `p`, or None when `p` precedes every
/// entry.
pub open spec fn find_result(s: Seq<MappingData>, p: Position) -> Option<MappingData> {
    if count_le(s, p) == 0 {
        None
    } else {
        Some(s[count_le(s, p) - 1])
    }
}

/// In a sorted table the entries at or before `p` are exactly the first
/// `count_le` ones.
pub proof fn lemma_count_le_bounds(s: Seq<MappingData>, p: Position)
    requires
        mappings_sorted(s),
    ensures
        count_le(s, p) <= s.len(),
        forall|i: int|
            0 <= i < s.len() ==> (pos_le(#[trigger] s[i].generated, p) <==> i < count_le(s, p)),
    decreases s.len(),
{
    if s.len() > 0 {
        let dl = s.drop_last();
        assert(mappings_sorted(dl)) by {
            assert forall|i: int, j: int| 0 <= i <= j < dl.len() implies pos_le(
                #[trigger] dl[i].generated,
                #[trigger] dl[j].generated,
            ) by {
                assert(dl[i] == s[i] && dl[j] == s[j]);
            }
        }
        lemma_count_le_bounds(dl, p);
        assert(forall|i: int| 0 <= i < dl.len() ==> dl[i] == s[i]);
        if pos_le(s.last().generated, p) {
            assert forall|i: int| 0 <= i < dl.len() implies pos_le(
                #[trigger] dl[i].generated,
                p,
            ) by {
                assert(pos_le(s[i].generated, s[s.len() - 1].generated));
            }
            assert(count_le(dl, p) == dl.len());
        }
    }
}

/// A lookup is absent exactly when `p` precedes every entry; otherwise it
/// yields an entry of the table at or before `p` that no entry at or before
/// `p` exceeds.
pub proof fn lemma_find_result_closest(s: Seq<MappingData>, p: Position)
    requires
        mappings_sorted(s),
    ensures
        find_result(s, p) is None <==> (forall|i: int|
            0 <= i < s.len() ==> !pos_le(#[trigger] s[i].generated, p)),
        find_result(s, p) matches Some(m) ==> {
            &&& exists|i: int| 0 <= i < s.len() && s[i] == m
            &&& pos_le(m.generated, p)
            &&& forall|i: int|
                0 <= i < s.len() && pos_le(#[trigger] s[i].generated, p) ==> pos_le(
                    s[i].generated,
                    m.generated,
                )
        },
{
    lemma_count_le_bounds(s, p);
    let c = count_le(s, p);
    if c == 0 {
        assert forall|i: int| 0 <= i < s.len() implies !pos_le(#[trigger] s[i].generated, p) by {}
    }
    if (forall|i: int| 0 <= i < s.len() ==> !pos_le(#[trigger] s[i].generated, p)) && c > 0 {
        assert(pos_le(s[c - 1].generated, p));
    }
    if c > 0 {
        let m = find_result(s, p)->Some_0;
        assert(0 <= c - 1 < s.len() && s[c - 1] == m);
        assert forall|i: int|
            0 <= i < s.len() && pos_le(#[trigger] s[i].generated, p) implies pos_le(
            s[i].generated,
            s[c - 1].generated,
        ) by {
            assert(i < c);
        }
    }
}

/// Lookups are monotonic: a later query position never resolves to an
/// earlier generated position.
pub proof fn lemma_find_result_monotonic(s: Seq<MappingData>, p1: Position, p2: Position)
    requires
        mappings_sorted(s),
        pos_le(p1, p2),
        find_result(s, p1) is Some,
        find_result(s, p2) is Some,
    ensures
        pos_le(find_result(s, p1)->Some_0.generated, find_result(s, p2)->Some_0.generated),
{
    lemma_count_le_bounds(s, p1);
    lemma_count_le_bounds(s, p2);
    let c1 = count_le(s, p1);
    let c2 = count_le(s, p2);
    assert(pos_le(s[c1 - 1].generated, p1));
    assert(pos_le(s[c1 - 1].generated, p2));
    assert(c1 <= c2);
}

/// The adaptive finder and the stateless whole-table lookup agree,
/// position by position: both their contracts pin the result to
/// `find_result`, so any results the two may return for the same query on
/// the same table are one and the same, whatever the finder's cache holds.
pub proof fn lemma_finder_agrees_with_stateless(
    s: Seq<MappingData>,
    p: Position,
    by_finder: Option<MappingData>,
    stateless: Option<MappingData>,
)
    requires
        match by_finder {
            Some(m) => find_result(s, p) == Some(m),
            None => find_result(s, p) is None,
        },
        match stateless {
            Some(m) => find_result(s, p) == Some(m),
            None => find_result(s, p) is None,
        },
    ensures
        by_finder == stateless,
{
}

/// Finds `count_le` by binary search inside `[lo, hi)`, when everything
/// below `lo` is already known to lie at or before `p` and everything from
/// `hi` on is known not to.
fn search_le(v: &Vec<Mapping>, lo: usize, hi: usize, p: Position) -> (r: usize)
    requires
        mappings_sorted(v.deep_view()),
        lo <= hi <= v.len(),
        forall|i: int| 0 <= i < lo ==> pos_le(#[trigger] v.deep_view()[i].generated, p),
        forall|i: int| hi <= i < v.len() ==> !pos_le(#[trigger] v.deep_view()[i].generated, p),
    ensures
        r == count_le(v.deep_view(), p),
{
    let ghost s = v.deep_view();
    proof {
        lemma_count_le_bounds(s, p);
    }
    let mut lo = lo;
    let mut hi = hi;
    while lo < hi
        invariant
            s == v.deep_view(),
            mappings_sorted(s),
            lo <= hi <= v.len(),
            s.len() == v.len(),
            forall|i: int| 0 <= i < lo ==> pos_le(#[trigger] s[i].generated, p),
            forall|i: int| hi <= i < s.len() ==> !pos_le(#[trigger] s[i].generated, p),
        decreases hi - lo,
    {
        let mid = lo + (hi - lo) / 2;
        if v[mid].generated().le(&p) {
            proof {
                assert forall|i: int| 0 <= i < mid + 1 implies pos_le(
                    #[trigger] s[i].generated,
                    p,
                ) by {
                    if i >= lo {
                        assert(pos_le(s[i].generated, s[mid as int].generated));
                    }
                }
            }
            lo = mid + 1;
        } else {
            proof {
                assert forall|i: int| mid <= i < s.len() implies !pos_le(
                    #[trigger] s[i].generated,
                    p,
                ) by {
                    assert(pos_le(s[mid as int].generated, s[i].generated));
                }
            }
            hi = mid;
        }
    }
    proof {
        lemma_count_le_bounds(s, p);
        if lo < count_le(s, p) {
            assert(pos_le(s[lo as int].generated, p));
        }
        if lo > count_le(s, p) {
            assert(pos_le(s[count_le(s, p) as int].generated, p));
        }
    }
    lo
}

/// Finds `count_le` by a forward scan from `lo`, when everything below `lo`
/// is already known to lie at or before `p`.
fn linear_search_from(v: &Vec<Mapping>, lo: usize, p: Position) -> (r: usize)
    requires
        mappings_sorted(v.deep_view()),
        lo <= v.len(),
        forall|i: int| 0 <= i < lo ==> pos_le(#[trigger] v.deep_view()[i].generated, p),
    ensures
        r == count_le(v.deep_view(), p),
{
    let ghost s = v.deep_view();
    let mut j = lo;
    while j < v.len()
        invariant
            s == v.deep_view(),
            mappings_sorted(s),
            lo <= j <= v.len(),
            s.len() == v.len(),
            forall|i: int| 0 <= i < j ==> pos_le(#[trigger] s[i].generated, p),
        decreases v.len() - j,
    {
        if !v[j].generated().le(&p) {
            proof {
                lemma_count_le_bounds(s, p);
                assert forall|i: int| j <= i < s.len() implies !pos_le(
                    #[trigger] s[i].generated,
                    p,
                ) by {
                    assert(pos_le(s[j as int].generated, s[i].generated));
                }
                if j < count_le(s, p) {
                    assert(pos_le(s[j as int].generated, p));
                }
                if j > count_le(s, p) {
                    assert(pos_le(s[count_le(s, p) as int].generated, p));
                }
            }
            return j;
        }
        j = j + 1;
    }
    proof {
        lemma_count_le_bounds(s, p);
        if j > count_le(s, p) {
            assert(pos_le(s[count_le(s, p) as int].generated, p));
        }
    }
    j
}

/// Finds `count_le` by a backward scan from `hi`, when everything from `hi`
/// on is already known not to lie at or before `p`.
fn linear_search_back(v: &Vec<Mapping>, hi: usize, p: Position) -> (r: usize)
    requires
        mappings_sorted(v.deep_view()),
        hi <= v.len(),
        forall|i: int| hi <= i < v.len() ==> !pos_le(#[trigger] v.deep_view()[i].generated, p),
    ensures
        r == count_le(v.deep_view(), p),
{
    let ghost s = v.deep_view();
    let mut j = hi;
    while j > 0
        invariant
            s == v.deep_view(),
            mappings_sorted(s),
            j <= hi <= v.len(),
            s.len() == v.len(),
            forall|i: int| j <= i < s.len() ==> !pos_le(#[trigger] s[i].generated, p),
        decreases j,
    {
        if v[j - 1].generated().le(&p) {
            proof {
                lemma_count_le_bounds(s, p);
                assert forall|i: int| 0 <= i < j implies pos_le(#[trigger] s[i].generated, p) by {
                    assert(pos_le(s[i].generated, s[j - 1].generated));
                }
                if (j as int) < count_le(s, p) {
                    assert(pos_le(s[j as int].generated, p));
                }
                if j > count_le(s, p) {
                    assert(pos_le(s[count_le(s, p) as int].generated, p));
                }
            }
            return j;
        }
        j = j - 1;
    }
    proof {
        lemma_count_le_bounds(s, p);
        if count_le(s, p) > 0 {
            assert(pos_le(s[count_le(s, p) - 1].generated, p));
        }
    }
    j
}

/// `MappingFinder` is a helper struct for finding mappings within a
/// [BorrowedSourceMap](crate::BorrowedSourceMap).
///
/// It is highly efficient for frequent mapping findings, especially when
/// traversing the source map in small increments (e.g., sequentially finding
/// mappings from start to finish in a source map for a minified file). It
/// caches its last finding and scans linearly from there when the next query
/// is at most 32 columns away on the same line, falling back to binary
/// search for larger jumps.
pub struct MappingFinder<'a> {
    mappings: &'a Mappings,
    last_pos: Position,
    last_idx: usize,
}

impl<'a> MappingFinder<'a> {
    /// The table this finder searches.
    pub closed spec fn table(&self) -> Seq<MappingData> {
        self.mappings@
    }

    /// The finder's cache points into its sorted table: either nothing has
    /// been found yet, or the cached index holds the cached position and is
    /// the last table index at or before it.
    pub closed spec fn wf(&self) -> bool {
        &&& mappings_sorted(self.mappings@)
        &&& (self.last_idx == self.mappings@.len() || (self.last_idx < self.mappings@.len()
            && self.mappings@[self.last_idx as int].generated == self.last_pos && count_le(
            self.mappings@,
            self.last_pos,
        ) == self.last_idx + 1))
    }

    pub(crate) fn new(mappings: &'a Mappings) -> (r: Self)
        requires
            mappings_sorted(mappings@),
        ensures
            r.wf(),
            r.table() == mappings@,
    {
        Self {
            // the maximum position marks the fresh state; the first query
            // always binary-searches the whole table
            last_pos: Position::max(),
            last_idx: mappings.len(),
            mappings,
        }
    }

    /// Finds the mapping for a given generated position.
    ///
    /// If an exact match is not found, this method returns the closest
    /// preceding mapping. If there are no preceding mappings, it returns
    /// `None`. The cache never changes what is found: the result is the one
    /// the stateless whole-table search gives.
    pub fn find_mapping(&mut self, pos: Position) -> (r: Option<Mapping>)
        requires
            old(self).wf(),
        ensures
            final(self).wf(),
            final(self).table() == old(self).table(),
            match r {
                Some(m) => find_result(old(self).table(), pos) == Some(m@),
                None => find_result(old(self).table(), pos) is None,
            },
    {
        let ghost s = self.mappings@;
        let n = self.mappings.len();
        let c: usize;
        if self.last_idx < n {
            let last_pos = self.last_pos;
            if pos.line == last_pos.line && pos.column == last_pos.column {
                proof {
                    assert(pos == last_pos);
                    assert(count_le(s, pos) == self.last_idx + 1);
                }
                let m = *self.mappings.get(self.last_idx);
                return Some(m);
            }
            let near = pos.line == last_pos.line && (if pos.column >= last_pos.column {
                pos.column - last_pos.column
            } else {
                last_pos.column - pos.column
            }) <= 32;
            if last_pos.lt(&pos) {
                // search forward: everything through the cached index lies
                // at or before the cached position, hence before `pos`
                proof {
                    lemma_count_le_bounds(s, last_pos);
                    assert forall|i: int| 0 <= i < self.last_idx + 1 implies pos_le(
                        #[trigger] s[i].generated,
                        pos,
                    ) by {
                        assert(pos_le(s[i].generated, last_pos));
                    }
                }
                c = if near {
                    linear_search_from(self.mappings.vec(), self.last_idx + 1, pos)
                } else {
                    search_le(self.mappings.vec(), self.last_idx + 1, n, pos)
                };
            } else {
                // search backward: everything from the cached index on lies
                // at or after the cached position, hence after `pos`
                proof {
                    assert forall|i: int| self.last_idx <= i < s.len() implies !pos_le(
                        #[trigger] s[i].generated,
                        pos,
                    ) by {
                        assert(pos_le(s[self.last_idx as int].generated, s[i].generated));
                    }
                }
                c = if near {
                    linear_search_back(self.mappings.vec(), self.last_idx, pos)
                } else {
                    search_le(self.mappings.vec(), 0, self.last_idx, pos)
                };
            }
        } else {
            // fresh state: binary-search the whole table
            c = search_le(self.mappings.vec(), 0, n, pos);
        }
        proof {
            lemma_count_le_bounds(s, pos);
        }
        if c == 0 {
            None
        } else {
            let m = *self.mappings.get(c - 1);
            self.last_pos = m.generated();
            self.last_idx = c - 1;
            proof {
                lemma_count_le_bounds(s, self.last_pos);
                assert forall|i: int| 0 <= i < c implies pos_le(
                    #[trigger] s[i].generated,
                    s[c - 1].generated,
                ) by {}
                assert forall|i: int| c <= i < s.len() implies !pos_le(
                    #[trigger] s[i].generated,
                    s[c - 1].generated,
                ) by {
                    assert(!pos_le(s[i].generated, pos));
                    assert(pos_le(s[c - 1].generated, pos));
                }
                if count_le(s, self.last_pos) < c {
                    assert(pos_le(s[c - 1].generated, s[c - 1].generated));
                }
                if count_le(s, self.last_pos) > c {
                    assert(pos_le(s[count_le(s, self.last_pos) - 1].generated, s[c - 1].generated));
                }
            }
            Some(m)
        }
    }
}

impl Mappings {
    /// Finds the mapping for a given generated position: the entry with the
    /// greatest generated position at or before it, or `None` when the
    /// position precedes every entry. A single whole-table binary search.
    pub fn find_mapping(&self, pos: Position) -> (r: Option<Mapping>)
        requires
            mappings_sorted(self@),
        ensures
            match r {
                Some(m) => find_result(self@, pos) == Some(m@),
                None => find_result(self@, pos) is None,
            },
    {
        let v = self.vec();
        let c = search_le(v, 0, v.len(), pos);
        proof {
            lemma_count_le_bounds(self@, pos);
        }
        if c == 0 {
            None
        } else {
            Some(*self.get(c - 1))
        }
    }

    /// Creates a `MappingFinder` for the table.
    ///
    /// This stateful finder is highly efficient for frequent mapping
    /// findings, especially when traversing the source map in small
    /// increments.
    pub fn finder(&self) -> (r: MappingFinder<'_>)
        requires
            mappings_sorted(self@),
        ensures
            r.wf(),
            r.table() == self@,
    {
        MappingFinder::new(self)
    }
}

} // verus!
