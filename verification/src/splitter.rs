use vstd::prelude::*;
use vstd::slice::slice_subrange;
use vstd::slice::slice_to_vec;
use vstd::string::StringSliceAdditionalSpecFns;

verus! {

/// Byte values of the two separators of a mapping string.
pub const SEMICOLON: u8 = 59;

pub const COMMA: u8 = 44;

pub open spec fn is_sep(b: u8) -> bool {
    b == SEMICOLON || b == COMMA
}

/// The `(segment, starts-new-generated-line)` pairs of the mapping string
/// `s`, reading from index `i` with `cur` the segment gathered so far: a `;`
/// or `,` ends the gathered segment (`;` marking a new generated line), and
/// the end of the string ends it too.
pub open spec fn split_acc(s: Seq<u8>, i: int, cur: Seq<u8>) -> Seq<(Seq<u8>, bool)>
    decreases s.len() - i,
{
    if i < 0 || i >= s.len() {
        seq![(cur, false)]
    } else if s[i] == SEMICOLON {
        seq![(cur, true)] + split_acc(s, i + 1, Seq::empty())
    } else if s[i] == COMMA {
        seq![(cur, false)] + split_acc(s, i + 1, Seq::empty())
    } else {
        split_acc(s, i + 1, cur.push(s[i]))
    }
}

/// All `(segment, starts-new-generated-line)` pairs of the mapping string
/// `s`. Empty segments are kept: the caller decides what they mean.
pub open spec fn split_segments(s: Seq<u8>) -> Seq<(Seq<u8>, bool)> {
    split_acc(s, 0, Seq::empty())
}

/// The mathematical value of a gathered token list.
pub open spec fn tokens_view(v: Seq<(Vec<u8>, bool)>) -> Seq<(Seq<u8>, bool)> {
    v.map_values(|t: (Vec<u8>, bool)| (t.0@, t.1))
}

/// Relies on memchr::memchr2: returns the least index whose byte is `;` or
/// `,`, or None when the slice holds neither.
#[verifier::external_body]
fn find_separator(h: &[u8]) -> (r: Option<usize>)
    ensures
        match r {
            Some(j) => j < h@.len() && is_sep(h@[j as int]) && forall|k: int|
                0 <= k < j ==> !is_sep(h@[k]),
            None => forall|k: int| 0 <= k < h@.len() ==> !is_sep(h@[k]),
        },
{
    memchr::memchr2(SEMICOLON, COMMA, h)
}

/// Skipping a separator-free stretch only grows the gathered segment.
proof fn lemma_split_skip(s: Seq<u8>, i: int, e: int, cur: Seq<u8>)
    requires
        0 <= i <= e <= s.len(),
        forall|k: int| i <= k < e ==> !is_sep(s[k]),
    ensures
        split_acc(s, i, cur) == split_acc(s, e, cur + s.subrange(i, e)),
    decreases e - i,
{
    if i == e {
        assert(cur + s.subrange(i, e) =~= cur);
    } else {
        assert(!is_sep(s[i]));
        lemma_split_skip(s, i + 1, e, cur.push(s[i]));
        assert(cur.push(s[i]) + s.subrange(i + 1, e) =~= cur + s.subrange(i, e));
    }
}

/// Splits a mapping string into its `(segment, starts-new-line)` tokens.
pub(crate) fn split_tokens(bytes: &[u8]) -> (r: Vec<(Vec<u8>, bool)>)
    ensures
        tokens_view(r@) == split_segments(bytes@),
{
    let ghost s = bytes@;
    let mut out: Vec<(Vec<u8>, bool)> = Vec::new();
    let mut start: usize = 0;
    proof {
        assert(tokens_view(out@) =~= Seq::<(Seq<u8>, bool)>::empty());
        assert(split_segments(s) =~= tokens_view(out@) + split_acc(s, 0, Seq::empty()));
    }
    loop
        invariant
            s == bytes@,
            start <= s.len(),
            split_segments(s) == tokens_view(out@) + split_acc(s, start as int, Seq::empty()),
        decreases s.len() - start + 1,
    {
        let sub = slice_subrange(bytes, start, bytes.len());
        let ghost out0 = out@;
        match find_separator(sub) {
            Some(j) => {
                let e = start + j;
                proof {
                    assert forall|k: int| start <= k < e implies !is_sep(s[k]) by {
                        assert(sub@[k - start] == s[k]);
                        assert(!is_sep(sub@[k - start]));
                    }
                    assert(s[e as int] == sub@[j as int]);
                    lemma_split_skip(s, start as int, e as int, Seq::empty());
                    assert(Seq::<u8>::empty() + s.subrange(start as int, e as int) =~= s.subrange(
                        start as int,
                        e as int,
                    ));
                }
                let seg = slice_to_vec(slice_subrange(bytes, start, e));
                let flag = bytes[e] == SEMICOLON;
                out.push((seg, flag));
                proof {
                    assert(split_acc(s, e as int, s.subrange(start as int, e as int)) == seq![
                        (s.subrange(start as int, e as int), flag),
                    ] + split_acc(s, e + 1, Seq::empty()));
                    assert(tokens_view(out@) =~= tokens_view(out0) + seq![
                        (s.subrange(start as int, e as int), flag),
                    ]);
                    assert(split_segments(s) == tokens_view(out@) + split_acc(
                        s,
                        e + 1,
                        Seq::empty(),
                    ));
                }
                start = e + 1;
                if start > bytes.len() {
                    // cannot happen: e < len
                    return out;
                }
            },
            None => {
                proof {
                    assert forall|k: int| start <= k < s.len() implies !is_sep(s[k]) by {
                        assert(sub@[k - start] == s[k]);
                        assert(!is_sep(sub@[k - start]));
                    }
                    lemma_split_skip(s, start as int, s.len() as int, Seq::empty());
                    assert(Seq::<u8>::empty() + s.subrange(start as int, s.len() as int)
                        =~= s.subrange(start as int, s.len() as int));
                }
                let seg = slice_to_vec(slice_subrange(bytes, start, bytes.len()));
                out.push((seg, false));
                proof {
                    assert(split_acc(s, s.len() as int, s.subrange(start as int, s.len() as int))
                        == seq![(s.subrange(start as int, s.len() as int), false)]);
                    assert(tokens_view(out@) =~= tokens_view(out0) + seq![
                        (s.subrange(start as int, s.len() as int), false),
                    ]);
                    assert(split_segments(s) =~= tokens_view(out@));
                }
                return out;
            },
        }
    }
}

/// Splits a mapping string into `(segment, starts-new-generated-line)` pairs,
/// one at a time.
pub struct MappingSplitter {
    tokens: Vec<(Vec<u8>, bool)>,
    idx: usize,
}

impl View for MappingSplitter {
    type V = Seq<(Seq<u8>, bool)>;

    closed spec fn view(&self) -> Seq<(Seq<u8>, bool)> {
        if self.idx <= self.tokens@.len() {
            tokens_view(self.tokens@).skip(self.idx as int)
        } else {
            Seq::empty()
        }
    }
}

impl MappingSplitter {
    pub fn new(string: &str) -> (r: Self)
        ensures
            r@ == split_segments(string.spec_bytes()),
    {
        let r = Self { tokens: split_tokens(string.as_bytes()), idx: 0 };
        proof {
            assert(r@ =~= split_segments(string.spec_bytes()));
        }
        r
    }

    /// Returns the next `(segment bytes, starts-new-generated-line)` pair.
    pub fn next(&mut self) -> (r: Option<(Vec<u8>, bool)>)
        ensures
            old(self)@.len() == 0 ==> r is None && final(self)@ == old(self)@,
            old(self)@.len() > 0 ==> {
                &&& r matches Some(t)
                &&& (t.0@, t.1) == old(self)@[0]
                &&& final(self)@ == old(self)@.skip(1)
            },
    {
        if self.idx < self.tokens.len() {
            let t = &self.tokens[self.idx];
            let seg = slice_to_vec(t.0.as_slice());
            let flag = t.1;
            self.idx = self.idx + 1;
            proof {
                assert(self@ =~= old(self)@.skip(1));
            }
            Some((seg, flag))
        } else {
            None
        }
    }
}

} // verus!
