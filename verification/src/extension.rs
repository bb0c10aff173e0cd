use crate::error::ValidateError;
use crate::error::ValidateResult;
use vstd::prelude::*;

verus! {

/// Represents rarely-used source map features: for now only `ignoreList`,
/// the source ids flagged as not of interest (vendored or generated code).
/// Its mathematical value is that list of ids.
#[derive(Debug, Clone)]
pub struct Extension {
    pub(crate) ignore_list: Vec<u32>,
}

impl View for Extension {
    type V = Seq<u32>;

    closed spec fn view(&self) -> Seq<u32> {
        self.ignore_list@
    }
}

/// The first ignore-list entry that points past the source list, reported
/// with its position in the list; None when every entry is in bounds.
pub open spec fn ext_validate_spec(entries: Seq<u32>, k: int, sources_count: u32) -> Option<
    ValidateError,
>
    decreases entries.len() - k,
{
    if k < 0 || k >= entries.len() {
        None
    } else if entries[k] >= sources_count {
        Some(ValidateError::InvalidIgnoreList { index: k as u32, source_id: entries[k] })
    } else {
        ext_validate_spec(entries, k + 1, sources_count)
    }
}

impl Extension {
    /// The view is the ignore list itself.
    pub(crate) proof fn lemma_view(&self)
        ensures
            self@ == self.ignore_list@,
    {
    }

    pub fn ignore_list(&self) -> (r: &Vec<u32>)
        ensures
            r@ == self@,
    {
        &self.ignore_list
    }

    pub fn ignore_list_mut(&mut self) -> (r: &mut Vec<u32>)
        ensures
            r@ == old(self)@,
            final(self)@ == final(r)@,
    {
        &mut self.ignore_list
    }

    pub(crate) fn from_raw(ignore_list: Option<Vec<u32>>) -> (r: Self)
        ensures
            r@ == (match ignore_list {
                Some(l) => l@,
                None => Seq::<u32>::empty(),
            }),
    {
        let list = match ignore_list {
            Some(l) => l,
            None => Vec::new(),
        };
        Self { ignore_list: list }
    }

    /// Checks that every ignore-list entry references an existing source,
    /// and reports the first that does not, with its position in the list.
    pub fn validate(&self, sources_count: u32) -> (r: ValidateResult<()>)
        requires
            self@.len() <= u32::MAX,
        ensures
            match r {
                Ok(_) => ext_validate_spec(self@, 0, sources_count) is None,
                Err(e) => ext_validate_spec(self@, 0, sources_count) == Some(e),
            },
    {
        let ghost s = self@;
        let n = self.ignore_list.len();
        let mut k: usize = 0;
        while k < n
            invariant
                k <= n,
                n == self.ignore_list@.len(),
                s == self@,
                n <= u32::MAX,
                ext_validate_spec(s, 0, sources_count) == ext_validate_spec(
                    s,
                    k as int,
                    sources_count,
                ),
            decreases n - k,
        {
            let id = self.ignore_list[k];
            if id >= sources_count {
                return Err(ValidateError::InvalidIgnoreList { index: k as u32, source_id: id });
            }
            k = k + 1;
        }
        Ok(())
    }

    pub fn builder() -> (r: ExtensionBuilder)
        ensures
            r@ == Seq::<u32>::empty(),
    {
        ExtensionBuilder { ignore_list: Vec::new() }
    }
}

/// Assembles an [Extension] from explicit fields.
#[derive(Debug)]
pub struct ExtensionBuilder {
    ignore_list: Vec<u32>,
}

impl View for ExtensionBuilder {
    type V = Seq<u32>;

    closed spec fn view(&self) -> Seq<u32> {
        self.ignore_list@
    }
}

impl ExtensionBuilder {
    pub fn with_ignore_list(self, ignore_list: Vec<u32>) -> (r: Self)
        ensures
            r@ == ignore_list@,
    {
        Self { ignore_list }
    }

    pub fn build(self) -> (r: Extension)
        ensures
            r@ == self@,
    {
        Extension { ignore_list: self.ignore_list }
    }
}

} // verus!
