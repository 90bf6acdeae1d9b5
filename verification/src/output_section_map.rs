//! One value for each output section.

use crate::output_section_id::{OutputSectionId, NUM_BUILT_IN_SECTIONS};
use vstd::prelude::*;

verus! {

/// A table that holds one value per output section, at the section's index.
///
/// Its view is the sequence of values.
#[derive(Debug, PartialEq, Eq)]
pub struct OutputSectionMap<T> {
    pub values: Vec<T>,
}

impl<T> View for OutputSectionMap<T> {
    type V = Seq<T>;

    open spec fn view(&self) -> Seq<T> {
        self.values@
    }
}

impl<T> OutputSectionMap<T> {
    /// The table whose value for the section with index `i` is `values[i]`.
    pub fn from_values(values: Vec<T>) -> (r: Self)
        ensures
            r@ == values@,
    {
        OutputSectionMap { values }
    }

    /// The number of sections that the table covers.
    pub fn len(&self) -> (r: usize)
        ensures
            r == self@.len(),
    {
        self.values.len()
    }

    /// The value for the section `id`.
    pub fn get(&self, id: OutputSectionId) -> (r: &T)
        requires
            id@ < self@.len(),
        ensures
            *r == self@[id@],
    {
        &self.values[id.as_usize()]
    }

    /// The value for the built-in section `id`.
    pub fn built_in(&self, id: OutputSectionId) -> (r: &T)
        requires
            id.is_built_in(),
            NUM_BUILT_IN_SECTIONS <= self@.len(),
        ensures
            *r == self@[id@],
    {
        &self.values[id.as_usize()]
    }

    /// The value for the section `id`, for writing. No other value changes.
    pub fn get_mut(&mut self, id: OutputSectionId) -> (r: &mut T)
        requires
            id@ < old(self)@.len(),
        ensures
            *r == old(self)@[id@],
            final(self)@ == old(self)@.update(id@, *final(r)),
    {
        &mut self.values[id.as_usize()]
    }

    /// Calls `cb` for each section, by ascending index, with the section's
    /// identifier and value.
    pub fn for_each<F: FnMut(OutputSectionId, &T)>(&self, mut cb: F)
        requires
            self@.len() <= u32::MAX,
            forall|i: int|
                0 <= i < self@.len() ==> call_requires(cb, (OutputSectionId(i as u32), &#[trigger] self@[i])),
        ensures
            forall|i: int|
                0 <= i < self@.len() ==> call_ensures(cb, (OutputSectionId(i as u32), &#[trigger] self@[i]), ()),
    {
        let ghost f = cb;
        let mut i: usize = 0;
        while i < self.values.len()
            invariant
                cb == f,
                self@.len() <= u32::MAX,
                i <= self@.len(),
                forall|i: int|
                    0 <= i < self@.len() ==> call_requires(
                        cb,
                        (OutputSectionId(i as u32), &#[trigger] self@[i]),
                    ),
                forall|k: int|
                    0 <= k < i ==> call_ensures(cb, (OutputSectionId(k as u32), &#[trigger] self@[k]), ()),
            decreases self@.len() - i,
        {
            cb(OutputSectionId(i as u32), &self.values[i]);
            i = i + 1;
        }
    }
}

} // verus!
