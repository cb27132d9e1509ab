//! A value together with the place in the configuration file that it
//! came from.

use crate::values::Duplicate;
use vstd::prelude::*;

verus! {

/// A value and its half-open byte range in the configuration file. What
/// did not come from the file has the empty range at 0.
#[derive(Debug)]
pub struct Spanned<T> {
    /// Where the range starts.
    pub start: usize,
    /// Where it ends.
    pub end: usize,
    /// The value.
    pub value: T,
}

/// What a [`Spanned`] value means.
#[verifier::ext_equal]
pub struct SpannedView<W> {
    pub start: usize,
    pub end: usize,
    pub value: W,
}

impl<T: View> View for Spanned<T> {
    type V = SpannedView<T::V>;

    open spec fn view(&self) -> SpannedView<T::V> {
        SpannedView { start: self.start, end: self.end, value: self.value@ }
    }
}

/// A value that did not come from the file.
pub open spec fn unplaced<W>(value: W) -> SpannedView<W> {
    SpannedView { start: 0, end: 0, value }
}

impl<T: View> Spanned<T> {
    /// A value at a place.
    pub fn new(start: usize, end: usize, value: T) -> (r: Spanned<T>)
        ensures
            r@ == (SpannedView { start, end, value: value@ }),
    {
        Spanned { start, end, value }
    }

    /// The value.
    pub fn get_ref(&self) -> (r: &T)
        ensures
            r@ == self@.value,
    {
        &self.value
    }

    /// The place.
    pub fn span(&self) -> (r: (usize, usize))
        ensures
            r == (self@.start, self@.end),
    {
        (self.start, self.end)
    }
}

impl<T: Duplicate> Duplicate for Spanned<T> {
    fn duplicate(&self) -> (r: Spanned<T>) {
        Spanned { start: self.start, end: self.end, value: self.value.duplicate() }
    }
}

} // verus!
