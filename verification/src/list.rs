//! Walking a list whose items are got by index.

use vstd::prelude::*;

verus! {

/// The items `mapper(0)`, `mapper(1)`, ... up to the first index for which it gives none.
#[verifier::reject_recursive_types(T)]
pub struct ListIterator<F, T> where F: Fn(usize) -> Option<T> {
    index: usize,
    mapper: F,
}

impl<F, T> ListIterator<F, T> where F: Fn(usize) -> Option<T> {
    /// The index of the next item.
    pub closed spec fn position(&self) -> usize {
        self.index
    }

    /// What gives the items.
    pub closed spec fn mapper(&self) -> F {
        self.mapper
    }

    pub fn new(mapper: F) -> (l: Self)
        ensures
            l.position() == 0,
            l.mapper() == mapper,
    {
        ListIterator { index: 0, mapper }
    }

    /// The next item, and the index moves past it; `None`, with the index unchanged, when
    /// the mapper gives none.
    pub fn next(&mut self) -> (r: Option<T>)
        requires
            call_requires(old(self).mapper(), (old(self).position(),)),
            old(self).position() < usize::MAX,
        ensures
            call_ensures(old(self).mapper(), (old(self).position(),), r),
            final(self).mapper() == old(self).mapper(),
            final(self).position() == (if r is Some {
                old(self).position() + 1
            } else {
                old(self).position() as int
            }),
    {
        let ret = (self.mapper)(self.index);
        if ret.is_some() {
            self.index = self.index + 1;
        }
        ret
    }
}

} // verus!
