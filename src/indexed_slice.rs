use vstd::prelude::*;

use core::ops::{Range, RangeFrom, RangeFull, RangeTo};
use std::slice::Iter;
use vstd::std_specs::iter::IteratorSpec;

use crate::text::string_of;

verus! {

#[verifier::external_type_specification]
#[verifier::reject_recursive_types(Idx)]
pub struct ExRangeFrom<Idx>(RangeFrom<Idx>);

#[verifier::external_type_specification]
#[verifier::reject_recursive_types(Idx)]
pub struct ExRangeTo<Idx>(RangeTo<Idx>);

#[verifier::external_type_specification]
pub struct ExRangeFull(RangeFull);

/// A view into a slice that remembers where in the underlying slice it starts.
#[derive(Copy)]
pub struct IndexedSlice<'a, T: 'a> {
    slice: &'a [T],
    position: usize,
}

impl<'a, T> View for IndexedSlice<'a, T> {
    type V = Seq<T>;

    closed spec fn view(&self) -> Seq<T> {
        self.slice@
    }
}

impl<'a, T> Clone for IndexedSlice<'a, T> {
    fn clone(&self) -> (r: Self)
        ensures
            r@ == self@,
            r.start() == self.start(),
    {
        proof {
            use_type_invariant(self);
        }
        IndexedSlice { slice: self.slice, position: self.position }
    }
}

impl<'a, T> IndexedSlice<'a, T> {
    #[verifier::type_invariant]
    spec fn fits(self) -> bool {
        self.position + self.slice@.len() <= usize::MAX
    }

    /// Where the items of this view start in the slice it was taken from.
    pub closed spec fn start(self) -> nat {
        self.position as nat
    }

    /// The items are those of `slice`, and their position is 0.
    pub fn from_slice(slice: &'a [T]) -> (r: Self)
        ensures
            r@ == slice@,
            r.start() == 0,
    {
        let _len = slice.len();
        IndexedSlice { slice, position: 0 }
    }

    pub fn iter(&self) -> (r: Iter<'a, T>)
        ensures
            r.remaining() == self@.as_ref(),
    {
        self.slice.iter()
    }

    /// Takes the first item off, if there is one; the position stays as it is.
    pub fn pop_first(&mut self) -> (r: Option<&'a T>)
        ensures
            old(self)@.len() == 0 ==> r is None && final(self)@ == old(self)@,
            old(self)@.len() > 0 ==> r == Some(&old(self)@[0]) && final(self)@ == old(self)@.drop_first(),
            final(self).start() == old(self).start(),
    {
        proof {
            use_type_invariant(&*self);
        }
        if self.slice.len() == 0 {
            None
        } else {
            let items: &'a [T] = self.slice;
            let first = &items[0];
            *self = IndexedSlice { slice: &items[1..items.len()], position: self.position };
            Some(first)
        }
    }

    pub fn first(&self) -> (r: Option<&'a T>)
        ensures
            self@.len() == 0 ==> r is None,
            self@.len() > 0 ==> r == Some(&self@[0]),
    {
        if self.slice.len() == 0 {
            None
        } else {
            let items: &'a [T] = self.slice;
            Some(&items[0])
        }
    }

    /// Takes off the longest prefix whose items all satisfy `f`, and returns it.
    pub fn pop_while<F>(&mut self, f: F) -> (r: IndexedSlice<'a, T>)
        where
            F: Fn(&T) -> bool,
        requires
            forall|x: &T| #[trigger] f.requires((x,)),
        ensures
            old(self)@ == r@ + final(self)@,
            r.start() == old(self).start(),
            final(self).start() == old(self).start() + r@.len(),
            forall|k: int| 0 <= k < r@.len() ==> f.ensures((&r@[k],), true),
            final(self)@.len() > 0 ==> f.ensures((&final(self)@[0],), false),
    {
        proof {
            use_type_invariant(&*self);
        }
        let items: &'a [T] = self.slice;
        let mut index = items.len();
        let mut i: usize = 0;
        while i < items.len()
            invariant_except_break
                index == items@.len(),
            invariant
                i <= items@.len(),
                forall|x: &T| #[trigger] f.requires((x,)),
                forall|k: int| 0 <= k < i ==> f.ensures((&items@[k],), true),
            ensures
                index <= items@.len(),
                forall|k: int| 0 <= k < index ==> f.ensures((&items@[k],), true),
                index < items@.len() ==> f.ensures((&items@[index as int],), false),
            decreases items@.len() - i,
        {
            if !f(&items[i]) {
                index = i;
                break;
            }
            i += 1;
        }
        let result = IndexedSlice { position: self.position, slice: &items[0..index] };
        *self = IndexedSlice {
            position: self.position + index,
            slice: &items[index..items.len()],
        };
        proof {
            assert(items@ =~= result@ + self@);
        }
        result
    }

    pub fn position(&self) -> (r: usize)
        ensures
            r == self.start(),
    {
        self.position
    }

    pub fn len(&self) -> (r: usize)
        ensures
            r == self@.len(),
    {
        self.slice.len()
    }
}

impl<'a> IndexedSlice<'a, char> {
    /// The items as a string.
    pub fn to_string(&self) -> (r: String)
        ensures
            r@ == self@,
    {
        string_of(self.slice)
    }
}

/// Taking a sub-view by a range of indices.
pub trait Get<I>: Sized {
    type Output;

    /// The range lies within the items.
    spec fn in_bounds(&self, index: I) -> bool;

    /// What the sub-view for the range is.
    spec fn got(&self, index: I, out: Self::Output) -> bool;

    fn get(&self, index: I) -> (r: Self::Output)
        requires
            self.in_bounds(index),
        ensures
            self.got(index, r),
    ;
}

/// The items `from .. to`, with the position moved on by `from`.
fn do_slice<'a, T>(idslice: &IndexedSlice<'a, T>, from: usize, to: usize) -> (r: IndexedSlice<'a, T>)
    requires
        from <= to <= idslice@.len(),
    ensures
        r@ == idslice@.subrange(from as int, to as int),
        r.start() == idslice.start() + from,
{
    proof {
        use_type_invariant(idslice);
    }
    IndexedSlice { position: idslice.position + from, slice: &idslice.slice[from..to] }
}

impl<'a, T> Get<Range<usize>> for IndexedSlice<'a, T> {
    type Output = IndexedSlice<'a, T>;

    open spec fn in_bounds(&self, index: Range<usize>) -> bool {
        index.start <= index.end <= self@.len()
    }

    open spec fn got(&self, index: Range<usize>, out: IndexedSlice<'a, T>) -> bool {
        &&& out@ == self@.subrange(index.start as int, index.end as int)
        &&& out.start() == self.start() + index.start
    }

    fn get(&self, index: Range<usize>) -> (r: IndexedSlice<'a, T>) {
        do_slice(self, index.start, index.end)
    }
}

impl<'a, T> Get<RangeFrom<usize>> for IndexedSlice<'a, T> {
    type Output = IndexedSlice<'a, T>;

    open spec fn in_bounds(&self, index: RangeFrom<usize>) -> bool {
        index.start <= self@.len()
    }

    open spec fn got(&self, index: RangeFrom<usize>, out: IndexedSlice<'a, T>) -> bool {
        &&& out@ == self@.subrange(index.start as int, self@.len() as int)
        &&& out.start() == self.start() + index.start
    }

    fn get(&self, index: RangeFrom<usize>) -> (r: IndexedSlice<'a, T>) {
        do_slice(self, index.start, self.len())
    }
}

impl<'a, T> Get<RangeTo<usize>> for IndexedSlice<'a, T> {
    type Output = IndexedSlice<'a, T>;

    open spec fn in_bounds(&self, index: RangeTo<usize>) -> bool {
        index.end <= self@.len()
    }

    open spec fn got(&self, index: RangeTo<usize>, out: IndexedSlice<'a, T>) -> bool {
        &&& out@ == self@.subrange(0, index.end as int)
        &&& out.start() == self.start()
    }

    fn get(&self, index: RangeTo<usize>) -> (r: IndexedSlice<'a, T>) {
        do_slice(self, 0, index.end)
    }
}

impl<'a, T> Get<RangeFull> for IndexedSlice<'a, T> {
    type Output = IndexedSlice<'a, T>;

    open spec fn in_bounds(&self, index: RangeFull) -> bool {
        true
    }

    open spec fn got(&self, index: RangeFull, out: IndexedSlice<'a, T>) -> bool {
        &&& out@ == self@
        &&& out.start() == self.start()
    }

    fn get(&self, index: RangeFull) -> (r: IndexedSlice<'a, T>) {
        let r = do_slice(self, 0, self.len());
        proof {
            assert(r@ =~= self@);
        }
        r
    }
}

} // verus!
