use vstd::prelude::*;

verus! {

use vstd::pervasive::VecAdditionalExecFns;

/// A typed view over `T` records that live contiguously in memory owned by the
/// host process, delimited by a begin address and an end address. The host owns
/// the records and their count: the view stores no counter of its own, so
/// `len` is derived from the address difference. The view never allocates,
/// frees or resizes; the only mutation offered is an in-place overwrite of one
/// record, which the size patch step uses.
///
/// The records themselves are held here as a `Vec` standing for the span of
/// host memory `[start, end)`; the well-formedness invariant ties the two
/// addresses to the record count and the record size.
pub struct CppVector<T> {
    start: usize,
    end: usize,
    elem_size: usize,
    elems: Vec<T>,
}

impl<T> View for CppVector<T> {
    type V = Seq<T>;

    closed spec fn view(&self) -> Seq<T> {
        self.elems@
    }
}

impl<T> CppVector<T> {
    /// The begin address of the viewed span.
    pub closed spec fn spec_begin(&self) -> usize {
        self.start
    }

    /// The end address of the viewed span (one past the last record).
    pub closed spec fn spec_end(&self) -> usize {
        self.end
    }

    /// The size in bytes of one record.
    pub closed spec fn spec_elem_size(&self) -> usize {
        self.elem_size
    }

    /// The span is sized to a whole number of records: begin and end are
    /// exactly `len` records apart.
    pub open spec fn wf(&self) -> bool {
        &&& self.spec_elem_size() > 0
        &&& self.spec_begin() + self@.len() * self.spec_elem_size() == self.spec_end()
    }

    /// Build a view of `elems` as records of `elem_size` bytes each, laid out
    /// from address `begin`; the end address is derived, never stored by the
    /// host on the view's behalf.
    pub fn new(begin: usize, elem_size: usize, elems: Vec<T>) -> (v: Self)
        requires
            elem_size > 0,
            begin + elems@.len() * elem_size <= usize::MAX,
        ensures
            v.wf(),
            v@ == elems@,
            v.spec_begin() == begin,
            v.spec_elem_size() == elem_size,
            v.spec_end() == begin + elems@.len() * elem_size,
    {
        let end = begin + elems.len() * elem_size;
        CppVector { start: begin, end, elem_size, elems }
    }

    /// Length by pointer-difference arithmetic: the byte distance between the
    /// two addresses divided by the record size.
    pub fn len(&self) -> (n: usize)
        requires
            self.wf(),
        ensures
            n == self@.len(),
            n == ((self.spec_end() - self.spec_begin()) as usize) / self.spec_elem_size(),
    {
        proof {
            assert(
                (self@.len() * self.spec_elem_size()) as int / (self.spec_elem_size() as int)
                    == self@.len()
            ) by (nonlinear_arith)
                requires
                    self.spec_elem_size() >= 1,
            ;
        }
        (self.end - self.start) / self.elem_size
    }

    /// Read the record at `i`.
    pub fn get(&self, i: usize) -> (r: &T)
        requires
            self.wf(),
            i < self@.len(),
        ensures
            *r == self@[i as int],
    {
        &self.elems[i]
    }

    /// Overwrite the record at `i` in place. The addresses do not move: the
    /// host's layout is untouched, only the record's bytes change.
    pub fn set(&mut self, i: usize, value: T)
        requires
            old(self).wf(),
            i < old(self)@.len(),
        ensures
            final(self).wf(),
            final(self)@ == old(self)@.update(i as int, value),
            final(self).spec_begin() == old(self).spec_begin(),
            final(self).spec_end() == old(self).spec_end(),
            final(self).spec_elem_size() == old(self).spec_elem_size(),
    {
        self.elems.set(i, value);
    }

    /// A read cursor over the records, starting at the begin address.
    pub fn iter(&self) -> (it: CppVectorIterator<T>)
        requires
            self.wf(),
        ensures
            it.vector == self,
            it.index == 0,
    {
        CppVectorIterator { vector: self, index: 0 }
    }

    /// A write cursor: it walks the same index range as `iter`, and the caller
    /// mutates the record it names through `set`.
    pub fn iter_mut(&mut self) -> (it: CppVectorIteratorMut)
        requires
            old(self).wf(),
        ensures
            *final(self) == *old(self),
            it.index == 0,
            it.count == old(self)@.len(),
    {
        CppVectorIteratorMut { index: 0, count: self.len() }
    }

    /// Iteration visits one record per index, in address order, and stops
    /// exactly at the end address: the count of visited records equals `len`.
    pub fn count_elements(&self) -> (n: usize)
        requires
            self.wf(),
        ensures
            n == self@.len(),
    {
        let mut it = self.iter();
        let mut n: usize = 0;
        loop
            invariant
                self.wf(),
                it.vector == self,
                n == it.index,
                n <= self@.len(),
            decreases self@.len() - n,
        {
            match it.next() {
                Some(_) => {
                    n = n + 1;
                },
                None => {
                    return n;
                },
            }
        }
    }
}

/// Read cursor of a `CppVector`: yields each record in address order and
/// reports exhaustion once the cursor reaches the end address.
pub struct CppVectorIterator<'a, T> {
    pub vector: &'a CppVector<T>,
    pub index: usize,
}

impl<'a, T> CppVectorIterator<'a, T> {
    /// Yield the record under the cursor and advance, or report the end.
    pub fn next(&mut self) -> (r: Option<&'a T>)
        requires
            old(self).vector.wf(),
        ensures
            final(self).vector == old(self).vector,
            old(self).index < old(self).vector@.len() ==> {
                &&& final(self).index == old(self).index + 1
                &&& r matches Some(x) && *x == old(self).vector@[old(self).index as int]
            },
            old(self).index >= old(self).vector@.len() ==> {
                &&& r is None
                &&& final(self).index == old(self).index
            },
    {
        if self.index < self.vector.len() {
            let r = self.vector.get(self.index);
            self.index = self.index + 1;
            Some(r)
        } else {
            None
        }
    }
}

/// Write cursor of a `CppVector`: yields the indices `0 .. count` in address
/// order; the record behind each index is read with `get` and overwritten with
/// `set`.
pub struct CppVectorIteratorMut {
    pub index: usize,
    pub count: usize,
}

impl CppVectorIteratorMut {
    /// Yield the index under the cursor and advance, or report the end.
    pub fn next(&mut self) -> (r: Option<usize>)
        ensures
            final(self).count == old(self).count,
            old(self).index < old(self).count ==> {
                &&& final(self).index == old(self).index + 1
                &&& r == Some(old(self).index)
            },
            old(self).index >= old(self).count ==> {
                &&& r is None
                &&& final(self).index == old(self).index
            },
    {
        if self.index < self.count {
            let i = self.index;
            self.index = self.index + 1;
            Some(i)
        } else {
            None
        }
    }
}

} // verus!
