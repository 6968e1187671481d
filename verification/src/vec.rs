//! Storage for parsed records.
//!
//! The parsers that store what they decode are written once, against
//! the `Veclike` trait. Storage is either of a fixed size, such as
//! `SliceVec`, or grows as needed, such as `Vec`.

use crate::error::ParseError;
use vstd::prelude::*;

verus! {

/// Trait for `Vec`-like containers.
///
/// This allows storage for metadata and revocations to be either
/// dynamically-allocated (like a `Vec`) or of a fixed size (like an
/// array).
pub trait Veclike<T> {
    /// The elements held, oldest first.
    spec fn elems(&self) -> Seq<T>;

    /// The number of elements that the container has room for; `None`
    /// if it grows as needed.
    spec fn limit(&self) -> Option<nat>;

    /// Whether the container is in a consistent state.
    spec fn wf(&self) -> bool;

    /// Try to add a new element to the end of the container. If the
    /// container is full this returns `ParseError::TooManyRecords` and
    /// changes nothing.
    fn try_push(&mut self, t: T) -> (r: Result<(), ParseError>)
        requires
            old(self).wf(),
        ensures
            final(self).wf(),
            final(self).limit() == old(self).limit(),
            r is Ok <==> has_room(old(self).limit(), old(self).elems().len()),
            r is Ok ==> final(self).elems() == old(self).elems().push(t),
            r matches Err(e) ==> e == ParseError::TooManyRecords && final(self).elems() == old(
                self,
            ).elems(),
    ;

    /// Get the data as a slice. It is never longer than the container
    /// has room for.
    fn as_slice(&self) -> (s: &[T])
        requires
            self.wf(),
        ensures
            s@ == self.elems(),
            within_limit(self.limit(), s@.len()),
    ;

    /// Set the container's length to zero.
    fn clear(&mut self)
        requires
            old(self).wf(),
        ensures
            final(self).wf(),
            final(self).limit() == old(self).limit(),
            final(self).elems() == Seq::<T>::empty(),
    ;
}

/// Whether `len` elements fit into a container with the given limit.
pub open spec fn within_limit(limit: Option<nat>, len: nat) -> bool {
    match limit {
        Some(n) => len <= n,
        None => true,
    }
}

/// Whether a container with the given limit that holds `len` elements
/// can take one more.
pub open spec fn has_room(limit: Option<nat>, len: nat) -> bool {
    match limit {
        Some(n) => len < n,
        None => true,
    }
}

/// Wrapper around a slice that allows it to act like a `Vec`. The
/// capacity is limited to the number of elements in the slice.
pub struct SliceVec<'a, T> {
    slice: &'a mut [T],
    len: usize,
}

impl<'a, T> SliceVec<'a, T> {
    /// A consistent `SliceVec` has a limit, and holds no more elements
    /// than that.
    pub proof fn lemma_within_limit(&self)
        requires
            self.wf(),
        ensures
            self.limit() is Some,
            within_limit(self.limit(), self.elems().len()),
    {
    }

    /// Create a new `SliceVec` that holds nothing. What the slice held
    /// before is overwritten as elements are pushed.
    pub fn new(slice: &'a mut [T]) -> (v: Self)
        ensures
            v.wf(),
            v.elems() == Seq::<T>::empty(),
            v.limit() == Some(old(slice)@.len()),
    {
        SliceVec { slice, len: 0 }
    }
}

impl<'a, T> Veclike<T> for SliceVec<'a, T> {
    closed spec fn elems(&self) -> Seq<T> {
        self.slice@.take(self.len as int)
    }

    closed spec fn limit(&self) -> Option<nat> {
        Some(self.slice@.len())
    }

    closed spec fn wf(&self) -> bool {
        self.len <= self.slice@.len()
    }

    fn try_push(&mut self, t: T) -> (r: Result<(), ParseError>) {
        if self.len < self.slice.len() {
            self.slice[self.len] = t;
            self.len += 1;
            assert(self.elems() =~= old(self).elems().push(t));
            Ok(())
        } else {
            Err(ParseError::TooManyRecords)
        }
    }

    fn as_slice(&self) -> (s: &[T]) {
        let s = vstd::slice::slice_subrange(&*self.slice, 0, self.len);
        assert(s@ =~= self.elems());
        s
    }

    fn clear(&mut self) {
        self.len = 0;
        assert(self.elems() =~= Seq::<T>::empty());
    }
}

/// A vector of a fixed capacity that holds its elements inline, without
/// allocation.
#[derive(Clone, Copy, Debug)]
pub struct ArrayStorage<T: Copy, const N: usize> {
    items: [T; N],
    len: usize,
}

impl<T: Copy, const N: usize> ArrayStorage<T, N> {
    /// Consistent storage holds no more than `N` elements, and `N` is
    /// its limit.
    pub proof fn lemma_within_limit(&self)
        requires
            self.wf(),
        ensures
            self.limit() == Some(N as nat),
            self.elems().len() <= N,
    {
        vstd::array::array_len_matches_n(&self.items);
    }

    /// Create storage that holds nothing. `fill` is the value of the
    /// slots that are not in use; it is never handed out.
    pub fn new(fill: T) -> (v: Self)
        ensures
            v.wf(),
            v.elems() == Seq::<T>::empty(),
            v.limit() == Some(N as nat),
    {
        let v = ArrayStorage { items: vstd::array::array_fill_for_copy_types(fill), len: 0 };
        assert(v.elems() =~= Seq::<T>::empty());
        v
    }
}

impl<T: Copy, const N: usize> Veclike<T> for ArrayStorage<T, N> {
    closed spec fn elems(&self) -> Seq<T> {
        self.items@.take(self.len as int)
    }

    closed spec fn limit(&self) -> Option<nat> {
        Some(N as nat)
    }

    closed spec fn wf(&self) -> bool {
        self.len <= N
    }

    fn try_push(&mut self, t: T) -> (r: Result<(), ParseError>) {
        if self.len < N {
            self.items[self.len] = t;
            self.len += 1;
            assert(self.elems() =~= old(self).elems().push(t));
            Ok(())
        } else {
            Err(ParseError::TooManyRecords)
        }
    }

    fn as_slice(&self) -> (s: &[T]) {
        let all = vstd::array::array_as_slice(&self.items);
        let s = vstd::slice::slice_subrange(all, 0, self.len);
        assert(s@ =~= self.elems());
        s
    }

    fn clear(&mut self) {
        self.len = 0;
        assert(self.elems() =~= Seq::<T>::empty());
    }
}

impl<T> Veclike<T> for Vec<T> {
    open spec fn elems(&self) -> Seq<T> {
        self@
    }

    open spec fn limit(&self) -> Option<nat> {
        None
    }

    open spec fn wf(&self) -> bool {
        true
    }

    fn try_push(&mut self, t: T) -> (r: Result<(), ParseError>) {
        self.push(t);
        Ok(())
    }

    fn as_slice(&self) -> (s: &[T]) {
        Vec::as_slice(self)
    }

    fn clear(&mut self) {
        Vec::clear(self)
    }
}

} // verus!
