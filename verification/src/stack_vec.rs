//! A vector with a fixed capacity, backed by a caller-supplied slice.

use vstd::prelude::*;
use vstd::pervasive::cloned;

verus! {

/// A contiguous array type backed by a slice.
///
/// `StackVec` offers `push`, `pop`, `insert` and `remove` like `Vec`, without
/// allocating: its capacity is the length of the slice it was made from, so
/// `push` and `insert` fail once that many elements are held.
#[derive(Debug)]
pub struct StackVec<'a, T: 'a> {
    storage: &'a mut [T],
    len: usize,
}

impl<'a, T: 'a> StackVec<'a, T> {
    /// The length never exceeds the backing storage. Every constructor
    /// establishes this and every method keeps it.
    pub closed spec fn wf(&self) -> bool {
        self.len <= self.storage@.len()
    }

    /// The elements held, first pushed first.
    pub closed spec fn view(&self) -> Seq<T> {
        self.storage@.subrange(0, self.len as int)
    }

    /// The number of elements that can be held.
    pub closed spec fn spec_capacity(&self) -> nat {
        self.storage@.len()
    }

    /// The whole backing storage, including the slots beyond the length.
    pub closed spec fn backing(&self) -> Seq<T> {
        self.storage@
    }

    /// Constructs a new, empty `StackVec<T>` using `storage` as the backing
    /// store. The returned `StackVec` will be able to hold `storage.len()`
    /// values.
    pub fn new(storage: &'a mut [T]) -> (v: StackVec<'a, T>)
        ensures
            v.wf(),
            v@ == Seq::<T>::empty(),
            v.spec_capacity() == old(storage)@.len(),
            v.backing() == old(storage)@,
    {
        StackVec { len: 0, storage }
    }

    /// Constructs a new `StackVec<T>` using `storage` as the backing store. The
    /// first `len` elements of `storage` are treated as if they were pushed
    /// onto the vector.
    pub fn with_len(storage: &'a mut [T], len: usize) -> (v: StackVec<'a, T>)
        requires
            len <= old(storage)@.len(),
        ensures
            v.wf(),
            v@ == old(storage)@.subrange(0, len as int),
            v.spec_capacity() == old(storage)@.len(),
            v.backing() == old(storage)@,
    {
        StackVec { len, storage }
    }

    /// Returns the number of elements this vector can hold.
    pub fn capacity(&self) -> (c: usize)
        requires
            self.wf(),
        ensures
            c == self.spec_capacity(),
            self@.len() <= c,
    {
        self.storage.len()
    }

    /// Shortens the vector, keeping the first `len` elements. If `len` is
    /// greater than the vector's current length, this has no effect. The
    /// capacity is unchanged.
    pub fn truncate(&mut self, len: usize)
        requires
            old(self).wf(),
        ensures
            final(self).wf(),
            final(self)@ == if len < old(self)@.len() {
                old(self)@.subrange(0, len as int)
            } else {
                old(self)@
            },
            final(self).spec_capacity() == old(self).spec_capacity(),
            final(self).backing() == old(self).backing(),
    {
        if self.len > len {
            self.len = len
        }
    }

    /// Extracts a slice containing the entire vector, consuming `self`.
    ///
    /// The returned slice's length is the length of this vector, not the
    /// length of the backing storage.
    pub fn into_slice(self) -> (s: &'a mut [T])
        requires
            self.wf(),
        ensures
            s@ == self@,
    {
        let len = self.len;
        let (head, _) = self.storage.split_at_mut(len);
        head
    }

    /// Extracts a slice containing the entire vector.
    pub fn as_slice(&self) -> (s: &[T])
        requires
            self.wf(),
        ensures
            s@ == self@,
    {
        let (head, _) = self.storage.split_at(self.len);
        head
    }

    /// Extracts a mutable slice of the entire vector. Writes through it
    /// change the held elements and nothing else: a slice keeps its length,
    /// and once the borrow ends the vector holds what the slice holds.
    pub fn as_mut_slice(&mut self) -> (s: &mut [T])
        requires
            old(self).wf(),
        ensures
            s@ == old(self)@,
            final(s)@.len() == s@.len() ==> {
                &&& final(self).wf()
                &&& final(self)@ == final(s)@
                &&& final(self).spec_capacity() == old(self).spec_capacity()
            },
    {
        let len = self.len;
        let (head, tail) = self.storage.split_at_mut(len);
        proof {
            assert(final(head)@.len() == head@.len() ==> (final(head)@ + final(tail)@).subrange(
                0,
                len as int,
            ) =~= final(head)@);
        }
        head
    }

    /// Returns the number of elements in the vector.
    pub fn len(&self) -> (n: usize)
        requires
            self.wf(),
        ensures
            n == self@.len(),
            n <= self.spec_capacity(),
    {
        self.len
    }

    /// Returns true if the vector contains no elements.
    pub fn is_empty(&self) -> (b: bool)
        requires
            self.wf(),
        ensures
            b == (self@.len() == 0),
    {
        self.len == 0
    }

    /// Returns true if the vector is at capacity.
    pub fn is_full(&self) -> (b: bool)
        requires
            self.wf(),
        ensures
            b == (self@.len() == self.spec_capacity()),
    {
        self.len == self.storage.len()
    }

    /// Appends `value` to the back of this vector if the vector is not full.
    ///
    /// Fails, leaving the vector as it was, exactly when the vector is full.
    pub fn push(&mut self, value: T) -> (r: Result<(), ()>)
        requires
            old(self).wf(),
        ensures
            final(self).wf(),
            final(self).spec_capacity() == old(self).spec_capacity(),
            r is Err <==> old(self)@.len() == old(self).spec_capacity(),
            r is Ok ==> final(self)@ == old(self)@.push(value),
            r is Err ==> final(self)@ == old(self)@ && final(self).backing() == old(self).backing(),
    {
        if self.len == self.storage.len() {
            Err(())
        } else {
            self.storage[self.len] = value;
            self.len += 1;
            assert(self.storage@.subrange(0, self.len as int) =~= old(self).storage@.subrange(
                0,
                old(self).len as int,
            ).push(value));
            Ok(())
        }
    }
}

impl<'a, T: Clone + 'a> StackVec<'a, T> {
    /// If this vector is not empty, removes the last element from this vector
    /// by cloning it and returns it. Otherwise returns `None`.
    pub fn pop(&mut self) -> (r: Option<T>)
        requires
            old(self).wf(),
        ensures
            final(self).wf(),
            final(self).spec_capacity() == old(self).spec_capacity(),
            final(self).backing() == old(self).backing(),
            old(self)@.len() == 0 ==> r is None && final(self)@ == old(self)@,
            old(self)@.len() > 0 ==> r is Some && cloned(old(self)@.last(), r->0) && final(self)@
                == old(self)@.drop_last(),
    {
        if self.len > 0 {
            self.len -= 1;
            let item = self.storage[self.len].clone();
            assert(self.storage@.subrange(0, self.len as int) =~= old(self)@.drop_last());
            Some(item)
        } else {
            None
        }
    }

    /// Removes the element at `index` and returns a clone of it; the elements
    /// behind it move one place towards the front, each by cloning.
    pub fn remove(&mut self, index: usize) -> (item: T)
        requires
            old(self).wf(),
            index < old(self)@.len(),
        ensures
            final(self).wf(),
            final(self).spec_capacity() == old(self).spec_capacity(),
            cloned(old(self)@[index as int], item),
            final(self)@.len() == old(self)@.len() - 1,
            forall|i: int| 0 <= i < index ==> final(self)@[i] == old(self)@[i],
            forall|i: int|
                index <= i < final(self)@.len() ==> cloned(
                    #[trigger] old(self)@[i + 1],
                    final(self)@[i],
                ),
    {
        let item = self.storage[index].clone();
        self.len -= 1;
        let mut i: usize = index;
        while i < self.len
            invariant
                index <= i <= self.len,
                self.len == old(self).len - 1,
                old(self).len <= old(self).storage@.len(),
                self.storage@.len() == old(self).storage@.len(),
                forall|j: int| 0 <= j < index ==> self.storage@[j] == old(self).storage@[j],
                forall|j: int|
                    index <= j < i ==> cloned(
                        #[trigger] old(self).storage@[j + 1],
                        self.storage@[j],
                    ),
                forall|j: int|
                    i <= j < self.storage@.len() ==> self.storage@[j] == old(self).storage@[j],
            decreases self.len - i,
        {
            let next = self.storage[i + 1].clone();
            self.storage[i] = next;
            i += 1;
        }
        item
    }

    /// Inserts `element` at position `index`; the elements from `index` on
    /// move one place towards the back, each by cloning.
    ///
    /// Fails, leaving the vector as it was, exactly when the vector is full or
    /// `index` lies beyond its length.
    pub fn insert(&mut self, index: usize, element: T) -> (r: Result<(), ()>)
        requires
            old(self).wf(),
        ensures
            final(self).wf(),
            final(self).spec_capacity() == old(self).spec_capacity(),
            r is Err <==> old(self)@.len() == old(self).spec_capacity() || index > old(self)@.len(),
            r is Err ==> final(self)@ == old(self)@ && final(self).backing() == old(self).backing(),
            r is Ok ==> {
                &&& final(self)@.len() == old(self)@.len() + 1
                &&& final(self)@[index as int] == element
                &&& forall|i: int| 0 <= i < index ==> final(self)@[i] == old(self)@[i]
                &&& forall|i: int|
                    index < i < final(self)@.len() ==> cloned(
                        #[trigger] old(self)@[i - 1],
                        final(self)@[i],
                    )
            },
    {
        if self.len == self.storage.len() || index > self.len {
            Err(())
        } else {
            let mut i: usize = self.len;
            while i > index
                invariant
                    index <= i <= self.len,
                    self.len == old(self).len,
                    self.len < self.storage@.len(),
                    self.storage@.len() == old(self).storage@.len(),
                    forall|j: int| 0 <= j <= i ==> self.storage@[j] == old(self).storage@[j],
                    forall|j: int|
                        i < j <= self.len ==> cloned(
                            #[trigger] old(self).storage@[j - 1],
                            self.storage@[j],
                        ),
                decreases i,
            {
                let moved = self.storage[i - 1].clone();
                self.storage[i] = moved;
                i -= 1;
            }
            self.storage[index] = element;
            self.len += 1;
            Ok(())
        }
    }
}

} // verus!
