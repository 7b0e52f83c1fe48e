//! A fixed-capacity circular FIFO queue.
//!
//! The queue never grows: pushing onto a full queue silently drops the new
//! element, and popping an empty queue returns `None`. The contract exposes
//! the queue as a sequence of its elements, front first.
use vstd::prelude::*;

verus! {

/// The bounded FIFO contract: a queue of at most `capacity` elements,
/// first in, first out, where a push onto a full queue is dropped.
pub trait AVecDeque<T: Copy + Default>: Sized {
    spec fn contents(&self) -> Seq<T>;

    spec fn capacity(&self) -> nat;

    spec fn wf(&self) -> bool;

    fn push_back(&mut self, value: T)
        requires
            old(self).wf(),
        ensures
            final(self).wf(),
            final(self).capacity() == old(self).capacity(),
            old(self).contents().len() < old(self).capacity() ==> final(self).contents()
                == old(self).contents().push(value),
            old(self).contents().len() >= old(self).capacity() ==> final(self).contents()
                == old(self).contents(),
    ;

    fn pop_front(&mut self) -> (r: Option<T>)
        requires
            old(self).wf(),
        ensures
            final(self).wf(),
            final(self).capacity() == old(self).capacity(),
            old(self).contents().len() == 0 ==> r is None && final(self).contents()
                == old(self).contents(),
            old(self).contents().len() > 0 ==> r == Some(old(self).contents()[0])
                && final(self).contents() == old(self).contents().drop_first(),
    ;

    fn len(&self) -> (r: usize)
        requires
            self.wf(),
        ensures
            r == self.contents().len(),
    ;

    fn space(&self) -> (r: usize)
        requires
            self.wf(),
        ensures
            r == self.capacity() - self.contents().len(),
    ;

    fn full(&self) -> (r: bool)
        requires
            self.wf(),
        ensures
            r == (self.contents().len() == self.capacity()),
    ;

    fn empty(&self) -> (r: bool)
        requires
            self.wf(),
        ensures
            r == (self.contents().len() == 0),
    ;
}

/// A circular buffer over `N` preallocated slots. `head` is the slot the
/// next pushed element will occupy; the `size` elements before it (wrapping
/// around the end of `data`) are the queue's contents, oldest first.
pub struct VecDeque<const N: usize, T: Copy + Default> {
    pub data: Vec<T>,
    pub head: usize,
    pub size: usize,
}

impl<const N: usize, T: Copy + Default> VecDeque<N, T> {
    /// The slot of `data` holding the `i`-th element of the queue.
    pub open spec fn slot(&self, i: int) -> int {
        let j = self.head - self.size + i;
        if j < 0 {
            j + N
        } else {
            j
        }
    }

    pub fn new() -> (r: Self)
        ensures
            r.wf(),
            r.contents() == Seq::<T>::empty(),
            r.capacity() == N,
    {
        let r = VecDeque { data: vec![T::default(); N], head: 0, size: 0 };
        proof {
            assert(r.contents() =~= Seq::<T>::empty());
        }
        r
    }
}

impl<const N: usize, T: Copy + Default> AVecDeque<T> for VecDeque<N, T> {
    open spec fn contents(&self) -> Seq<T> {
        Seq::new(self.size as nat, |i: int| self.data@[self.slot(i)])
    }

    open spec fn capacity(&self) -> nat {
        N as nat
    }

    open spec fn wf(&self) -> bool {
        &&& self.data@.len() == N
        &&& self.size <= N
        &&& (self.head < N || (N == 0 && self.head == 0))
    }

    fn push_back(&mut self, value: T) {
        if self.size < N {
            self.data[self.head] = value;
            self.head = if self.head < N - 1 {
                self.head + 1
            } else {
                0
            };
            self.size = self.size + 1;
            proof {
                assert(self.contents() =~= old(self).contents().push(value));
            }
        }
    }

    fn pop_front(&mut self) -> (r: Option<T>) {
        if self.size == 0 {
            None
        } else {
            self.size = self.size - 1;
            let r = if self.size < self.head {
                Some(self.data[self.head - self.size - 1])
            } else {
                Some(self.data[N - (self.size + 1 - self.head)])
            };
            proof {
                assert(self.contents() =~= old(self).contents().drop_first());
            }
            r
        }
    }

    fn len(&self) -> (r: usize) {
        self.size
    }

    fn space(&self) -> (r: usize) {
        N - self.size
    }

    fn full(&self) -> (r: bool) {
        self.size == N
    }

    fn empty(&self) -> (r: bool) {
        self.size == 0
    }
}

/// Law: however the queue has been pushed and popped, its length plus its
/// remaining capacity is exactly its capacity, and never more elements than
/// the capacity are held.
pub proof fn lemma_length_plus_space<const N: usize, T: Copy + Default>(q: &VecDeque<N, T>)
    requires
        q.wf(),
    ensures
        q.contents().len() <= q.capacity(),
        q.contents().len() + (q.capacity() - q.contents().len()) == q.capacity(),
{
}

} // verus!
