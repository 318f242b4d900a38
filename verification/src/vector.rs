use vstd::prelude::*;

verus! {

/// Capacity given to a buffer by its first allocation.
pub const INITIAL_CAPACITY: usize = 8;

/// The capacity a full buffer of capacity `cap` grows to: the initial
/// capacity for a buffer that owns nothing yet, twice the old capacity
/// otherwise, never more than `usize::MAX`.
pub open spec fn grown_capacity(cap: nat) -> nat {
    if cap == 0 {
        INITIAL_CAPACITY as nat
    } else if 2 * cap > usize::MAX {
        usize::MAX as nat
    } else {
        2 * cap
    }
}

/// The capacity that a full buffer of capacity `cap` grows to.
pub fn grown_capacity_of(cap: usize) -> (grown: usize)
    ensures
        grown == grown_capacity(cap as nat),
{
    if cap == 0 {
        INITIAL_CAPACITY
    } else if cap > usize::MAX / 2 {
        usize::MAX
    } else {
        cap * 2
    }
}

/// A growable contiguous buffer. Its view is the sequence of its
/// elements; its capacity follows the doubling policy of
/// [`grown_capacity`].
pub struct Vector<T> {
    inner: Vec<T>,
    cap: usize,
}

impl<T> View for Vector<T> {
    type V = Seq<T>;

    closed spec fn view(&self) -> Seq<T> {
        self.inner@
    }
}

impl<T> Vector<T> {
    /// The number of elements the buffer can hold before it grows again.
    pub closed spec fn capacity(&self) -> nat {
        self.cap as nat
    }

    /// Well-formedness: the buffer holds no more than its capacity.
    pub closed spec fn wf(&self) -> bool {
        self.inner@.len() <= self.cap
    }

    /// A well-formed buffer holds no more than its capacity.
    pub proof fn lemma_len_within_capacity(&self)
        requires
            self.wf(),
        ensures
            self@.len() <= self.capacity(),
    {
    }

    /// The length of a buffer is a machine number.
    pub proof fn lemma_len_fits(&self)
        ensures
            self@.len() <= usize::MAX,
    {
        vstd::std_specs::vec::axiom_spec_len(&self.inner);
    }

    /// An empty buffer that owns no storage yet.
    pub fn new() -> (v: Self)
        ensures
            v.wf(),
            v@ == Seq::<T>::empty(),
            v.capacity() == 0,
    {
        Vector { inner: Vec::new(), cap: 0 }
    }

    /// Number of elements held.
    pub fn len(&self) -> (n: usize)
        ensures
            n == self@.len(),
    {
        self.inner.len()
    }

    /// Whether the buffer holds no element.
    pub fn is_empty(&self) -> (b: bool)
        ensures
            b == (self@.len() == 0),
    {
        self.inner.len() == 0
    }

    /// Number of elements the buffer can hold before it grows again.
    pub fn cap(&self) -> (n: usize)
        ensures
            n == self.capacity(),
    {
        self.cap
    }

    /// Appends `element`, growing the buffer first when it is full.
    pub fn push(&mut self, element: T)
        requires
            old(self).wf(),
        ensures
            final(self).wf(),
            final(self)@ == old(self)@.push(element),
            final(self).capacity() == if old(self)@.len() < old(self).capacity() {
                old(self).capacity()
            } else {
                grown_capacity(old(self).capacity())
            },
    {
        if self.inner.len() >= self.cap {
            self.grow();
        }
        self.inner.push(element);
        proof {
            vstd::std_specs::vec::axiom_spec_len(&self.inner);
        }
    }

    /// Raises the capacity by one step of the growth policy.
    fn grow(&mut self)
        requires
            old(self).inner@.len() == old(self).cap,
        ensures
            final(self).inner@ == old(self).inner@,
            final(self).cap == grown_capacity(old(self).cap as nat),
            final(self).inner@.len() < final(self).cap || final(self).cap == usize::MAX,
    {
        let new_cap: usize = grown_capacity_of(self.cap);
        self.inner.reserve(new_cap - self.cap);
        self.cap = new_cap;
    }

    /// The element at `index`.
    pub fn get(&self, index: usize) -> (element: &T)
        requires
            index < self@.len(),
        ensures
            *element == self@[index as int],
    {
        &self.inner[index]
    }

    /// Replaces the element at `index` by `element`.
    pub fn set(&mut self, index: usize, element: T)
        requires
            old(self).wf(),
            index < old(self)@.len(),
        ensures
            final(self).wf(),
            final(self)@ == old(self)@.update(index as int, element),
            final(self).capacity() == old(self).capacity(),
    {
        self.inner[index] = element;
    }

    /// The elements as a slice, in order.
    pub fn as_slice(&self) -> (slice: &[T])
        ensures
            slice@ == self@,
    {
        self.inner.as_slice()
    }
}

impl<T> std::ops::Deref for Vector<T> {
    type Target = [T];

    fn deref(&self) -> (slice: &[T])
        ensures
            slice@ == self@,
    {
        self.inner.as_slice()
    }
}

/// A consuming iterator over a buffer: it owns the elements that were
/// not handed out yet and gives them up in the order of the buffer.
pub struct IntoIter<T> {
    pending: Vec<T>,
    whole: Ghost<Seq<T>>,
}

impl<T> IntoIter<T> {
    /// All elements of the buffer that the iterator was made from.
    pub closed spec fn source(&self) -> Seq<T> {
        self.whole@
    }

    /// Number of elements handed out so far.
    pub closed spec fn taken(&self) -> nat {
        (self.whole@.len() - self.pending@.len()) as nat
    }

    /// The elements still to come, the next one first.
    pub open spec fn remaining(&self) -> Seq<T> {
        self.source().skip(self.taken() as int)
    }

    /// Well-formedness: the iterator holds the elements of its source
    /// that it has not handed out.
    pub closed spec fn wf(&self) -> bool {
        &&& self.pending@.len() <= self.whole@.len()
        &&& self.pending@.reverse() == self.whole@.skip(self.whole@.len() - self.pending@.len())
    }

    /// A well-formed iterator has taken no more than its source held.
    pub proof fn lemma_wf(&self)
        requires
            self.wf(),
        ensures
            self.taken() <= self.source().len(),
    {
    }

    /// Hands out the next element, or `None` once all were handed out.
    pub fn next(&mut self) -> (item: Option<T>)
        requires
            old(self).wf(),
        ensures
            final(self).wf(),
            final(self).source() == old(self).source(),
            old(self).taken() < old(self).source().len() ==> item == Some(
                old(self).source()[old(self).taken() as int],
            ) && final(self).taken() == old(self).taken() + 1,
            old(self).taken() >= old(self).source().len() ==> item.is_none()
                && final(self).taken() == old(self).taken(),
    {
        let ghost held = self.pending@;
        let item = self.pending.pop();
        proof {
            let whole = self.whole@;
            if held.len() > 0 {
                let k = whole.len() - held.len();
                assert(held.reverse()[0] == whole.skip(k)[0]);
                assert(self.pending@.reverse() =~= held.reverse().skip(1));
                assert(whole.skip(k).skip(1) =~= whole.skip(k + 1));
            } else {
                assert(self.pending@ =~= held);
            }
        }
        item
    }

    /// Number of elements still to come.
    pub fn len(&self) -> (n: usize)
        requires
            self.wf(),
        ensures
            n == self.source().len() - self.taken(),
    {
        self.pending.len()
    }
}

impl<T> Vector<T> {
    /// Turns the buffer into an iterator that owns its elements.
    pub fn into_iter(self) -> (iter: IntoIter<T>)
        ensures
            iter.wf(),
            iter.source() == self@,
            iter.taken() == 0,
    {
        let mut source = self.inner;
        let mut pending: Vec<T> = Vec::new();
        let ghost all = source@;
        while source.len() > 0
            invariant
                source@.len() <= all.len(),
                source@ == all.subrange(0, source@.len() as int),
                pending@ == all.subrange(source@.len() as int, all.len() as int).reverse(),
            decreases source@.len(),
        {
            let item = source.pop();
            match item {
                Some(x) => {
                    pending.push(x);
                    assert(pending@ =~= all.subrange(
                        source@.len() as int,
                        all.len() as int,
                    ).reverse());
                },
                None => {},
            }
        }
        proof {
            assert(all.subrange(0, all.len() as int) =~= all);
            assert(pending@.reverse() =~= all);
            assert(all.skip(0) =~= all);
        }
        IntoIter { pending, whole: Ghost(all) }
    }
}

} // verus!
