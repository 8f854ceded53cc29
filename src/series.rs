use std::collections::VecDeque;

use vstd::prelude::*;

verus! {

/// The last `cap` items of `s` (all of them where there are no more).
pub open spec fn keep_last<T>(s: Seq<T>, cap: nat) -> Seq<T> {
    if s.len() <= cap {
        s
    } else {
        s.subrange(s.len() - cap, s.len() as int)
    }
}

/// A sequence of fixed capacity: pushing past it drops the oldest item.
pub struct BoundedSeries<T> {
    items: VecDeque<T>,
    capacity: usize,
}

impl<T> View for BoundedSeries<T> {
    type V = Seq<T>;

    closed spec fn view(&self) -> Seq<T> {
        self.items@
    }
}

impl<T> BoundedSeries<T> {
    pub closed spec fn cap(&self) -> nat {
        self.capacity as nat
    }

    /// The series holds no more than its capacity.
    pub open spec fn wf(&self) -> bool {
        self@.len() <= self.cap()
    }

    pub fn new(capacity: usize) -> (r: Self)
        ensures
            r.wf(),
            r@ == Seq::<T>::empty(),
            r.cap() == capacity,
    {
        BoundedSeries { items: VecDeque::new(), capacity }
    }

    pub fn capacity(&self) -> (r: usize)
        ensures
            r == self.cap(),
    {
        self.capacity
    }

    pub fn len(&self) -> (r: usize)
        ensures
            r == self@.len(),
    {
        self.items.len()
    }

    /// The items, oldest first.
    pub fn to_vec(&self) -> (r: Vec<T>)
        where
            T: Copy,
        ensures
            r@ == self@,
    {
        let mut r: Vec<T> = Vec::new();
        let mut i: usize = 0;
        while i < self.items.len()
            invariant
                i <= self@.len(),
                r@ == self@.subrange(0, i as int),
            decreases self@.len() - i,
        {
            r.push(self.items[i]);
            i = i + 1;
            assert(r@ =~= self@.subrange(0, i as int));
        }
        assert(self@.subrange(0, self@.len() as int) =~= self@);
        r
    }

    /// Appends `v`, dropping the oldest item when the capacity is exceeded.
    pub fn push(&mut self, v: T)
        requires
            old(self).wf(),
        ensures
            final(self).wf(),
            final(self).cap() == old(self).cap(),
            final(self)@ == keep_last(old(self)@.push(v), old(self).cap()),
    {
        self.items.push_back(v);
        if self.items.len() > self.capacity {
            self.items.pop_front();
        }
        assert(self@ =~= keep_last(old(self)@.push(v), old(self).cap()));
    }

    pub fn clear(&mut self)
        ensures
            final(self).wf(),
            final(self).cap() == old(self).cap(),
            final(self)@ == Seq::<T>::empty(),
    {
        self.items.clear();
    }
}

/// The series that pushing each of `vs` in turn onto `s` leaves, at capacity `cap`.
pub open spec fn push_all<T>(s: Seq<T>, cap: nat, vs: Seq<T>) -> Seq<T>
    decreases vs.len(),
{
    if vs.len() == 0 {
        s
    } else {
        keep_last(push_all(s, cap, vs.drop_last()).push(vs.last()), cap)
    }
}

/// However many items are pushed, a series within its capacity stays within it, and
/// holds the most recent items in the order they came (first in, first out).
pub proof fn lemma_push_all_bounded<T>(s: Seq<T>, cap: nat, vs: Seq<T>)
    requires
        s.len() <= cap,
    ensures
        push_all(s, cap, vs).len() <= cap,
        push_all(s, cap, vs) == keep_last(s + vs, cap),
    decreases vs.len(),
{
    if vs.len() == 0 {
        assert(s + vs =~= s);
    } else {
        lemma_push_all_bounded(s, cap, vs.drop_last());
        let all = s + vs;
        assert(all =~= (s + vs.drop_last()).push(vs.last()));
        let prev = keep_last(s + vs.drop_last(), cap);
        if (s + vs.drop_last()).len() > cap {
            assert(keep_last(prev.push(vs.last()), cap) =~= keep_last(all, cap));
        } else {
            assert(keep_last(prev.push(vs.last()), cap) =~= keep_last(all, cap));
        }
    }
}

} // verus!
