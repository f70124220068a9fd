//! A fixed-capacity first-in-first-out buffer: the replay memory's
//! backing store. Once the buffer sits at capacity, every push evicts
//! the oldest entry first, so occupancy never exceeds the capacity.

use std::collections::VecDeque;
use vstd::prelude::*;

verus! {

/// What one push leaves in a buffer of capacity `max_len` holding `s`:
/// the value is appended, after the oldest entry is evicted when the
/// buffer sits exactly at capacity.
pub open spec fn pushed<T>(s: Seq<T>, max_len: usize, value: T) -> Seq<T> {
    if s.len() == max_len && s.len() > 0 {
        s.skip(1).push(value)
    } else {
        s.push(value)
    }
}

/// What a whole sequence of pushes leaves in the buffer, applied oldest
/// push first.
pub open spec fn pushed_all<T>(s: Seq<T>, max_len: usize, values: Seq<T>) -> Seq<T>
    decreases values.len(),
{
    if values.len() == 0 {
        s
    } else {
        pushed(pushed_all(s, max_len, values.drop_last()), max_len, values.last())
    }
}

/// Law: at most `max_len` pushes into an empty buffer of capacity
/// `max_len` evict nothing — the buffer holds exactly the pushed
/// values, oldest first.
pub proof fn lemma_fill_to_capacity<T>(max_len: usize, values: Seq<T>)
    requires
        values.len() <= max_len,
    ensures
        pushed_all(Seq::<T>::empty(), max_len, values) == values,
    decreases values.len(),
{
    if values.len() > 0 {
        lemma_fill_to_capacity(max_len, values.drop_last());
        assert(values.drop_last().push(values.last()) =~= values);
    } else {
        assert(pushed_all(Seq::<T>::empty(), max_len, values) =~= values);
    }
}

/// Law: with capacity `max_len >= 1`, any sequence of pushes into an
/// empty buffer leaves occupancy at exactly the number of pushes, capped
/// at the capacity — never above it.
pub proof fn lemma_pushed_all_len<T>(max_len: usize, values: Seq<T>)
    requires
        1 <= max_len,
    ensures
        pushed_all(Seq::<T>::empty(), max_len, values).len() == if values.len() <= max_len {
            values.len() as int
        } else {
            max_len as int
        },
    decreases values.len(),
{
    if values.len() > 0 {
        lemma_pushed_all_len(max_len, values.drop_last());
    }
}

/// Law: pushing `max_len + 1` values into an empty buffer of capacity
/// `max_len >= 1` leaves occupancy exactly at capacity, and drops
/// exactly the first (oldest) value: the buffer holds the other
/// `max_len` values, oldest first.
pub proof fn lemma_fill_past_capacity<T>(max_len: usize, values: Seq<T>)
    requires
        1 <= max_len,
        values.len() == max_len + 1,
    ensures
        pushed_all(Seq::<T>::empty(), max_len, values) == values.skip(1),
        pushed_all(Seq::<T>::empty(), max_len, values).len() == max_len,
{
    lemma_fill_to_capacity(max_len, values.drop_last());
    assert(values.drop_last().skip(1).push(values.last()) =~= values.skip(1));
}

/// A queue that never grows past a fixed number of entries: pushing
/// into a full queue first evicts the entry that has been in it
/// longest.
pub struct FixedVecDeque<T> {
    deque: VecDeque<T>,
    max_len: usize,
}

impl<T> View for FixedVecDeque<T> {
    type V = Seq<T>;

    /// The entries, oldest first.
    closed spec fn view(&self) -> Seq<T> {
        self.deque@
    }
}

impl<T> FixedVecDeque<T> {
    /// The fixed capacity the queue was created with.
    pub closed spec fn spec_max_len(&self) -> usize {
        self.max_len
    }

    /// An empty queue of capacity `max_len`.
    pub fn new(max_len: usize) -> (d: Self)
        ensures
            d@ == Seq::<T>::empty(),
            d.spec_max_len() == max_len,
    {
        Self { deque: VecDeque::new(), max_len }
    }

    /// Appends `value`; at capacity, the oldest entry is evicted first.
    pub fn push(&mut self, value: T)
        ensures
            final(self)@ == pushed(old(self)@, old(self).spec_max_len(), value),
            final(self).spec_max_len() == old(self).spec_max_len(),
            1 <= old(self).spec_max_len() && old(self)@.len() <= old(self).spec_max_len()
                ==> final(self)@.len() == (if old(self)@.len() < old(self).spec_max_len() {
                old(self)@.len() + 1int
            } else {
                old(self).spec_max_len() as int
            }) && final(self)@.len() <= final(self).spec_max_len(),
    {
        if self.deque.len() == self.max_len {
            self.deque.pop_front();
        }
        self.deque.push_back(value);
        proof {
            if old(self)@.len() == old(self).spec_max_len() && old(self)@.len() > 0 {
                assert(old(self)@.subrange(1, old(self)@.len() as int) =~= old(self)@.skip(1));
            }
        }
    }

    /// The entries as a deque, oldest first.
    pub fn as_deque(&self) -> (d: &VecDeque<T>)
        ensures
            d@ == self@,
    {
        &self.deque
    }

    /// Current occupancy.
    pub fn len(&self) -> (n: usize)
        ensures
            n == self@.len(),
    {
        self.deque.len()
    }
}

} // verus!
