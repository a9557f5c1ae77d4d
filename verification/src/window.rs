//! The retention window: a fixed-capacity ring buffer that keeps only the
//! most recently pushed elements, in arrival order.

use vstd::prelude::*;

verus! {

/// The last `n` elements of a sequence, in order; the whole sequence when it
/// is no longer than `n`.
pub open spec fn last_n<T>(s: Seq<T>, n: nat) -> Seq<T> {
    if s.len() <= n {
        s
    } else {
        s.subrange(s.len() - n, s.len() as int)
    }
}

/// What one push does to the retained contents of a window of capacity
/// `cap`: nothing at capacity zero; append while below capacity; otherwise
/// evict the oldest element to make room.
pub open spec fn window_push<T>(s: Seq<T>, cap: nat, item: T) -> Seq<T> {
    if cap == 0 {
        s
    } else if s.len() < cap {
        s.push(item)
    } else {
        s.drop_first().push(item)
    }
}

/// The contents after pushing every element of `items` in order.
pub open spec fn window_push_all<T>(s: Seq<T>, cap: nat, items: Seq<T>) -> Seq<T>
    decreases items.len(),
{
    if items.len() == 0 {
        s
    } else {
        window_push_all(window_push(s, cap, items[0]), cap, items.skip(1))
    }
}

/// One push keeps exactly the last `cap` elements seen.
pub proof fn lemma_window_push_last_n<T>(s: Seq<T>, cap: nat, item: T)
    requires
        s.len() <= cap,
    ensures
        window_push(s, cap, item) =~= last_n(s.push(item), cap),
        window_push(s, cap, item).len() <= cap,
{
}

/// A fixed-capacity buffer retaining the most recently pushed elements.
///
/// Elements live in `storage`; once the buffer is full, `cursor` walks over
/// the slots and marks the oldest retained element, which the next push
/// overwrites.
pub struct RetentionWindow<T> {
    capacity: usize,
    storage: Vec<T>,
    cursor: usize,
}

impl<T> RetentionWindow<T> {
    /// The retained elements, oldest first.
    pub closed spec fn view(&self) -> Seq<T> {
        self.storage@.skip(self.cursor as int) + self.storage@.take(self.cursor as int)
    }

    pub closed spec fn wf(&self) -> bool {
        &&& self.storage@.len() <= self.capacity
        &&& self.cursor <= self.storage@.len()
        &&& (self.storage@.len() < self.capacity ==> self.cursor == self.storage@.len())
        &&& (self.storage@.len() == self.capacity && self.capacity > 0 ==> self.cursor
            < self.capacity)
    }

    pub closed spec fn cap(&self) -> nat {
        self.capacity as nat
    }

    /// A window of the given capacity, retaining nothing yet.
    pub fn new(capacity: usize) -> (w: Self)
        ensures
            w.wf(),
            w@ == Seq::<T>::empty(),
            w.cap() == capacity,
    {
        let w = RetentionWindow { capacity, storage: Vec::new(), cursor: 0 };
        assert(w@ =~= Seq::<T>::empty());
        w
    }

    /// How many elements are retained.
    pub fn len(&self) -> (n: usize)
        requires
            self.wf(),
        ensures
            n == self@.len(),
    {
        self.storage.len()
    }

    /// Push one element, evicting the oldest retained one if the window is
    /// at capacity. A push never fails.
    pub fn push(&mut self, item: T)
        requires
            old(self).wf(),
        ensures
            final(self).wf(),
            final(self).cap() == old(self).cap(),
            final(self)@ == window_push(old(self)@, old(self).cap(), item),
    {
        let ghost pre = self@;
        if self.capacity == 0 {
            return ;
        }
        if self.storage.len() < self.capacity {
            self.storage.push(item);
            self.cursor = if self.storage.len() == self.capacity {
                0
            } else {
                self.storage.len()
            };
            assert(self@ =~= pre.push(item));
        } else {
            let slot = self.storage.len();
            assert(self.cursor < slot);
            self.storage[self.cursor] = item;
            self.cursor = if self.cursor + 1 == self.capacity {
                0
            } else {
                self.cursor + 1
            };
            assert(self@ =~= pre.drop_first().push(item));
        }
    }

    /// Hand out the retained elements, oldest first, consuming the window.
    pub fn drain_ascending(self) -> (out: Vec<T>)
        requires
            self.wf(),
        ensures
            out@ == self@,
    {
        let RetentionWindow { capacity, mut storage, cursor } = self;
        let mut newest = storage.split_off(cursor);
        newest.append(&mut storage);
        assert(newest@ =~= self@);
        newest
    }
}

/// Law: after any sequence of pushes into an empty window, the retained
/// contents are exactly the last `cap` pushed elements, in push order; in
/// particular their number is the smaller of the push count and the
/// capacity.
pub proof fn lemma_window_capacity<T>(cap: nat, items: Seq<T>)
    ensures
        window_push_all(Seq::<T>::empty(), cap, items) == last_n(items, cap),
        window_push_all(Seq::<T>::empty(), cap, items).len() == if items.len() <= cap {
            items.len()
        } else {
            cap
        },
{
    lemma_window_push_all_last_n(Seq::<T>::empty(), cap, items);
    assert(last_n(Seq::<T>::empty() + items, cap) == last_n(items, cap)) by {
        assert(Seq::<T>::empty() + items =~= items);
    }
}

/// Law: a window of capacity zero retains nothing, whatever is pushed.
pub proof fn lemma_zero_capacity_window<T>(items: Seq<T>)
    ensures
        window_push_all(Seq::<T>::empty(), 0, items) == Seq::<T>::empty(),
{
    lemma_window_capacity(0, items);
    assert(last_n(items, 0) =~= Seq::<T>::empty());
}

/// Pushing `items` into a window holding `s` leaves the last `cap` elements
/// of `s + items`.
proof fn lemma_window_push_all_last_n<T>(s: Seq<T>, cap: nat, items: Seq<T>)
    requires
        s.len() <= cap,
    ensures
        window_push_all(s, cap, items) == last_n(s + items, cap),
    decreases items.len(),
{
    if items.len() == 0 {
        assert(s + items =~= s);
        assert(last_n(s + items, cap) == s);
    } else {
        let stepped = window_push(s, cap, items[0]);
        lemma_window_push_last_n(s, cap, items[0]);
        lemma_window_push_all_last_n(stepped, cap, items.skip(1));
        assert(last_n(stepped + items.skip(1), cap) =~= last_n(s + items, cap)) by {
            assert(stepped =~= last_n(s.push(items[0]), cap));
            lemma_last_n_absorb(s.push(items[0]), items.skip(1), cap);
            assert(s.push(items[0]) + items.skip(1) =~= s + items);
        }
    }
}

/// Trimming a sequence to its last `cap` elements before appending more
/// does not change the last `cap` elements of the whole.
pub proof fn lemma_last_n_absorb<T>(a: Seq<T>, b: Seq<T>, cap: nat)
    ensures
        last_n(last_n(a, cap) + b, cap) =~= last_n(a + b, cap),
{
}

} // verus!
