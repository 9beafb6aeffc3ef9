//! A fixed-capacity buffer that overwrites its oldest item once it is full.

use vstd::prelude::*;

verus! {

/// A ring of at most `capacity` items. `buffer` grows until it holds
/// `capacity` items; from then on each new item replaces the oldest one, which
/// `head` points at.
#[derive(Debug)]
pub struct RingBuffer<T> {
    pub head: usize,
    pub buffer: Vec<T>,
    pub capacity: usize,
}

impl<T> View for RingBuffer<T> {
    type V = Seq<T>;

    /// The items, oldest first.
    open spec fn view(&self) -> Seq<T> {
        let head = self.head as int;
        self.buffer@.subrange(head, self.buffer@.len() as int) + self.buffer@.subrange(0, head)
    }
}

/// What a ring of `capacity` places holds after one more item: the oldest item
/// goes when there is no room left.
pub open spec fn pushed<T>(items: Seq<T>, capacity: nat, item: T) -> Seq<T> {
    if items.len() < capacity {
        items.push(item)
    } else {
        items.drop_first().push(item)
    }
}

/// What the ring holds after a run of items.
pub open spec fn pushed_all<T>(items: Seq<T>, capacity: nat, more: Seq<T>) -> Seq<T>
    decreases more.len(),
{
    if more.len() == 0 {
        items
    } else {
        pushed(pushed_all(items, capacity, more.drop_last()), capacity, more.last())
    }
}

impl<T> RingBuffer<T> {
    /// The head stays inside the buffer, and only a full buffer has wrapped.
    pub open spec fn wf(&self) -> bool {
        &&& self.buffer@.len() <= self.capacity
        &&& self.head == 0 || self.head < self.buffer@.len()
        &&& self.head > 0 ==> self.buffer@.len() == self.capacity
    }

    /// An empty ring with room for `capacity` items.
    pub fn new(capacity: usize) -> (ring: Self)
        ensures
            ring.wf(),
            ring.capacity == capacity,
            ring.head == 0,
            ring.buffer@ == Seq::<T>::empty(),
            ring@ == Seq::<T>::empty(),
    {
        let ring = Self { head: 0, buffer: Vec::with_capacity(capacity), capacity };
        assert(ring@ =~= Seq::<T>::empty());
        ring
    }

    /// How many items the ring holds.
    pub fn len(&self) -> (len: usize)
        requires
            self.wf(),
        ensures
            len == self@.len(),
            len <= self.capacity,
    {
        self.buffer.len()
    }

    /// Walks the items of a ring that is not empty, oldest first.
    pub fn iter(&self) -> (iter: RingBufferIterator<'_, T>)
        requires
            self.wf(),
            self@.len() > 0,
        ensures
            iter.wf(),
            iter@ == self@,
    {
        let iter = RingBufferIterator { buffer: self, yielded: 0 };
        assert(iter@ =~= self@);
        iter
    }

    /// Appends an item; a full ring drops its oldest item, and the new one takes
    /// its place in the buffer.
    pub fn push_back(&mut self, item: T)
        requires
            old(self).wf(),
            old(self).capacity > 0,
        ensures
            final(self).wf(),
            final(self).capacity == old(self).capacity,
            final(self)@ == pushed(old(self)@, old(self).capacity as nat, item),
            old(self)@.len() < old(self).capacity ==> {
                &&& final(self).buffer@ == old(self).buffer@.push(item)
                &&& final(self).head == old(self).head
            },
            old(self)@.len() == old(self).capacity ==> {
                &&& final(self).buffer@ == old(self).buffer@.update(old(self).head as int, item)
                &&& final(self).head == if old(self).head + 1 == old(self).capacity {
                    0
                } else {
                    old(self).head + 1
                }
            },
    {
        let ghost before = self@;
        if self.buffer.len() < self.capacity {
            self.buffer.push(item);
            assert(self@ =~= before.push(item));
        } else {
            let head: usize = self.head;
            self.buffer[head] = item;
            self.head = head + 1;
            if self.head == self.buffer.len() {
                self.head = 0;
            }
            assert(self@ =~= before.drop_first().push(item));
        }
    }

    /// The item `index` places after the oldest one.
    pub fn index(&self, index: usize) -> (item: &T)
        requires
            self.wf(),
            index < self@.len(),
        ensures
            *item == self@[index as int],
    {
        let len: usize = self.buffer.len();
        if index < len - self.head {
            &self.buffer[self.head + index]
        } else {
            &self.buffer[index - (len - self.head)]
        }
    }
}

/// The walk that [`RingBuffer::iter`] starts.
pub struct RingBufferIterator<'a, T> {
    pub buffer: &'a RingBuffer<T>,
    pub yielded: usize,
}

impl<'a, T> View for RingBufferIterator<'a, T> {
    type V = Seq<T>;

    /// The items still to come.
    open spec fn view(&self) -> Seq<T> {
        self.buffer@.subrange(self.yielded as int, self.buffer@.len() as int)
    }
}

impl<'a, T> RingBufferIterator<'a, T> {
    /// The walk is over a well-formed ring and has not run past its end.
    pub open spec fn wf(&self) -> bool {
        &&& self.buffer.wf()
        &&& self.yielded <= self.buffer@.len()
    }

    /// The next item, or `None` once every item has been handed out.
    pub fn next(&mut self) -> (item: Option<&'a T>)
        requires
            old(self).wf(),
        ensures
            final(self).wf(),
            match item {
                Some(x) => old(self)@.len() > 0 && *x == old(self)@[0] && final(self)@
                    == old(self)@.drop_first(),
                None => old(self)@.len() == 0 && final(self)@ == old(self)@,
            },
    {
        let ghost before = self@;
        if self.yielded == self.buffer.len() {
            return None;
        }
        let item = self.buffer.index(self.yielded);
        self.yielded = self.yielded + 1;
        assert(self@ =~= before.drop_first());
        Some(item)
    }
}

/// A ring that took a run of items holds the newest of everything it ever saw,
/// in the order in which it came, and as many as it has room for.
pub proof fn holds_the_newest<T>(items: Seq<T>, capacity: nat, more: Seq<T>)
    requires
        items.len() <= capacity,
        capacity > 0,
    ensures
        ({
            let seen = items + more;
            let kept = if seen.len() < capacity { seen.len() } else { capacity };
            pushed_all(items, capacity, more) == seen.subrange(
                seen.len() - kept,
                seen.len() as int,
            )
        }),
    decreases more.len(),
{
    let seen = items + more;
    if more.len() == 0 {
        assert(seen =~= items);
        assert(seen.subrange(0, seen.len() as int) =~= items);
    } else {
        holds_the_newest(items, capacity, more.drop_last());
        let seen_before = items + more.drop_last();
        assert(seen =~= seen_before.push(more.last()));
        let kept = if seen.len() < capacity { seen.len() } else { capacity };
        assert(pushed_all(items, capacity, more) =~= seen.subrange(
            seen.len() - kept,
            seen.len() as int,
        ));
    }
}

/// An item that is pushed is the newest; those before it stay in order, all of them
/// while there is room, and without the oldest once the ring is full.
pub proof fn pushing_keeps_the_order<T>(ring: &mut RingBuffer<T>, item: T, i: int)
    requires
        call_ensures(RingBuffer::<T>::push_back, (ring, item), ()),
        old(ring).wf(),
        old(ring).capacity > 0,
    ensures
        final(ring).capacity == old(ring).capacity,
        ({
            let before = old(ring)@;
            let after = final(ring)@;
            let full = old(ring).buffer@.len() == old(ring).capacity;
            &&& !full ==> after.len() == before.len() + 1 && (0 <= i < before.len() ==> after[i]
                == before[i])
            &&& full ==> after.len() == before.len() && (0 <= i < before.len() - 1 ==> after[i]
                == before[i + 1])
            &&& after.last() == item
        }),
{
}

/// The items are those of the buffer from the head on, and then those before it.
pub proof fn items_start_at_the_head<T>(ring: &RingBuffer<T>, index: usize, item: &T, len: usize)
    requires
        call_ensures(RingBuffer::<T>::index, (ring, index), item),
        call_ensures(RingBuffer::<T>::len, (ring,), len),
        ring.wf(),
        index < ring.buffer@.len(),
    ensures
        len == ring.buffer@.len(),
        ring.head + index < ring.buffer@.len() ==> *item == ring.buffer@[ring.head + index],
        ring.head + index >= ring.buffer@.len() ==> *item == ring.buffer@[ring.head + index
            - ring.buffer@.len()],
{
}

/// A walk hands out the items from the oldest on, one at a time, and then nothing.
pub proof fn walk_goes_from_the_oldest_on<'a, T>(
    ring: &'a RingBuffer<T>,
    start: RingBufferIterator<'a, T>,
    walk: &mut RingBufferIterator<'a, T>,
    item: Option<&'a T>,
    i: int,
)
    requires
        call_ensures(RingBuffer::<T>::iter, (ring,), start),
        call_ensures(RingBufferIterator::<'a, T>::next, (walk,), item),
        ring.wf(),
        old(walk).wf(),
    ensures
        start@.len() == ring@.len(),
        0 <= i < ring@.len() ==> start@[i] == ring@[i],
        item is Some <==> old(walk)@.len() > 0,
        item is Some ==> *item->0 == old(walk)@[0] && final(walk)@.len() + 1 == old(walk)@.len(),
        item is Some && 0 <= i < final(walk)@.len() ==> final(walk)@[i] == old(walk)@[i + 1],
        item is None ==> final(walk)@.len() == 0,
{
}

} // verus!
