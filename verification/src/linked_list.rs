//! Ordered container of ownership-transferred items, used for the scheduler's
//! ready and waiting queues and for the free-message pool.
//!
//! An intrusive design threads nodes through the lists themselves; here a
//! node (`ListItem`) is a plain value that is moved into and out of a list, so
//! list membership is ownership and no aliasing can arise.  A list is viewed
//! as the sequence of the payloads it currently holds, head first.

use vstd::prelude::*;

verus! {

/// One payload cell.  An item belongs to exactly one list at a time: `push`
/// moves it in, `pop` moves it out.
pub struct ListItem<T> {
    pub item: T,
}

impl<T> ListItem<T> {
    /// Wraps a payload so it can be inserted into a list.
    pub fn create(item: T) -> (r: ListItem<T>)
        ensures
            r.item == item,
    {
        ListItem { item }
    }
}

/// A FIFO list: `push` appends at the tail, `pop` removes the head.
pub struct LinkedList<T> {
    items: Vec<T>,
}

impl<T> View for LinkedList<T> {
    type V = Seq<T>;

    closed spec fn view(&self) -> Seq<T> {
        self.items@
    }
}

impl<T> LinkedList<T> {
    /// An empty list.
    pub fn new() -> (r: LinkedList<T>)
        ensures
            r@ == Seq::<T>::empty(),
    {
        LinkedList { items: Vec::new() }
    }

    pub fn is_empty(&self) -> (r: bool)
        ensures
            r == (self@.len() == 0),
    {
        self.items.len() == 0
    }

    pub fn len(&self) -> (r: usize)
        ensures
            r == self@.len(),
    {
        self.items.len()
    }

    /// Removes and returns the head.  Popping an empty list is a fatal
    /// condition for the kernel, so it is ruled out here rather than handled.
    pub fn pop(&mut self) -> (r: Option<ListItem<T>>)
        requires
            old(self)@.len() > 0,
        ensures
            r matches Some(li) && li.item == old(self)@[0],
            final(self)@ == old(self)@.subrange(1, old(self)@.len() as int),
    {
        let item = self.items.remove(0);
        proof {
            assert(self.items@ =~= old(self)@.subrange(1, old(self)@.len() as int));
        }
        Some(ListItem { item })
    }

    /// Appends an item at the tail.
    pub fn push(&mut self, item: ListItem<T>)
        ensures
            final(self)@ == old(self)@.push(item.item),
    {
        self.items.push(item.item);
    }

    /// Peeks at the head payload without removing it.
    pub fn head_mut(&mut self) -> (r: Option<&mut T>)
        ensures
            old(self)@.len() == 0 ==> r is None && final(self)@ == old(self)@,
            old(self)@.len() > 0 ==> (r matches Some(m) && *m == old(self)@[0]
                && final(self)@ == old(self)@.update(0, *final(m))),
    {
        if self.items.len() == 0 {
            None
        } else {
            Some(&mut self.items[0])
        }
    }

    /// Splices the entire contents of `target` onto this list's tail and
    /// leaves `target` empty.
    pub fn join(&mut self, target: &mut LinkedList<T>)
        ensures
            final(self)@ == old(self)@ + old(target)@,
            final(target)@ == Seq::<T>::empty(),
    {
        self.items.append(&mut target.items);
    }

    pub fn iter(&self) -> (r: Iter<'_, T>)
        ensures
            r.elements() == self@,
            r.position() == 0,
    {
        Iter { list: self, pos: 0 }
    }
}

/// A cursor over a list borrowed immutably; `next` yields the payloads from
/// head to tail.
pub struct Iter<'a, T> {
    list: &'a LinkedList<T>,
    pos: usize,
}

impl<'a, T> Iter<'a, T> {
    /// The sequence being walked.
    pub closed spec fn elements(self) -> Seq<T> {
        self.list@
    }

    /// How many payloads have been yielded so far.
    pub closed spec fn position(self) -> int {
        self.pos as int
    }

    pub fn next(&mut self) -> (r: Option<&'a T>)
        ensures
            final(self).elements() == old(self).elements(),
            old(self).position() < old(self).elements().len() ==> (r matches Some(v)
                && *v == old(self).elements()[old(self).position()]
                && final(self).position() == old(self).position() + 1),
            old(self).position() >= old(self).elements().len() ==> r is None
                && final(self).position() == old(self).position(),
    {
        if self.pos < self.list.items.len() {
            let r = &self.list.items[self.pos];
            self.pos = self.pos + 1;
            Some(r)
        } else {
            None
        }
    }
}

} // verus!
