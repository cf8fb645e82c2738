//! A bounded FIFO port between stages, with two-phase receipt: a message
//! is looked at with `recv` and only leaves the port on `commit`.
use vstd::prelude::*;

verus! {

pub struct BoundedQueue<T> {
    items: Vec<T>,
    capacity: usize,
}

impl<T> BoundedQueue<T> {
    /// The queued messages, oldest first.
    pub closed spec fn contents(&self) -> Seq<T> {
        self.items@
    }

    pub closed spec fn bound(&self) -> nat {
        self.capacity as nat
    }

    /// Back-pressure bound: the queue never holds more than its bound.
    pub open spec fn wf(&self) -> bool {
        self.contents().len() <= self.bound()
    }

    pub fn new(capacity: usize) -> (r: BoundedQueue<T>)
        ensures
            r.wf(),
            r.contents().len() == 0,
            r.bound() == capacity,
    {
        BoundedQueue { items: Vec::new(), capacity }
    }

    pub fn len(&self) -> (r: usize)
        ensures
            r == self.contents().len(),
    {
        self.items.len()
    }

    pub fn is_full(&self) -> (r: bool)
        requires
            self.wf(),
        ensures
            r == (self.contents().len() == self.bound()),
    {
        self.items.len() >= self.capacity
    }

    /// Enqueues a message, or hands it back when the queue is full.
    pub fn send(&mut self, item: T) -> (r: Result<(), T>)
        requires
            old(self).wf(),
        ensures
            final(self).wf(),
            final(self).bound() == old(self).bound(),
            old(self).contents().len() < old(self).bound() ==> r is Ok && final(self).contents()
                == old(self).contents().push(item),
            old(self).contents().len() == old(self).bound() ==> r == Err::<(), T>(item) && final(self).contents()
                == old(self).contents(),
    {
        if self.items.len() >= self.capacity {
            return Err(item);
        }
        self.items.push(item);
        Ok(())
    }

    /// The oldest message, left in place until it is committed.
    pub fn recv(&self) -> (r: Option<&T>)
        ensures
            self.contents().len() == 0 ==> r is None,
            self.contents().len() > 0 ==> r == Some(&self.contents()[0]),
    {
        if self.items.len() == 0 {
            None
        } else {
            Some(&self.items[0])
        }
    }

    /// Removes the oldest message once it has been handled.
    pub fn commit(&mut self) -> (r: Option<T>)
        requires
            old(self).wf(),
        ensures
            final(self).wf(),
            final(self).bound() == old(self).bound(),
            old(self).contents().len() == 0 ==> r is None && final(self).contents() == old(self).contents(),
            old(self).contents().len() > 0 ==> r == Some(old(self).contents()[0]) && final(self).contents()
                == old(self).contents().drop_first(),
    {
        if self.items.len() == 0 {
            None
        } else {
            let x = self.items.remove(0);
            assert(self.items@ =~= old(self).contents().drop_first());
            Some(x)
        }
    }
}

} // verus!
