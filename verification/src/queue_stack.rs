use vstd::prelude::*;

verus! {

/// A FIFO queue over a growable array: elements enter at the back and
/// leave at the front.
pub struct Queue<T> {
    elements: Vec<T>,
}

impl<T> View for Queue<T> {
    type V = Seq<T>;

    closed spec fn view(&self) -> Seq<T> {
        self.elements@
    }
}

impl<T> Queue<T> {
    /// Returns an empty queue.
    pub fn new() -> (r: Queue<T>)
        ensures
            r@ == Seq::<T>::empty(),
    {
        Queue { elements: Vec::new() }
    }

    /// Adds `value` at the back of the queue.
    pub fn enqueue(&mut self, value: T)
        ensures
            final(self)@ == old(self)@.push(value),
    {
        self.elements.push(value);
    }

    /// Removes and returns the front element, or an error when the queue
    /// is empty.
    pub fn dequeue(&mut self) -> (r: Result<T, &'static str>)
        ensures
            old(self)@.len() > 0 ==> (r matches Ok(v) && v == old(self)@[0]) && final(self)@ == old(
                self,
            )@.drop_first(),
            old(self)@.len() == 0 ==> (r matches Err(m) && m@ == "Queue is empty"@) && final(self)@
                == old(self)@,
    {
        if !self.elements.is_empty() {
            let v = self.elements.remove(0);
            proof {
                assert(self@ =~= old(self)@.drop_first());
            }
            Ok(v)
        } else {
            Err("Queue is empty")
        }
    }

    /// Returns the front element without removing it, or an error when the
    /// queue is empty.
    pub fn peek(&self) -> (r: Result<&T, &'static str>)
        ensures
            self@.len() > 0 ==> (r matches Ok(v) && *v == self@[0]),
            self@.len() == 0 ==> (r matches Err(m) && m@ == "Queue is empty"@),
    {
        if self.elements.len() > 0 {
            Ok(&self.elements[0])
        } else {
            Err("Queue is empty")
        }
    }

    /// The number of queued elements.
    pub fn size(&self) -> (r: usize)
        ensures
            r == self@.len(),
    {
        self.elements.len()
    }

    /// Reports whether the queue holds no element.
    pub fn is_empty(&self) -> (r: bool)
        ensures
            r == (self@.len() == 0),
    {
        self.elements.is_empty()
    }
}

/// A LIFO stack emulated with two FIFO queues: pushes enqueue into the
/// primary queue, and a pop drains all but the last element into the
/// helper queue, hands the last one out, and swaps the queues back.
#[allow(non_camel_case_types)]
pub struct myStack<T> {
    q1: Queue<T>,
    q2: Queue<T>,
}

impl<T> View for myStack<T> {
    type V = Seq<T>;

    closed spec fn view(&self) -> Seq<T> {
        self.q1@
    }
}

impl<T> myStack<T> {
    /// Between operations the helper queue is empty.
    pub closed spec fn wf(&self) -> bool {
        self.q2@.len() == 0
    }

    /// Returns an empty stack.
    pub fn new() -> (r: Self)
        ensures
            r.wf(),
            r@ == Seq::<T>::empty(),
    {
        Self { q1: Queue::new(), q2: Queue::new() }
    }

    /// Pushes `elem` on top of the stack.
    pub fn push(&mut self, elem: T)
        requires
            old(self).wf(),
        ensures
            final(self).wf(),
            final(self)@ == old(self)@.push(elem),
    {
        self.q1.enqueue(elem);
    }

    /// Removes and returns the top element, or an error when the stack is
    /// empty.
    pub fn pop(&mut self) -> (r: Result<T, &'static str>)
        requires
            old(self).wf(),
        ensures
            final(self).wf(),
            old(self)@.len() == 0 ==> (r matches Err(m) && m@ == "Stack is empty"@) && final(self)@
                == old(self)@,
            old(self)@.len() > 0 ==> (r matches Ok(v) && v == old(self)@.last()) && final(self)@
                == old(self)@.drop_last(),
    {
        if self.q1.is_empty() {
            return Err("Stack is empty");
        }
        // Move everything but the last element over to the helper queue.
        while self.q1.size() > 1
            invariant
                self.q1@.len() >= 1,
                self.q2@ + self.q1@ == old(self)@,
            decreases self.q1@.len(),
        {
            let moved = self.q1.dequeue();
            if let Ok(elem) = moved {
                self.q2.enqueue(elem);
                proof {
                    assert(self.q2@ + self.q1@ =~= old(self)@);
                }
            }
        }
        // The single element left in the primary queue is the stack's top.
        match self.q1.dequeue() {
            Ok(top) => {
                proof {
                    assert(old(self)@.last() == (self.q2@ + seq![top]).last());
                    assert(self.q2@ =~= old(self)@.drop_last());
                }
                core::mem::swap(&mut self.q1, &mut self.q2);
                Ok(top)
            },
            Err(_) => {
                // Unreachable: the primary queue held exactly one element.
                Err("Stack is empty")
            },
        }
    }

    /// Reports whether the stack holds no element.
    pub fn is_empty(&self) -> (r: bool)
        requires
            self.wf(),
        ensures
            r == (self@.len() == 0),
    {
        self.q1.is_empty()
    }
}

} // verus!
