//! A first-in, first-out queue over a vector, and a stack made of two
//! such queues.

use vstd::prelude::*;

verus! {

/// A queue: elements leave in the order in which they came.
#[derive(Debug)]
pub struct Queue<T> {
    elements: Vec<T>,
}

impl<T> View for Queue<T> {
    type V = Seq<T>;

    /// The waiting elements, the next to leave first.
    closed spec fn view(&self) -> Seq<T> {
        self.elements@
    }
}

impl<T> Queue<T> {
    /// An empty queue.
    pub fn new() -> (q: Queue<T>)
        ensures
            q@ == Seq::<T>::empty(),
    {
        Queue { elements: Vec::new() }
    }

    /// Puts `value` at the back.
    pub fn enqueue(&mut self, value: T)
        ensures
            final(self)@ == old(self)@.push(value),
    {
        self.elements.push(value)
    }

    /// Takes the element at the front, or reports that there is none.
    pub fn dequeue(&mut self) -> (r: Result<T, &str>)
        ensures
            old(self)@.len() > 0 ==> r == Ok::<T, &str>(old(self)@[0]) && final(self)@ == old(
                self,
            )@.skip(1),
            old(self)@.len() == 0 ==> r == Err::<T, &str>("Queue is empty") && final(self)@ == old(
                self,
            )@,
    {
        if !self.elements.is_empty() {
            let front = self.elements.remove(0usize);
            Ok(front)
        } else {
            Err("Queue is empty")
        }
    }

    /// Looks at the element at the front, or reports that there is none.
    pub fn peek(&self) -> (r: Result<&T, &str>)
        ensures
            self@.len() > 0 ==> r == Ok::<&T, &str>(&self@[0]),
            self@.len() == 0 ==> r == Err::<&T, &str>("Queue is empty"),
    {
        match self.elements.first() {
            Some(value) => Ok(value),
            None => Err("Queue is empty"),
        }
    }

    /// The number of waiting elements.
    pub fn size(&self) -> (n: usize)
        ensures
            n == self@.len(),
    {
        self.elements.len()
    }

    /// Whether nothing is waiting.
    pub fn is_empty(&self) -> (b: bool)
        ensures
            b == (self@.len() == 0),
    {
        self.elements.is_empty()
    }
}

impl<T> Default for Queue<T> {
    fn default() -> (q: Queue<T>)
        ensures
            q@ == Seq::<T>::empty(),
    {
        Queue { elements: Vec::new() }
    }
}

/// A stack built on two queues, of which one is always empty.
#[allow(non_camel_case_types)]
pub struct myStack<T> {
    q1: Queue<T>,
    q2: Queue<T>,
}

impl<T> View for myStack<T> {
    type V = Seq<T>;

    /// The stacked elements, the top last.
    closed spec fn view(&self) -> Seq<T> {
        self.q1@ + self.q2@
    }
}

impl<T> myStack<T> {
    /// At most one of the two queues holds elements.
    pub closed spec fn wf(&self) -> bool {
        self.q1@.len() == 0 || self.q2@.len() == 0
    }

    /// An empty stack.
    pub fn new() -> (s: Self)
        ensures
            s.wf(),
            s@ == Seq::<T>::empty(),
    {
        let s = Self { q1: Queue::<T>::new(), q2: Queue::<T>::new() };
        s
    }

    /// Puts `elem` on top.
    pub fn push(&mut self, elem: T)
        requires
            old(self).wf(),
        ensures
            final(self).wf(),
            final(self)@ == old(self)@.push(elem),
    {
        if !self.q1.is_empty() {
            self.q1.enqueue(elem);
        } else {
            self.q2.enqueue(elem);
        }
    }

    /// Takes the top element, or reports that there is none.
    pub fn pop(&mut self) -> (r: Result<T, &str>)
        requires
            old(self).wf(),
        ensures
            final(self).wf(),
            old(self)@.len() > 0 ==> r == Ok::<T, &str>(old(self)@.last()) && final(self)@ == old(
                self,
            )@.drop_last(),
            old(self)@.len() == 0 ==> r == Err::<T, &str>("Stack is empty") && final(self)@ == old(
                self,
            )@,
    {
        let (from_queue, to_queue) = if !self.q1.is_empty() {
            (&mut self.q1, &mut self.q2)
        } else if !self.q2.is_empty() {
            (&mut self.q2, &mut self.q1)
        } else {
            return Err("Stack is empty");
        };
        while from_queue.size() > 1
            invariant
                from_queue@.len() > 0,
                to_queue@ + from_queue@ == old(self)@,
            decreases from_queue@.len(),
        {
            let elem = from_queue.dequeue().unwrap();
            to_queue.enqueue(elem);
        }
        from_queue.dequeue()
    }

    /// Whether the stack holds no element.
    pub fn is_empty(&self) -> (b: bool)
        ensures
            b == (self@.len() == 0),
    {
        self.q1.is_empty() && self.q2.is_empty()
    }
}

} // verus!
