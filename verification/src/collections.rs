//! A last-in-first-out stack and a first-in-first-out queue, both modelled as
//! a `Seq` whose last element is the most recently inserted one.
use std::collections::VecDeque;
use vstd::prelude::*;

verus! {

/// A stack. The view lists the elements from the bottom to the top.
#[derive(Debug)]
pub struct Stack<T> {
    data: VecDeque<T>,
}

impl<T> View for Stack<T> {
    type V = Seq<T>;

    closed spec fn view(&self) -> Seq<T> {
        self.data@
    }
}

impl<T> Stack<T> {
    pub fn new() -> (stack: Self)
        ensures
            stack@ == Seq::<T>::empty(),
    {
        Self { data: VecDeque::new() }
    }

    /// Builds a stack whose bottom is the first element of `vec` and whose top
    /// is its last.
    pub fn from_vec(vec: Vec<T>) -> (stack: Self)
        ensures
            stack@ == vec@,
    {
        let mut rest = vec;
        let mut data: VecDeque<T> = VecDeque::new();
        loop
            invariant
                rest@ + data@ == vec@,
            decreases rest.len(),
        {
            match rest.pop() {
                Some(item) => {
                    data.push_front(item);
                    assert(rest@ + data@ =~= vec@);
                },
                None => {
                    assert(data@ =~= vec@);
                    return Self { data };
                },
            }
        }
    }

    pub fn push(&mut self, data: T)
        ensures
            final(self)@ == old(self)@.push(data),
    {
        self.data.push_back(data);
    }

    /// Removes and returns the top, the element pushed last.
    pub fn pop(&mut self) -> (top: Option<T>)
        ensures
            old(self)@.len() == 0 ==> top is None && final(self)@ == old(self)@,
            old(self)@.len() > 0 ==> top == Some(old(self)@.last()) && final(self)@ == old(
                self,
            )@.drop_last(),
    {
        self.data.pop_back()
    }

    /// Borrows the top, the element that `pop` would remove.
    pub fn peek(&self) -> (top: Option<&T>)
        ensures
            self@.len() == 0 ==> top is None,
            self@.len() > 0 ==> top == Some(&self@.last()),
    {
        let len = self.data.len();
        if len == 0 {
            None
        } else {
            Some(&self.data[len - 1])
        }
    }

    pub fn len(&self) -> (len: usize)
        ensures
            len == self@.len(),
    {
        self.data.len()
    }

    pub fn is_empty(&self) -> (empty: bool)
        ensures
            empty == (self@.len() == 0),
    {
        self.data.len() == 0
    }

    /// Borrows the element at `idx`, counted from the bottom.
    pub fn get(&self, idx: usize) -> (item: Option<&T>)
        ensures
            idx >= self@.len() ==> item is None,
            idx < self@.len() ==> item == Some(&self@[idx as int]),
    {
        if idx < self.data.len() {
            Some(&self.data[idx])
        } else {
            None
        }
    }
}

/// A queue. The view lists the elements from the front (the oldest) to the back.
#[derive(Debug)]
pub struct Queue<T> {
    data: VecDeque<T>,
}

impl<T> View for Queue<T> {
    type V = Seq<T>;

    closed spec fn view(&self) -> Seq<T> {
        self.data@
    }
}

impl<T> Queue<T> {
    pub fn new() -> (queue: Self)
        ensures
            queue@ == Seq::<T>::empty(),
    {
        Self { data: VecDeque::new() }
    }

    /// Builds a queue whose front is the first element of `vec`.
    pub fn from_vec(vec: Vec<T>) -> (queue: Self)
        ensures
            queue@ == vec@,
    {
        let mut rest = vec;
        let mut data: VecDeque<T> = VecDeque::new();
        loop
            invariant
                rest@ + data@ == vec@,
            decreases rest.len(),
        {
            match rest.pop() {
                Some(item) => {
                    data.push_front(item);
                    assert(rest@ + data@ =~= vec@);
                },
                None => {
                    assert(data@ =~= vec@);
                    return Self { data };
                },
            }
        }
    }

    pub fn enqueue(&mut self, data: T)
        ensures
            final(self)@ == old(self)@.push(data),
    {
        self.data.push_back(data);
    }

    /// Removes and returns the front, the element enqueued first.
    pub fn dequeue(&mut self) -> (front: Option<T>)
        ensures
            old(self)@.len() == 0 ==> front is None && final(self)@ == old(self)@,
            old(self)@.len() > 0 ==> front == Some(old(self)@.first()) && final(self)@ == old(
                self,
            )@.drop_first(),
    {
        self.data.pop_front()
    }

    pub fn len(&self) -> (len: usize)
        ensures
            len == self@.len(),
    {
        self.data.len()
    }

    pub fn is_empty(&self) -> (empty: bool)
        ensures
            empty == (self@.len() == 0),
    {
        self.data.len() == 0
    }

    /// Borrows the element at `idx`, counted from the front.
    pub fn get(&self, idx: usize) -> (item: Option<&T>)
        ensures
            idx >= self@.len() ==> item is None,
            idx < self@.len() ==> item == Some(&self@[idx as int]),
    {
        if idx < self.data.len() {
            Some(&self.data[idx])
        } else {
            None
        }
    }
}

} // verus!
