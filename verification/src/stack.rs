//! A last-in first-out stack.

use std::collections::VecDeque;
use vstd::prelude::*;

verus! {

/// A stack of values; the last value of its view is the top.
#[derive(Debug)]
pub struct Stack<T> {
    values: VecDeque<T>,
}

impl<T> View for Stack<T> {
    type V = Seq<T>;

    closed spec fn view(&self) -> Seq<T> {
        self.values@
    }
}

impl<T> Stack<T> {
    /// An empty stack.
    pub fn new() -> (s: Self)
        ensures
            s@ == Seq::<T>::empty(),
    {
        Stack { values: VecDeque::<T>::new() }
    }

    /// Puts `value` on top.
    pub fn insert(&mut self, value: T)
        ensures
            final(self)@ == old(self)@.push(value),
    {
        self.values.push_back(value);
    }

    /// Takes the top value off. The stack must hold one.
    pub fn pop(&mut self) -> (r: T)
        requires
            old(self)@.len() > 0,
        ensures
            r == old(self)@.last(),
            final(self)@ == old(self)@.drop_last(),
    {
        self.values.pop_back().unwrap()
    }

    /// Whether the stack holds nothing.
    pub fn empty(&self) -> (r: bool)
        ensures
            r == (self@.len() == 0),
    {
        self.values.len() == 0
    }

    /// The top value. The stack must hold one.
    pub fn top(&self) -> (r: &T)
        requires
            self@.len() > 0,
        ensures
            *r == self@.last(),
    {
        let n: usize = self.values.len();
        &self.values[n - 1]
    }

    /// How many values the stack holds.
    pub fn len(&self) -> (r: usize)
        ensures
            r == self@.len(),
    {
        self.values.len()
    }
}

} // verus!
