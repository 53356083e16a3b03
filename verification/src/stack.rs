use crate::errors::Chip8Error;
use vstd::prelude::*;

verus! {

/// The most return addresses the call stack will hold before a further
/// push reports [`Chip8Error::StackOverflow`].
pub const STACK_CAPACITY: usize = 16;

/// A bounded last-in-first-out store of return addresses.
///
/// The view of a stack is the sequence of its elements, oldest first; the
/// last element of the view is the top of the stack.
pub struct Stack<T> {
    elements: Vec<T>,
}

impl<T> View for Stack<T> {
    type V = Seq<T>;

    closed spec fn view(&self) -> Seq<T> {
        self.elements@
    }
}

impl<T> Stack<T> {
    /// A stack never holds more than [`STACK_CAPACITY`] elements.
    pub open spec fn wf(&self) -> bool {
        self@.len() <= STACK_CAPACITY
    }

    /// Creates an empty stack.
    pub fn new() -> (s: Stack<T>)
        ensures
            s@ == Seq::<T>::empty(),
            s.wf(),
    {
        Stack { elements: Vec::new() }
    }

    /// Appends an element, unless the stack is already at capacity, in
    /// which case the stack is left unchanged and an overflow is reported.
    pub fn push(&mut self, item: T) -> (r: Result<(), Chip8Error>)
        ensures
            match r {
                Ok(()) => old(self)@.len() < STACK_CAPACITY && final(self)@ == old(self)@.push(
                    item,
                ),
                Err(e) => e == Chip8Error::StackOverflow && old(self)@.len() >= STACK_CAPACITY
                    && *final(self) == *old(self),
            },
            old(self).wf() ==> final(self).wf(),
    {
        if self.elements.len() >= STACK_CAPACITY {
            Err(Chip8Error::StackOverflow)
        } else {
            self.elements.push(item);
            Ok(())
        }
    }

    /// Removes and returns the most recently pushed element, or `None` if
    /// the stack is empty (the underflow signal).
    pub fn pop(&mut self) -> (r: Option<T>)
        ensures
            match r {
                Some(v) => old(self)@.len() > 0 && v == old(self)@.last() && final(self)@ == old(
                    self,
                )@.drop_last(),
                None => old(self)@.len() == 0 && *final(self) == *old(self),
            },
            old(self).wf() ==> final(self).wf(),
    {
        if self.elements.len() == 0 {
            None
        } else {
            let r = self.elements.pop();
            proof {
                assert(self@ =~= old(self)@.drop_last());
            }
            r
        }
    }

    /// The number of elements currently on the stack.
    pub fn len(&self) -> (n: usize)
        ensures
            n == self@.len(),
    {
        self.elements.len()
    }

    /// Reads the element at position `i`, counted from the bottom.
    pub fn get(&self, i: usize) -> (r: &T)
        requires
            i < self@.len(),
        ensures
            *r == self@[i as int],
    {
        &self.elements[i]
    }
}

} // verus!
