//! The cursor a parser reads from: an input slice and an offset into it.

use vstd::prelude::*;
use vstd::slice::slice_subrange;

verus! {

/// An immutable cursor over `input`, standing at `offset`.
#[derive(Debug)]
pub struct ParseState<'a, I> {
    pub input: &'a [I],
    pub offset: usize,
}

impl<'a, I> ParseState<'a, I> {
    /// The cursor stands inside the input or right behind its last element.
    pub open spec fn wf(&self) -> bool {
        self.offset <= self.input@.len() <= usize::MAX
    }

    /// The elements that have not been consumed yet.
    pub open spec fn remaining(&self) -> Seq<I> {
        self.input@.subrange(self.offset as int, self.input@.len() as int)
    }

    pub fn new(input: &'a [I], offset: usize) -> (r: Self)
        ensures
            r.input@ == input@,
            r.offset == offset,
            offset <= input@.len() ==> r.wf(),
    {
        let _ = input.len();
        ParseState { input, offset }
    }

    /// A cursor over the same input, `num` elements further on.
    pub fn add_offset(&self, num: usize) -> (r: ParseState<'a, I>)
        requires
            self.offset + num <= usize::MAX,
        ensures
            r.input@ == self.input@,
            r.offset == self.offset + num,
            self.offset + num <= self.input@.len() ==> r.wf(),
    {
        let _ = self.input.len();
        ParseState { input: self.input, offset: self.offset + num }
    }

    /// The offset of the next element to be consumed.
    pub fn next_offset(&self) -> (r: usize)
        ensures
            r == self.offset,
    {
        self.offset
    }

    /// The offset of the element consumed last, if there is one.
    pub fn last_offset(&self) -> (r: Option<usize>)
        ensures
            r == if self.offset > 0 {
                Some((self.offset - 1) as usize)
            } else {
                None
            },
    {
        if self.offset > 0 {
            Some(self.offset - 1)
        } else {
            None
        }
    }

    /// The elements that have not been consumed yet.
    pub fn input(&self) -> (r: &'a [I])
        requires
            self.wf(),
        ensures
            r@ == self.remaining(),
    {
        slice_subrange(self.input, self.offset, self.input.len())
    }

    /// The next `n` elements.
    pub fn slice_with_len(&self, n: usize) -> (r: &'a [I])
        requires
            self.offset + n <= self.input@.len(),
        ensures
            r@ == self.input@.subrange(self.offset as int, self.offset + n),
    {
        let len = self.input.len();
        assert(self.offset + n <= len);
        slice_subrange(self.input, self.offset, self.offset + n)
    }

    /// The element `index` places after the cursor, if the input reaches that far.
    pub fn get(&self, index: usize) -> (r: Option<&'a I>)
        requires
            self.wf(),
        ensures
            r == if self.offset + index < self.input@.len() {
                Some(&self.input@[self.offset + index])
            } else {
                None
            },
    {
        if index < self.input.len() - self.offset {
            Some(&self.input[self.offset + index])
        } else {
            None
        }
    }
}

} // verus!
