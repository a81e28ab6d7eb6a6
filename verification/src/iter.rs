use vstd::prelude::*;
use crate::lines::texts;

verus! {

/// A finite, already computed sequence of chunk texts with a read position.
#[derive(Debug)]
pub struct FileChunkIterator {
    chunks: Vec<String>,
    c: usize,
}

impl FileChunkIterator {
    #[verifier::type_invariant]
    spec fn in_range(&self) -> bool {
        self.c <= self.chunks@.len()
    }

    /// All chunk texts, in order, whether already handed out or not.
    pub closed spec fn chunks(&self) -> Seq<Seq<char>> {
        texts(self.chunks@)
    }

    /// How many chunks have been handed out.
    pub closed spec fn position(&self) -> nat {
        self.c as nat
    }

    /// The chunks still to come.
    pub open spec fn remaining(&self) -> Seq<Seq<char>> {
        self.chunks().skip(self.position() as int)
    }

    /// An iterator over `chunks` that starts at the first of them.
    pub fn new(chunks: Vec<String>) -> (it: Self)
        ensures
            it.chunks() == texts(chunks@),
            it.position() == 0,
    {
        Self { chunks, c: 0 }
    }

    /// The number of chunks still to come.
    pub fn remaining_len(&self) -> (n: usize)
        ensures
            self.position() <= self.chunks().len(),
            n == self.chunks().len() - self.position(),
            n == self.remaining().len(),
    {
        proof {
            use_type_invariant(self);
        }
        self.chunks.len() - self.c
    }

    /// Hands out the next chunk and moves on, or reports the end.
    ///
    /// The chunk texts themselves never change; past the end every call
    /// returns `None` and leaves the position where it is.
    pub fn next(&mut self) -> (r: Option<String>)
        ensures
            final(self).chunks() == old(self).chunks(),
            old(self).position() <= old(self).chunks().len(),
            old(self).position() < old(self).chunks().len() ==> {
                &&& r is Some
                &&& r->0@ == old(self).chunks()[old(self).position() as int]
                &&& final(self).position() == old(self).position() + 1
            },
            old(self).position() == old(self).chunks().len() ==> {
                &&& r is None
                &&& final(self).position() == old(self).position()
            },
    {
        proof {
            use_type_invariant(&*self);
        }
        if self.c == self.chunks.len() {
            return None;
        }
        let next = self.chunks[self.c].clone();
        self.c += 1;
        Some(next)
    }
}

} // verus!
