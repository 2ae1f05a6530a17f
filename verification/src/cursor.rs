//! A buffer that is read bit by bit over several calls.

use crate::bitreader::{BitReader, BitStream};
use vstd::prelude::*;

verus! {

/// A buffer together with the position that it has been read to.
#[derive(Debug)]
pub struct BitCursor {
    data: Vec<u8>,
    pos: usize,
}

impl BitCursor {
    #[verifier::type_invariant]
    spec fn inv(self) -> bool {
        self.pos <= 8 * self.data@.len() <= usize::MAX
    }

    /// The bits and the position in them.
    pub closed spec fn view(self) -> BitStream {
        BitStream { data: self.data@, pos: self.pos as int }
    }

    /// No bits at all.
    pub fn empty() -> (r: Self)
        ensures
            r@ == (BitStream { data: Seq::empty(), pos: 0 }),
    {
        BitCursor { data: Vec::new(), pos: 0 }
    }

    /// The bits of `data`, none of which has been read. `None` if they cannot be counted.
    pub fn new(data: Vec<u8>) -> (r: Option<Self>)
        ensures
            match r {
                Some(cursor) => cursor@ == (BitStream { data: data@, pos: 0 }),
                None => true,
            },
            r is Some <==> 8 * data@.len() <= usize::MAX,
    {
        if data.len() > usize::MAX / 8 {
            None
        } else {
            Some(BitCursor { data, pos: 0 })
        }
    }

    /// The buffer.
    pub fn data(&self) -> (r: &Vec<u8>)
        ensures
            r@ == self@.data,
    {
        &self.data
    }

    /// The position in bits.
    pub fn position(&self) -> (r: usize)
        ensures
            r == self@.pos,
            r <= 8 * self@.data.len() <= usize::MAX,
    {
        proof {
            use_type_invariant(self);
        }
        self.pos
    }

    /// A reader of what has not been read yet.
    pub fn reader(&self) -> (r: BitReader<'_>)
        ensures
            r@ == self@,
            0 <= self@.pos <= 8 * self@.data.len() <= usize::MAX,
    {
        proof {
            use_type_invariant(self);
        }
        BitReader::resume_at(self.data.as_slice(), self.pos)
    }

    /// Moves to `position`. `false`, and nothing moves, if that is past the end.
    pub fn set_position(&mut self, position: usize) -> (r: bool)
        ensures
            r == (position <= 8 * old(self)@.data.len()),
            final(self)@ == if r {
                BitStream { data: old(self)@.data, pos: position as int }
            } else {
                old(self)@
            },
    {
        proof {
            use_type_invariant(&*self);
        }
        if position > 8 * self.data.len() {
            return false;
        }
        self.pos = position;
        true
    }
}

} // verus!
