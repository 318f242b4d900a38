use vstd::prelude::*;
use crate::value::Value;
use crate::vector::{IntoIter, Vector};
use super::join_bytes::{byte_of, join_read, reads_from, JoinBytes};
use super::lines::{LineStart, Lines};
use super::{lines_span, Chunk};

verus! {

/// The one-shot stream that a chunk is executed from. It owns what the
/// chunk owned and hands out the instruction bytes one by one, each with
/// its offset.
pub struct Consumable {
    data: IntoIter<u8>,
    offset: usize,
    constants: Vector<Value>,
    lines: Lines,
    whole: Ghost<Seq<u8>>,
}

impl Consumable {
    /// All bytes of the instruction stream, read or not.
    pub closed spec fn code(&self) -> Seq<u8> {
        self.whole@
    }

    /// Offset of the next byte to be read; the length of the stream once
    /// all bytes were read.
    pub closed spec fn position(&self) -> nat {
        self.offset as nat
    }

    /// The constant pool.
    pub closed spec fn pool(&self) -> Seq<Value> {
        self.constants@
    }

    /// The runs of the line table.
    pub closed spec fn runs(&self) -> Seq<LineStart> {
        self.lines@
    }

    /// Well-formedness: the position lies within the stream, the bytes
    /// still held are those from the position on, and the line table
    /// gives every byte of the stream a line.
    pub closed spec fn wf(&self) -> bool {
        &&& self.offset <= self.whole@.len() <= usize::MAX
        &&& self.data.wf()
        &&& self.data.source() == self.whole@
        &&& self.data.taken() == self.offset
        &&& self.lines.wf()
        &&& lines_span(self.lines@, self.whole@.len())
    }

    /// What well-formedness says of position and line table.
    pub proof fn lemma_wf(&self)
        requires
            self.wf(),
        ensures
            self.position() <= self.code().len(),
            super::lines::strictly_increasing(self.runs()),
            super::lines::neighbours_differ(self.runs()),
            lines_span(self.runs(), self.code().len()),
    {
        self.lines.lemma_wf();
    }

    /// The next byte with its offset, or `None` at the end of the stream.
    pub fn next(&mut self) -> (item: Option<(usize, u8)>)
        requires
            old(self).wf(),
        ensures
            final(self).wf(),
            final(self).code() == old(self).code(),
            final(self).pool() == old(self).pool(),
            final(self).runs() == old(self).runs(),
            old(self).position() < old(self).code().len() ==> item == Some(
                (old(self).position() as usize, old(self).code()[old(self).position() as int]),
            ) && final(self).position() == old(self).position() + 1,
            old(self).position() >= old(self).code().len() ==> item.is_none()
                && final(self).position() == old(self).position(),
    {
        match self.data.next() {
            None => None,
            Some(byte) => {
                let offset = self.offset;
                self.offset = offset + 1;
                Some((offset, byte))
            },
        }
    }

    /// Number of bytes that were not read yet.
    pub fn len(&self) -> (n: usize)
        requires
            self.wf(),
        ensures
            n == self.code().len() - self.position(),
    {
        self.data.len()
    }

    /// The constant with the given handle, or `None` where the pool holds
    /// no such constant.
    pub fn read_const(&self, handle: usize) -> (value: Option<Value>)
        ensures
            value == if handle < self.pool().len() {
                Some(self.pool()[handle as int])
            } else {
                None
            },
    {
        if handle >= self.constants.len() {
            None
        } else {
            Some(*self.constants.get(handle))
        }
    }

    /// The line table.
    pub fn lines(&self) -> (lines: &Lines)
        ensures
            lines@ == self.runs(),
            self.wf() ==> lines.wf(),
    {
        &self.lines
    }
}

impl JoinBytes for Consumable {
    open spec fn stream_wf(&self) -> bool {
        self.wf()
    }

    open spec fn stream(&self) -> Seq<u8> {
        self.code()
    }

    open spec fn consumed(&self) -> nat {
        self.position()
    }

    proof fn lemma_consumed(&self) {
        self.lemma_wf();
    }

    fn join_bytes(&mut self, count: usize) -> (joined: Option<usize>)
        ensures
            final(self).pool() == old(self).pool(),
            final(self).runs() == old(self).runs(),
    {
        proof {
            self.lemma_wf();
        }
        if 1 <= count && count <= 3 {
            let first = byte_of(self.next());
            let second = if count >= 2 {
                byte_of(self.next())
            } else {
                None
            };
            let third = if count >= 3 {
                byte_of(self.next())
            } else {
                None
            };
            proof {
                assert(reads_from(
                    old(self).code(),
                    old(self).position(),
                    count as nat,
                    seq![first, second, third],
                ));
            }
            join_read(count, first, second, third)
        } else {
            None
        }
    }
}

impl Chunk {
    /// Gives the chunk up for execution: the stream starts at the first
    /// byte and holds the chunk's constants and line table.
    pub fn into_iter(self) -> (stream: Consumable)
        requires
            self.wf(),
        ensures
            stream.wf(),
            stream.code() == self.code(),
            stream.pool() == self.pool(),
            stream.runs() == self.runs(),
            stream.position() == 0,
    {
        let ghost whole = self.data@;
        proof {
            self.data.lemma_len_fits();
        }
        let data = self.data.into_iter();
        Consumable {
            data,
            offset: 0,
            constants: self.constants,
            lines: self.lines,
            whole: Ghost(whole),
        }
    }
}

} // verus!
