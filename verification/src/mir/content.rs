//! The byte stream of instructions under its former name.

use crate::mir::container::instruction_from;
use crate::mir::container::unreadable;
use crate::mir::container::MirContainer;
use crate::mir::container::Reader;
use crate::mir::op_code::MirInstruction;
use vstd::prelude::*;

verus! {

/// A stream of instructions, laid out as in a [`MirContainer`].
#[derive(Debug)]
pub struct MirContent {
    pub(crate) data: Vec<u8>,
}

pub struct MirContentIterator<'content> {
    content: &'content MirContent,
    index: usize,
}

impl View for MirContent {
    type V = Seq<u8>;

    closed spec fn view(&self) -> Seq<u8> {
        self.data@
    }
}

impl MirContent {
    /// The content of a container.
    pub fn from(container: MirContainer) -> (content: Self)
        ensures
            content@ == container@,
    {
        MirContent { data: container.into_bytes() }
    }

    /// The bytes of the content.
    pub fn as_bytes(&self) -> (bytes: &[u8])
        ensures
            bytes@ == self@,
    {
        self.data.as_slice()
    }

    pub fn iter(&self) -> (iterator: MirContentIterator<'_>)
        ensures
            iterator.data() == self@,
            iterator.position() == 0,
    {
        MirContentIterator { content: self, index: 0 }
    }
}

impl<'content> MirContentIterator<'content> {
    /// The bytes that the iterator reads.
    pub closed spec fn data(&self) -> Seq<u8> {
        self.content@
    }

    /// Where the iterator stands.
    pub closed spec fn position(&self) -> int {
        self.index as int
    }

    /// The next instruction with the span that was given for it, if any; `None` at the
    /// end of the stream, or where the stream cannot be read on.
    pub fn next(&mut self) -> (instruction: Option<MirInstruction>)
        requires
            old(self).position() <= old(self).data().len(),
        ensures
            final(self).data() == old(self).data(),
            final(self).position() <= final(self).data().len(),
            match instruction {
                Some(instruction) => instruction_from(
                    old(self).data(),
                    old(self).position(),
                    None,
                    instruction,
                    final(self).position(),
                ),
                None => final(self).position() == final(self).data().len() && unreadable(
                    old(self).data(),
                    old(self).position(),
                ),
            },
    {
        let mut reader = Reader { data: self.content.data.as_slice(), index: self.index };
        match reader.next_instruction() {
            Some(instruction) => {
                self.index = reader.index;
                Some(instruction)
            },
            None => {
                self.index = self.content.data.len();
                None
            },
        }
    }
}

} // verus!
