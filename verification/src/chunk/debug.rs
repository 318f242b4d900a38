use vstd::prelude::*;
use crate::debug::{listing_text, print_aligned, views, Alignment, DebugError, DebugInstruction};
use super::join_bytes::ByteCursor;
use super::{Chunk, OpCode};

verus! {

impl OpCode {
    /// The mnemonic of the opcode.
    pub open spec fn mnemonic(self) -> Seq<char> {
        match self {
            OpCode::Constant => "CONSTANT"@,
            OpCode::Constant16 => "CONSTANT_16"@,
            OpCode::Constant24 => "CONSTANT_24"@,
            OpCode::Add => "ADD"@,
            OpCode::Subtract => "SUBTRACT"@,
            OpCode::Multiply => "MULTIPLY"@,
            OpCode::Divide => "DIVIDE"@,
            OpCode::Negate => "NEGATE"@,
            OpCode::Return => "RETURN"@,
        }
    }

    /// The mnemonic of the opcode.
    pub fn name(self) -> (name: &'static str)
        ensures
            name@ == self.mnemonic(),
    {
        match self {
            OpCode::Constant => "CONSTANT",
            OpCode::Constant16 => "CONSTANT_16",
            OpCode::Constant24 => "CONSTANT_24",
            OpCode::Add => "ADD",
            OpCode::Subtract => "SUBTRACT",
            OpCode::Multiply => "MULTIPLY",
            OpCode::Divide => "DIVIDE",
            OpCode::Negate => "NEGATE",
            OpCode::Return => "RETURN",
        }
    }

    /// Appends the mnemonic to `out` in a field of `width` characters.
    pub fn fmt(self, out: &mut String, width: Option<usize>, fill: char, align: Option<Alignment>)
        ensures
            final(out)@ == old(out)@ + crate::debug::aligned(self.mnemonic(), width, fill, align),
    {
        print_aligned(out, self.name(), width, fill, align);
    }
}

impl Chunk {
    /// The listing of the chunk, one line for each instruction;
    /// `constants` holds the text of each constant of the pool, in the
    /// order of their handles.
    pub fn debug_string(&self, constants: &[String]) -> (listing: Result<String, DebugError>)
        requires
            self.wf(),
        ensures
            match listing_text(self.code(), 0, self.runs(), views(constants@)).error {
                None => listing.is_ok() && listing.unwrap()@ == listing_text(
                    self.code(),
                    0,
                    self.runs(),
                    views(constants@),
                ).text,
                Some(e) => listing == Err::<String, DebugError>(e),
            },
    {
        proof {
            self.lemma_wf();
        }
        let mut out = String::new();
        let mut bytes = ByteCursor::new(self.data.as_slice());
        match out.debug_chunk(&mut bytes, &self.lines, constants) {
            Ok(()) => {
                proof {
                    let text = listing_text(self.code(), 0, self.runs(), views(constants@)).text;
                    assert(Seq::<char>::empty() + text =~= text);
                }
                Ok(out)
            },
            Err(e) => Err(e),
        }
    }
}

impl std::ops::Deref for Chunk {
    type Target = [u8];

    fn deref(&self) -> (bytes: &[u8])
        ensures
            bytes@ == self.code(),
    {
        self.data.as_slice()
    }
}

} // verus!
