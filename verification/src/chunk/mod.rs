use vstd::prelude::*;
use crate::debug::{digit, digit_char};
use crate::value::Value;
use crate::vector::Vector;
use self::format::{
    const_op, encode_const, fetch, lemma_well_encoded_grows, well_encoded_from, Fetched,
};
use self::lines::{line_at, with_byte, LineStart, Lines};

pub mod debug;
pub mod format;
pub mod into_iter;
pub mod join_bytes;
pub mod lines;

verus! {

/// The one-byte tag of an instruction.
#[derive(Clone, Copy, Debug, PartialEq, Eq, PartialOrd, Ord, Structural)]
pub enum OpCode {
    Constant,
    Constant16,
    Constant24,
    Add,
    Subtract,
    Multiply,
    Divide,
    Negate,
    Return,
}

/// Why a byte is no opcode: a message that names the byte.
pub struct OpCodeError(pub String);

/// The message for a byte that is no opcode: `UNKNOWN: 0x` and the byte
/// as two hexadecimal digits.
pub open spec fn unknown_message(byte: u8) -> Seq<char> {
    "UNKNOWN: 0x"@.push(digit(byte as nat / 16)).push(digit(byte as nat % 16))
}

impl OpCode {
    /// The byte that stands for this opcode in an instruction stream.
    pub open spec fn byte(self) -> u8 {
        match self {
            OpCode::Constant => 0x00,
            OpCode::Constant16 => 0x01,
            OpCode::Constant24 => 0x02,
            OpCode::Add => 0x10,
            OpCode::Subtract => 0x11,
            OpCode::Multiply => 0x12,
            OpCode::Divide => 0x13,
            OpCode::Negate => 0x14,
            OpCode::Return => 0xFF,
        }
    }

    /// The opcode that a byte stands for, if it stands for one.
    pub open spec fn from_byte(byte: u8) -> Option<OpCode> {
        if byte == 0x00 {
            Some(OpCode::Constant)
        } else if byte == 0x01 {
            Some(OpCode::Constant16)
        } else if byte == 0x02 {
            Some(OpCode::Constant24)
        } else if byte == 0x10 {
            Some(OpCode::Add)
        } else if byte == 0x11 {
            Some(OpCode::Subtract)
        } else if byte == 0x12 {
            Some(OpCode::Multiply)
        } else if byte == 0x13 {
            Some(OpCode::Divide)
        } else if byte == 0x14 {
            Some(OpCode::Negate)
        } else if byte == 0xFF {
            Some(OpCode::Return)
        } else {
            None
        }
    }

    /// Number of operand bytes that follow this opcode.
    pub open spec fn operand_len(self) -> nat {
        match self {
            OpCode::Constant => 1,
            OpCode::Constant16 => 2,
            OpCode::Constant24 => 3,
            _ => 0,
        }
    }

    /// Whether the opcode loads a constant.
    pub open spec fn loads_constant(self) -> bool {
        self == OpCode::Constant || self == OpCode::Constant16 || self == OpCode::Constant24
    }

    /// Whether the opcode combines the two topmost operands.
    pub open spec fn is_arithmetic(self) -> bool {
        self == OpCode::Add || self == OpCode::Subtract || self == OpCode::Multiply || self
            == OpCode::Divide
    }

    /// The byte that stands for this opcode.
    pub fn to_byte(self) -> (byte: u8)
        ensures
            byte == self.byte(),
            OpCode::from_byte(byte) == Some(self),
    {
        match self {
            OpCode::Constant => 0x00,
            OpCode::Constant16 => 0x01,
            OpCode::Constant24 => 0x02,
            OpCode::Add => 0x10,
            OpCode::Subtract => 0x11,
            OpCode::Multiply => 0x12,
            OpCode::Divide => 0x13,
            OpCode::Negate => 0x14,
            OpCode::Return => 0xFF,
        }
    }

    /// The opcode that `byte` stands for, if it stands for one.
    pub fn decode(byte: u8) -> (op: Option<OpCode>)
        ensures
            op == OpCode::from_byte(byte),
    {
        match byte {
            0x00 => Some(OpCode::Constant),
            0x01 => Some(OpCode::Constant16),
            0x02 => Some(OpCode::Constant24),
            0x10 => Some(OpCode::Add),
            0x11 => Some(OpCode::Subtract),
            0x12 => Some(OpCode::Multiply),
            0x13 => Some(OpCode::Divide),
            0x14 => Some(OpCode::Negate),
            0xFF => Some(OpCode::Return),
            _ => None,
        }
    }

    /// Number of operand bytes that follow this opcode.
    pub fn operand_count(self) -> (count: usize)
        ensures
            count == self.operand_len(),
    {
        match self {
            OpCode::Constant => 1,
            OpCode::Constant16 => 2,
            OpCode::Constant24 => 3,
            _ => 0,
        }
    }
}

/// The conversion from a byte builds a fresh message for each byte that
/// is no opcode, so it is described by the `ensures` of `try_from`, not
/// by a value.
impl vstd::std_specs::convert::TryFromSpecImpl<u8> for OpCode {
    open spec fn obeys_try_from_spec() -> bool {
        false
    }

    open spec fn try_from_spec(byte: u8) -> Result<OpCode, OpCodeError> {
        arbitrary()
    }
}

impl TryFrom<u8> for OpCode {
    type Error = OpCodeError;

    /// Decodes an opcode byte; a byte that is no opcode gives the message
    /// that names it.
    fn try_from(byte: u8) -> (decoded: Result<OpCode, OpCodeError>)
        ensures
            match decoded {
                Ok(op) => OpCode::from_byte(byte) == Some(op),
                Err(e) => OpCode::from_byte(byte).is_none() && e.0@ == unknown_message(byte),
            },
    {
        match OpCode::decode(byte) {
            Some(op) => Ok(op),
            None => Err(OpCodeError(unknown_text(byte))),
        }
    }
}

/// Builds the message of [`unknown_message`].
fn unknown_text(byte: u8) -> (text: String)
    ensures
        text@ == unknown_message(byte),
{
    let mut text = String::from_str("UNKNOWN: 0x");
    text.push(digit_char(byte / 16));
    text.push(digit_char(byte % 16));
    text
}

/// Largest number of constants that one chunk can address.
pub const MAX_CONSTANTS: usize = 0x100_0000;

/// A unit of bytecode: an instruction stream, the constants that it
/// refers to, and the source line of each of its bytes.
pub struct Chunk {
    data: Vector<u8>,
    constants: Vector<Value>,
    lines: Lines,
}

impl Chunk {
    /// The bytes of the instruction stream.
    pub closed spec fn code(&self) -> Seq<u8> {
        self.data@
    }

    /// The constant pool; a constant's handle is its index.
    pub closed spec fn pool(&self) -> Seq<Value> {
        self.constants@
    }

    /// The runs of the line table.
    pub closed spec fn runs(&self) -> Seq<LineStart> {
        self.lines@
    }

    /// Well-formedness: the line table is well formed, and it gives every
    /// byte of the stream a line: its first run starts at the first byte
    /// and every run starts at a byte of the stream.
    pub closed spec fn wf(&self) -> bool {
        &&& self.data.wf()
        &&& self.constants.wf()
        &&& self.lines.wf()
        &&& lines_span(self.lines@, self.data@.len())
    }

    /// Whether the stream consists of whole instructions and every
    /// constant instruction names a constant of the pool. This holds of
    /// a chunk that was built by writing constants and instructions
    /// without operands.
    pub open spec fn well_encoded(&self) -> bool {
        well_encoded_from(self.code(), self.pool().len(), 0)
    }

    /// What well-formedness says of the line table.
    pub proof fn lemma_wf(&self)
        requires
            self.wf(),
        ensures
            lines::strictly_increasing(self.runs()),
            lines::neighbours_differ(self.runs()),
            lines_span(self.runs(), self.code().len()),
    {
        self.lines.lemma_wf();
    }

    /// What a write on `line` does to the lines of all offsets.
    proof fn lemma_lines_of_write(&self, line: usize)
        requires
            self.wf(),
        ensures
            forall|at: usize|
                at < self.data@.len() ==> #[trigger] line_at(
                    with_byte(self.lines@, line, self.data@.len() as usize),
                    at,
                ) == line_at(self.lines@, at),
            forall|at: usize|
                self.data@.len() <= at ==> #[trigger] line_at(
                    with_byte(self.lines@, line, self.data@.len() as usize),
                    at,
                ) == line,
    {
        self.data.lemma_len_fits();
        let len = self.data@.len() as usize;
        assert forall|at: usize| at < self.data@.len() implies #[trigger] line_at(
            with_byte(self.lines@, line, len),
            at,
        ) == line_at(self.lines@, at) by {
            lines::lemma_line_at_with_byte(self.lines@, line, len, at);
        }
        assert forall|at: usize| self.data@.len() <= at implies #[trigger] line_at(
            with_byte(self.lines@, line, len),
            at,
        ) == line by {
            lines::lemma_line_at_with_byte(self.lines@, line, len, at);
        }
    }

    /// An empty chunk.
    pub fn new() -> (chunk: Self)
        ensures
            chunk.wf(),
            chunk.code() == Seq::<u8>::empty(),
            chunk.pool() == Seq::<Value>::empty(),
            chunk.runs() == Seq::<LineStart>::empty(),
            chunk.well_encoded(),
    {
        Chunk { data: Vector::new(), constants: Vector::new(), lines: Lines::new() }
    }

    /// Appends the instruction `op`, which takes no operand, and
    /// attributes it to `line`.
    pub fn write_instr(&mut self, op: OpCode, line: usize)
        requires
            old(self).wf(),
        ensures
            final(self).wf(),
            final(self).code() == old(self).code().push(op.byte()),
            final(self).pool() == old(self).pool(),
            final(self).runs() == with_byte(old(self).runs(), line, old(self).code().len() as usize),
            forall|at: usize|
                at < old(self).code().len() ==> #[trigger] line_at(final(self).runs(), at) == line_at(
                    old(self).runs(),
                    at,
                ),
            forall|at: usize|
                old(self).code().len() <= at ==> #[trigger] line_at(final(self).runs(), at) == line,
            old(self).well_encoded() && !op.loads_constant() ==> final(self).well_encoded(),
    {
        proof {
            self.lemma_lines_of_write(line);
            if self.well_encoded() && !op.loads_constant() {
                format::lemma_fetch_of_plain_instruction(self.code(), op);
                lemma_well_encoded_grows(
                    self.code(),
                    self.pool().len(),
                    0,
                    seq![op.byte()],
                    self.pool().len(),
                );
            }
        }
        self.write(op.to_byte(), line);
        proof {
            assert(self.data@ =~= old(self).data@ + seq![op.byte()]);
        }
    }

    /// Adds `value` to the constant pool and appends the instruction that
    /// loads it, attributed to `line`. The new constant's handle is the
    /// number of constants that the pool held before, so handles count
    /// up from 0 in the order of the writes; the new instruction decodes
    /// to that handle.
    pub fn write_const(&mut self, value: Value, line: usize)
        requires
            old(self).wf(),
            old(self).pool().len() < MAX_CONSTANTS,
        ensures
            final(self).wf(),
            final(self).pool() == old(self).pool().push(value),
            final(self).code() == old(self).code() + encode_const(old(self).pool().len()),
            final(self).runs() == with_byte(old(self).runs(), line, old(self).code().len() as usize),
            forall|at: usize|
                at < old(self).code().len() ==> #[trigger] line_at(final(self).runs(), at) == line_at(
                    old(self).runs(),
                    at,
                ),
            forall|at: usize|
                old(self).code().len() <= at ==> #[trigger] line_at(final(self).runs(), at) == line,
            old(self).well_encoded() ==> final(self).well_encoded(),
            final(self).pool()[old(self).pool().len() as int] == value,
            fetch(final(self).code(), old(self).code().len()) == (Fetched::Instr {
                op: const_op(old(self).pool().len()),
                handle: old(self).pool().len(),
                next: final(self).code().len(),
            }),
    {
        proof {
            self.lemma_lines_of_write(line);
            let handle = self.pool().len();
            format::lemma_fetch_of_encoded_constant(self.code(), handle, Seq::empty());
            assert(self.code() + encode_const(handle) + Seq::<u8>::empty() =~= self.code()
                + encode_const(handle));
            if self.well_encoded() {
                lemma_well_encoded_grows(
                    self.code(),
                    handle,
                    0,
                    encode_const(handle),
                    handle + 1,
                );
            }
        }
        let handle = self.add_constant(value);
        if handle <= 0xFF {
            self.write(OpCode::Constant.to_byte(), line);
            self.write(handle as u8, line);
        } else if handle <= 0xFFFF {
            self.write(OpCode::Constant16.to_byte(), line);
            let bytes: [u8; 2] = [(handle / 0x100) as u8, (handle % 0x100) as u8];
            self.extend(&bytes, line);
        } else {
            self.write(OpCode::Constant24.to_byte(), line);
            let bytes: [u8; 3] = [
                (handle / 0x1_0000 % 0x100) as u8,
                (handle / 0x100 % 0x100) as u8,
                (handle % 0x100) as u8,
            ];
            self.extend(&bytes, line);
        }
        proof {
            assert(self.data@ =~= old(self).data@ + encode_const(handle as nat));
        }
    }

    /// Replaces the byte at `offset` of the instruction stream by
    /// `byte`; constants and lines stay as they are.
    pub fn set_byte(&mut self, offset: usize, byte: u8)
        requires
            old(self).wf(),
            offset < old(self).code().len(),
        ensures
            final(self).wf(),
            final(self).code() == old(self).code().update(offset as int, byte),
            final(self).pool() == old(self).pool(),
            final(self).runs() == old(self).runs(),
    {
        self.data.set(offset, byte);
    }

    /// Number of bytes in the instruction stream.
    pub fn len(&self) -> (n: usize)
        ensures
            n == self.code().len(),
    {
        self.data.len()
    }

    /// Number of constants in the pool.
    pub fn constants_len(&self) -> (n: usize)
        ensures
            n == self.pool().len(),
    {
        self.constants.len()
    }

    /// The constant with the given handle, or `None` where the pool holds
    /// no such constant.
    pub fn constant(&self, handle: usize) -> (value: Option<Value>)
        ensures
            value == if handle < self.pool().len() {
                Some(self.pool()[handle as int])
            } else {
                None
            },
    {
        if handle < self.constants.len() {
            Some(*self.constants.get(handle))
        } else {
            None
        }
    }

    /// The line table.
    pub fn lines(&self) -> (lines: &Lines)
        ensures
            lines@ == self.runs(),
            self.wf() ==> lines.wf(),
    {
        &self.lines
    }

    /// Appends one byte and attributes it to `line`.
    fn write(&mut self, byte: u8, line: usize)
        requires
            old(self).wf(),
        ensures
            final(self).wf(),
            final(self).data@ == old(self).data@.push(byte),
            final(self).constants == old(self).constants,
            final(self).lines@ == with_byte(old(self).lines@, line, old(self).data@.len() as usize),
    {
        proof {
            self.lines.lemma_wf();
        }
        let offset = self.data.len();
        self.data.push(byte);
        self.lines.add_byte(line, offset);
    }

    /// Appends the operand bytes of an instruction whose opcode was
    /// written on the same line just before.
    fn extend(&mut self, bytes: &[u8], line: usize)
        requires
            old(self).wf(),
            old(self).lines@.len() > 0,
            old(self).lines@.last().line == line,
        ensures
            final(self).wf(),
            final(self).data@ == old(self).data@ + bytes@,
            final(self).constants == old(self).constants,
            final(self).lines@ == old(self).lines@,
    {
        proof {
            self.lines.lemma_wf();
        }
        self.lines.add_byte(line, self.data.len());
        let ghost table = self.lines;
        let mut i: usize = 0;
        while i < bytes.len()
            invariant
                i <= bytes@.len(),
                self.wf(),
                self.data@ == old(self).data@ + bytes@.subrange(0, i as int),
                self.constants == old(self).constants,
                self.lines == table,
                table@ == old(self).lines@,
                table@.len() > 0,
            decreases bytes@.len() - i,
        {
            self.data.push(bytes[i]);
            i += 1;
            proof {
                assert(self.data@ =~= old(self).data@ + bytes@.subrange(0, i as int));
            }
        }
        proof {
            assert(bytes@.subrange(0, i as int) =~= bytes@);
        }
    }

    /// Adds `value` to the constant pool and returns its handle.
    fn add_constant(&mut self, value: Value) -> (handle: usize)
        requires
            old(self).wf(),
        ensures
            final(self).wf(),
            final(self).constants@ == old(self).constants@.push(value),
            final(self).data == old(self).data,
            final(self).lines == old(self).lines,
            handle == old(self).constants@.len(),
    {
        self.constants.push(value);
        self.constants.len() - 1
    }
}

/// Whether a line table gives a line to each of the first `len` bytes of
/// a stream, and to no other: it has a run exactly where the stream has a
/// byte, its first run starts at offset 0, and every run starts at one of
/// the bytes.
pub open spec fn lines_span(runs: Seq<LineStart>, len: nat) -> bool {
    &&& runs.len() == 0 <==> len == 0
    &&& runs.len() > 0 ==> runs[0].offset == 0
    &&& forall|i: int| 0 <= i < runs.len() ==> (#[trigger] runs[i]).offset < len
}

} // verus!
