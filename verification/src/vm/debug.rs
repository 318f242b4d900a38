use vstd::prelude::*;
use crate::chunk::lines::{LineStart, Lines};
use crate::chunk::OpCode;
use super::model::{line_mark, LineMark, TraceRecord};
use super::{line_mark_at, TraceEvent};
use crate::debug::{
    aligned, decimal, decimal_string, digit, digit_char, hexadecimal, hexadecimal_string,
    line_text, offset_text, opcode_and_value_text, padding, print_aligned, repeat,
    tells_line, Alignment, DebugInstruction,
};

verus! {

/// Takes the text out of `buf` and leaves it empty.
fn take_line(buf: &mut String) -> (line: String)
    ensures
        line@ == old(buf)@,
        final(buf)@ == Seq::<char>::empty(),
{
    let line = buf.clone();
    *buf = String::new();
    line
}

/// Builds the lines of a plain trace, one for each instruction, in the
/// columns of a chunk's listing. A debugger that is switched off builds
/// nothing.
pub struct Debugger {
    enabled: bool,
    buf: String,
}

impl Debugger {
    /// Whether the debugger is switched on.
    pub closed spec fn is_enabled(&self) -> bool {
        self.enabled
    }

    /// The part of the current line that was written so far.
    pub closed spec fn buffered(&self) -> Seq<char> {
        self.buf@
    }

    /// Well-formedness: a debugger that is switched off holds no text.
    pub closed spec fn wf(&self) -> bool {
        !self.enabled ==> self.buf@ == Seq::<char>::empty()
    }

    /// A debugger at the start of a line.
    pub fn new(enabled: bool) -> (debugger: Self)
        ensures
            debugger.wf(),
            debugger.is_enabled() == enabled,
            debugger.buffered() == Seq::<char>::empty(),
    {
        Debugger { enabled, buf: String::new() }
    }

    /// Writes the offset and line columns of the instruction at `offset`.
    pub fn write_preamble(&mut self, offset: usize, lines: &Lines)
        requires
            old(self).wf(),
            lines.wf(),
            tells_line(lines@, offset),
        ensures
            final(self).wf(),
            final(self).is_enabled() == old(self).is_enabled(),
            final(self).buffered() == if old(self).is_enabled() {
                old(self).buffered() + offset_text(offset) + line_text(lines@, offset)
            } else {
                old(self).buffered()
            },
    {
        if self.enabled {
            self.buf.print_offset(offset);
            self.buf.print_line_number(lines, offset);
        }
    }

    /// Writes the mnemonic of `op` and hands out the finished line;
    /// `None` where the debugger is switched off.
    pub fn print_opcode(&mut self, op: OpCode) -> (line: Option<String>)
        requires
            old(self).wf(),
        ensures
            final(self).wf(),
            final(self).is_enabled() == old(self).is_enabled(),
            final(self).buffered() == Seq::<char>::empty(),
            old(self).is_enabled() ==> line.is_some() && line.unwrap()@ == old(self).buffered()
                + op.mnemonic(),
            !old(self).is_enabled() ==> line.is_none(),
    {
        if self.enabled {
            self.buf.print_opcode(op);
        }
        self.flush()
    }

    /// Writes the columns of a constant instruction, `value` being the
    /// text of the constant, and hands out the finished line; `None`
    /// where the debugger is switched off.
    pub fn print_opcode_and_value(&mut self, op: OpCode, handle: usize, value: &str) -> (line:
        Option<String>)
        requires
            old(self).wf(),
        ensures
            final(self).wf(),
            final(self).is_enabled() == old(self).is_enabled(),
            final(self).buffered() == Seq::<char>::empty(),
            old(self).is_enabled() ==> line.is_some() && line.unwrap()@ == old(self).buffered()
                + opcode_and_value_text(op, handle, value@),
            !old(self).is_enabled() ==> line.is_none(),
    {
        if self.enabled {
            self.buf.print_opcode_and_value(op, handle, value);
        }
        self.flush()
    }

    /// Hands out the current line and starts the next; `None` where the
    /// debugger is switched off.
    pub fn flush(&mut self) -> (line: Option<String>)
        requires
            old(self).wf(),
        ensures
            final(self).wf(),
            final(self).is_enabled() == old(self).is_enabled(),
            final(self).buffered() == Seq::<char>::empty(),
            old(self).is_enabled() ==> line.is_some() && line.unwrap()@ == old(self).buffered(),
            !old(self).is_enabled() ==> line.is_none(),
    {
        if self.enabled {
            Some(take_line(&mut self.buf))
        } else {
            None
        }
    }
}

/// Column of the offset in a line of the disassembler.
pub const ADDR: usize = 0;

/// Column at which the line number ends.
pub const LINE: usize = 12;

/// Column of the instruction.
pub const INSTR: usize = 14;

/// Column of the stack.
pub const STACK: usize = 40;

/// Number of spaces before a text that is put at column `col` of a line
/// that holds `len` characters: as many as reach the column, for a text
/// of `taken` characters that is to end there as many as let it end
/// there, and none where the line is longer already.
pub open spec fn gap(col: nat, len: nat, taken: nat) -> nat {
    if col > len + taken {
        (col - len - taken) as nat
    } else {
        0
    }
}

/// A line after `content` was put at column `col`: with its start at
/// the column where `align` is `Left`, with its end at the column
/// where it is `Right`.
pub open spec fn placed(buf: Seq<char>, col: nat, content: Seq<char>, align: Alignment) -> Seq<
    char,
> {
    match align {
        Alignment::Right => buf + padding(' ', gap(col, buf.len(), content.len())) + content,
        _ => buf + padding(' ', gap(col, buf.len(), 0)) + content,
    }
}

/// The offset as the disassembler shows it: `0x` and at least four
/// hexadecimal digits.
pub open spec fn address_text(offset: usize) -> Seq<char> {
    seq!['0', 'x'] + aligned(hexadecimal(offset as nat), Some(4), '0', Some(Alignment::Right))
}

/// A line mark as the disassembler shows it: a bar for a byte on the
/// line of the byte before it, else the line number.
pub open spec fn mark_cell(mark: LineMark) -> Seq<char> {
    match mark {
        LineMark::Same => seq!['|'],
        LineMark::Line(line) => decimal(line as nat),
    }
}

/// The line of the byte at `offset` as the disassembler shows it.
pub open spec fn line_cell(runs: Seq<LineStart>, offset: usize) -> Seq<char> {
    mark_cell(line_mark(runs, offset))
}

/// The line that the disassembler builds for a trace event: the
/// offset, the line mark, the instruction, for a constant instruction
/// the text of its constant, and the text of the stack.
pub open spec fn event_line(event: TraceRecord, value: Seq<char>, stack: Seq<char>) -> Seq<char> {
    let head = placed(
        placed(
            placed(Seq::empty(), ADDR as nat, address_text(event.offset), Alignment::Left),
            LINE as nat,
            mark_cell(event.line),
            Alignment::Right,
        ),
        INSTR as nat,
        opcode_cell(event.op),
        Alignment::Left,
    );
    let body = if event.operand.is_some() {
        placed(head, INSTR as nat, value_cell(value), Alignment::Left)
    } else {
        head
    };
    placed(body, STACK as nat, stack, Alignment::Left)
}

/// The instruction as the disassembler shows it: `0x` and the two
/// hexadecimal digits of the opcode's byte, a space and the mnemonic.
pub open spec fn opcode_cell(op: OpCode) -> Seq<char> {
    seq!['0', 'x', digit(op.byte() as nat / 16), digit(op.byte() as nat % 16), ' ']
        + op.mnemonic()
}

/// A value as the disassembler shows it: its text in angle brackets
/// behind a space.
pub open spec fn value_cell(value: Seq<char>) -> Seq<char> {
    seq![' ', '<'] + value + seq!['>']
}

/// Builds the lines of a trace in fixed columns: the offset, the line,
/// the instruction with its operand, and the stack. A disassembler that
/// is switched off builds nothing.
pub struct Disassembler {
    enabled: bool,
    buf: String,
    col: usize,
}

impl Disassembler {
    /// Whether the disassembler is switched on.
    pub closed spec fn is_enabled(&self) -> bool {
        self.enabled
    }

    /// The part of the current line that was written so far.
    pub closed spec fn buffered(&self) -> Seq<char> {
        self.buf@
    }

    /// The column that the next text is put at.
    pub closed spec fn column(&self) -> nat {
        self.col as nat
    }

    /// Well-formedness: a disassembler that is switched off holds no
    /// text.
    pub closed spec fn wf(&self) -> bool {
        !self.enabled ==> self.buf@ == Seq::<char>::empty()
    }

    /// The line after `content` was put at column `col` of it.
    pub open spec fn put(&self, col: nat, content: Seq<char>, align: Alignment) -> Seq<char> {
        if self.is_enabled() {
            placed(self.buffered(), col, content, align)
        } else {
            self.buffered()
        }
    }

    /// A disassembler at the start of a line.
    pub fn new(enabled: bool) -> (disassembler: Self)
        ensures
            disassembler.wf(),
            disassembler.is_enabled() == enabled,
            disassembler.buffered() == Seq::<char>::empty(),
            disassembler.column() == ADDR,
    {
        Disassembler { enabled, buf: String::new(), col: ADDR }
    }

    /// Writes the offset of the instruction at `offset` and its line.
    pub fn write_preamble(&mut self, offset: usize, lines: &Lines)
        requires
            old(self).wf(),
            lines.wf(),
            tells_line(lines@, offset),
        ensures
            final(self).wf(),
            final(self).is_enabled() == old(self).is_enabled(),
            final(self).column() == LINE,
            final(self).buffered() == if old(self).is_enabled() {
                placed(
                    placed(old(self).buffered(), ADDR as nat, address_text(offset), Alignment::Left),
                    LINE as nat,
                    line_cell(lines@, offset),
                    Alignment::Right,
                )
            } else {
                old(self).buffered()
            },
    {
        self.write_offset(offset);
        self.write_line(offset, lines);
    }

    /// Writes the offset at the offset column.
    fn write_offset(&mut self, offset: usize)
        requires
            old(self).wf(),
        ensures
            final(self).wf(),
            final(self).is_enabled() == old(self).is_enabled(),
            final(self).column() == ADDR,
            final(self).buffered() == old(self).put(
                ADDR as nat,
                address_text(offset),
                Alignment::Left,
            ),
    {
        self.set_col(ADDR);
        let mut data = String::from_str("0x");
        let digits = hexadecimal_string(offset);
        print_aligned(&mut data, digits.as_str(), Some(4), '0', Some(Alignment::Right));
        proof {
            reveal_strlit("0x");
            assert("0x"@ =~= seq!['0', 'x']);
        }
        self.write(data.as_str(), Alignment::Left);
    }

    /// Writes the line so that it ends at the line column.
    fn write_line(&mut self, offset: usize, lines: &Lines)
        requires
            old(self).wf(),
            lines.wf(),
            tells_line(lines@, offset),
        ensures
            final(self).wf(),
            final(self).is_enabled() == old(self).is_enabled(),
            final(self).column() == LINE,
            final(self).buffered() == old(self).put(
                LINE as nat,
                line_cell(lines@, offset),
                Alignment::Right,
            ),
    {
        let mark = line_mark_at(lines, offset);
        self.write_mark(mark);
    }

    /// Writes a line mark so that it ends at the line column.
    fn write_mark(&mut self, mark: LineMark)
        requires
            old(self).wf(),
        ensures
            final(self).wf(),
            final(self).is_enabled() == old(self).is_enabled(),
            final(self).column() == LINE,
            final(self).buffered() == old(self).put(LINE as nat, mark_cell(mark), Alignment::Right),
    {
        self.set_col(LINE);
        let data = match mark {
            LineMark::Same => {
                proof {
                    reveal_strlit("|");
                    assert("|"@ =~= seq!['|']);
                }
                String::from_str("|")
            },
            LineMark::Line(line) => decimal_string(line),
        };
        self.write(data.as_str(), Alignment::Right);
    }

    /// Builds the line of a trace event on an empty line and hands it
    /// out; `value` is the text of the event's constant, if it has one,
    /// and `stack` the text of its stack. `None` where the disassembler
    /// is switched off.
    pub fn write_event(&mut self, event: &TraceEvent, value: &str, stack: &str) -> (line: Option<
        String,
    >)
        requires
            old(self).wf(),
            old(self).buffered() == Seq::<char>::empty(),
        ensures
            final(self).wf(),
            final(self).is_enabled() == old(self).is_enabled(),
            final(self).buffered() == Seq::<char>::empty(),
            old(self).is_enabled() ==> line.is_some() && line.unwrap()@ == event_line(
                event@,
                value@,
                stack@,
            ),
            !old(self).is_enabled() ==> line.is_none(),
    {
        self.write_offset(event.offset);
        self.write_mark(event.line);
        self.write_opcode(event.op);
        if event.operand.is_some() {
            self.write_value(value);
        }
        self.write_stack(stack);
        self.flush()
    }

    /// Writes the instruction at the instruction column.
    pub fn write_opcode(&mut self, op: OpCode)
        requires
            old(self).wf(),
        ensures
            final(self).wf(),
            final(self).is_enabled() == old(self).is_enabled(),
            final(self).column() == INSTR,
            final(self).buffered() == old(self).put(INSTR as nat, opcode_cell(op), Alignment::Left),
    {
        self.set_col(INSTR);
        let byte = op.to_byte();
        let mut data = String::from_str("0x");
        data.push(digit_char(byte / 16));
        data.push(digit_char(byte % 16));
        data.push(' ');
        data.append(op.name());
        proof {
            reveal_strlit("0x");
            assert(data@ =~= opcode_cell(op));
        }
        self.write(data.as_str(), Alignment::Left);
    }

    /// Writes the text of a value behind what the line holds.
    pub fn write_value(&mut self, value: &str)
        requires
            old(self).wf(),
        ensures
            final(self).wf(),
            final(self).is_enabled() == old(self).is_enabled(),
            final(self).column() == old(self).column(),
            final(self).buffered() == old(self).put(
                old(self).column(),
                value_cell(value@),
                Alignment::Left,
            ),
    {
        let mut data = String::from_str(" <");
        data.append(value);
        data.push('>');
        proof {
            reveal_strlit(" <");
            assert(data@ =~= value_cell(value@));
        }
        self.write(data.as_str(), Alignment::Left);
    }

    /// Writes the text of the stack at the stack column.
    pub fn write_stack(&mut self, stack: &str)
        requires
            old(self).wf(),
        ensures
            final(self).wf(),
            final(self).is_enabled() == old(self).is_enabled(),
            final(self).column() == STACK,
            final(self).buffered() == old(self).put(STACK as nat, stack@, Alignment::Left),
    {
        self.set_col(STACK);
        self.write(stack, Alignment::Left);
    }

    /// Hands out the current line and starts the next; `None` where the
    /// disassembler is switched off.
    pub fn flush(&mut self) -> (line: Option<String>)
        requires
            old(self).wf(),
        ensures
            final(self).wf(),
            final(self).is_enabled() == old(self).is_enabled(),
            final(self).column() == old(self).column(),
            final(self).buffered() == Seq::<char>::empty(),
            old(self).is_enabled() ==> line.is_some() && line.unwrap()@ == old(self).buffered(),
            !old(self).is_enabled() ==> line.is_none(),
    {
        if self.enabled {
            Some(take_line(&mut self.buf))
        } else {
            None
        }
    }

    /// Puts `content` at the current column, with its start there where
    /// `align` is `Left` and with its end there where it is `Right`.
    fn write(&mut self, content: &str, align: Alignment)
        requires
            old(self).wf(),
            align != Alignment::Center,
        ensures
            final(self).wf(),
            final(self).is_enabled() == old(self).is_enabled(),
            final(self).column() == old(self).column(),
            final(self).buffered() == old(self).put(old(self).column(), content@, align),
    {
        if !self.enabled {
            return ;
        }
        let len = self.buf.as_str().unicode_len();
        let taken = match align {
            Alignment::Right => content.unicode_len(),
            _ => 0,
        };
        let col = self.col();
        let pad = if col > len && col - len > taken {
            col - len - taken
        } else {
            0
        };
        let spaces = repeat(' ', pad);
        self.buf.append(spaces.as_str());
        self.buf.append(content);
    }

    /// The column that the next text is put at.
    fn col(&self) -> (col: usize)
        ensures
            col == self.column(),
    {
        self.col
    }

    /// Moves to column `col`.
    fn set_col(&mut self, col: usize)
        ensures
            final(self).column() == col,
            final(self).is_enabled() == old(self).is_enabled(),
            final(self).buffered() == old(self).buffered(),
            old(self).wf() ==> final(self).wf(),
    {
        self.col = col;
    }
}

} // verus!
