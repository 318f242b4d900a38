use vstd::prelude::*;
use crate::chunk::join_bytes::{consumed_after, joined, ByteCursor, JoinBytes};
use crate::chunk::lines::{line_at, LineStart, Lines};
use crate::chunk::{unknown_message, OpCode, OpCodeError};

verus! {

/// `String::push` appends one character to the end of the string.
pub assume_specification[ String::push ](text: &mut String, c: char)
    ensures
        final(text)@ == old(text)@.push(c),
;

/// Where a text stands in a field that is wider than the text.
#[derive(Clone, Copy, Debug, PartialEq, Eq, Structural)]
pub enum Alignment {
    Left,
    Right,
    Center,
}

/// `n` times the character `fill`.
pub open spec fn padding(fill: char, n: nat) -> Seq<char> {
    Seq::new(n, |i: int| fill)
}

/// Number of fill characters that bring a text of `len` characters to
/// `width`: none where no width is given or the text is as wide already.
pub open spec fn pad_len(len: nat, width: Option<usize>) -> nat {
    match width {
        Some(w) => if w > len {
            (w - len) as nat
        } else {
            0
        },
        None => 0,
    }
}

/// `text` in a field of `width` characters, padded with `fill` on the
/// side that `align` leaves free. A centred text that cannot stand in the
/// middle stands one character to the left of it. Without an alignment
/// the text stands alone.
pub open spec fn aligned(
    text: Seq<char>,
    width: Option<usize>,
    fill: char,
    align: Option<Alignment>,
) -> Seq<char> {
    let pad = pad_len(text.len(), width);
    match align {
        None => text,
        Some(Alignment::Left) => text + padding(fill, pad),
        Some(Alignment::Right) => padding(fill, pad) + text,
        Some(Alignment::Center) => padding(fill, pad / 2) + text + padding(
            fill,
            (pad - pad / 2) as nat,
        ),
    }
}

/// The character of a digit in a base up to 16, letters in lower case.
pub open spec fn digit(d: nat) -> char {
    if d == 0 {
        '0'
    } else if d == 1 {
        '1'
    } else if d == 2 {
        '2'
    } else if d == 3 {
        '3'
    } else if d == 4 {
        '4'
    } else if d == 5 {
        '5'
    } else if d == 6 {
        '6'
    } else if d == 7 {
        '7'
    } else if d == 8 {
        '8'
    } else if d == 9 {
        '9'
    } else if d == 10 {
        'a'
    } else if d == 11 {
        'b'
    } else if d == 12 {
        'c'
    } else if d == 13 {
        'd'
    } else if d == 14 {
        'e'
    } else {
        'f'
    }
}

/// The decimal digits of `n`, the highest first, without leading zeros;
/// the one digit 0 for 0.
pub open spec fn decimal(n: nat) -> Seq<char>
    decreases n,
{
    if n < 10 {
        seq![digit(n)]
    } else {
        decimal(n / 10).push(digit(n % 10))
    }
}

/// The hexadecimal digits of `n`, the highest first, letters in lower
/// case, without leading zeros; the one digit 0 for 0.
pub open spec fn hexadecimal(n: nat) -> Seq<char>
    decreases n,
{
    if n < 16 {
        seq![digit(n)]
    } else {
        hexadecimal(n / 16).push(digit(n % 16))
    }
}

/// The exec form of [`digit`].
pub fn digit_char(d: u8) -> (c: char)
    requires
        d < 16,
    ensures
        c == digit(d as nat),
{
    match d {
        0 => '0',
        1 => '1',
        2 => '2',
        3 => '3',
        4 => '4',
        5 => '5',
        6 => '6',
        7 => '7',
        8 => '8',
        9 => '9',
        10 => 'a',
        11 => 'b',
        12 => 'c',
        13 => 'd',
        14 => 'e',
        _ => 'f',
    }
}

/// The decimal digits of `n` as a string.
pub fn decimal_string(n: usize) -> (text: String)
    ensures
        text@ == decimal(n as nat),
    decreases n,
{
    if n < 10 {
        let mut text = String::new();
        text.push(digit_char(n as u8));
        proof {
            assert(text@ =~= seq![digit(n as nat)]);
        }
        text
    } else {
        let mut text = decimal_string(n / 10);
        text.push(digit_char((n % 10) as u8));
        text
    }
}

/// The hexadecimal digits of `n` as a string.
pub fn hexadecimal_string(n: usize) -> (text: String)
    ensures
        text@ == hexadecimal(n as nat),
    decreases n,
{
    if n < 16 {
        let mut text = String::new();
        text.push(digit_char(n as u8));
        proof {
            assert(text@ =~= seq![digit(n as nat)]);
        }
        text
    } else {
        let mut text = hexadecimal_string(n / 16);
        text.push(digit_char((n % 16) as u8));
        text
    }
}

/// `n` times the character `c`.
pub fn repeat(c: char, n: usize) -> (text: String)
    ensures
        text@ == padding(c, n as nat),
{
    let mut text = String::new();
    let mut i: usize = 0;
    while i < n
        invariant
            i <= n,
            text@ == padding(c, i as nat),
        decreases n - i,
    {
        text.push(c);
        i += 1;
        proof {
            assert(text@ =~= padding(c, i as nat));
        }
    }
    proof {
        assert(text@ =~= padding(c, n as nat));
    }
    text
}

/// Appends `text` to `out` in a field of `width` characters, as
/// [`aligned`] defines it.
pub fn print_aligned(
    out: &mut String,
    text: &str,
    width: Option<usize>,
    fill: char,
    align: Option<Alignment>,
)
    ensures
        final(out)@ == old(out)@ + aligned(text@, width, fill, align),
{
    let len = text.unicode_len();
    let pad: usize = match width {
        Some(w) => if w > len {
            w - len
        } else {
            0
        },
        None => 0,
    };
    match align {
        None => {
            out.append(text);
        },
        Some(Alignment::Center) => {
            let lw = pad / 2;
            let rw = pad - lw;
            let lp = repeat(fill, lw);
            let rp = repeat(fill, rw);
            out.append(lp.as_str());
            out.append(text);
            out.append(rp.as_str());
            proof {
                assert(out@ =~= old(out)@ + aligned(text@, width, fill, align));
            }
        },
        Some(Alignment::Left) => {
            let p = repeat(fill, pad);
            out.append(text);
            out.append(p.as_str());
            proof {
                assert(out@ =~= old(out)@ + aligned(text@, width, fill, align));
            }
        },
        Some(Alignment::Right) => {
            let p = repeat(fill, pad);
            out.append(p.as_str());
            out.append(text);
            proof {
                assert(out@ =~= old(out)@ + aligned(text@, width, fill, align));
            }
        },
    }
}

/// Why a listing broke off.
#[derive(Clone, Copy, Debug, PartialEq, Eq, Structural)]
pub enum DebugError {
    /// A constant instruction lacks operand bytes.
    MissingOperand,
    /// A constant instruction names a constant that is not there.
    MissingConstant,
}

/// The offset column of a listing: the offset in at least four decimal
/// digits, then two spaces.
pub open spec fn offset_text(offset: usize) -> Seq<char> {
    aligned(decimal(offset as nat), Some(4), '0', Some(Alignment::Right)) + seq![' ', ' ']
}

/// Whether a table of runs can tell the line of the byte at `offset` and
/// of the byte before it.
pub open spec fn tells_line(runs: Seq<LineStart>, offset: usize) -> bool {
    &&& runs.len() > 0
    &&& if offset == 0 {
        runs[0].offset == 0
    } else {
        runs[0].offset < offset
    }
}

/// The line column of a listing: a bar for a byte on the line of the
/// byte before it, else the line right-aligned in four characters; then
/// a space.
pub open spec fn line_text(runs: Seq<LineStart>, offset: usize) -> Seq<char> {
    if offset > 0 && line_at(runs, (offset - 1) as usize) == line_at(runs, offset) {
        seq![' ', ' ', ' ', '|', ' ']
    } else {
        aligned(decimal(line_at(runs, offset) as nat), Some(4), ' ', Some(Alignment::Right))
            + seq![' ']
    }
}

/// The columns of a constant instruction: the mnemonic left-aligned in
/// sixteen characters, the handle in square brackets and the constant's
/// text in single quotes.
pub open spec fn opcode_and_value_text(op: OpCode, handle: usize, value: Seq<char>) -> Seq<char> {
    aligned(op.mnemonic(), Some(16), ' ', Some(Alignment::Left)) + seq![' ', ' ', '[']
        + decimal(handle as nat) + seq![']', ' ', '\''] + value + seq!['\'']
}

/// The marker for a byte that is no opcode: its message in angle
/// brackets.
pub open spec fn unknown_text(byte: u8) -> Seq<char> {
    seq!['<'] + unknown_message(byte) + seq!['>']
}

/// What listing one instruction gives: the text written, the error that
/// broke it off, and the number of operand bytes read.
pub struct InstrText {
    pub text: Seq<char>,
    pub error: Option<DebugError>,
    pub used: nat,
}

/// The listing of the instruction whose first byte is `byte`, found at
/// `offset`; its operand bytes are those of `stream` from `at` on, and
/// `texts` holds the text of each constant. The offset and line columns
/// come first. A constant instruction whose operand bytes are missing, or
/// whose handle has no text, breaks off behind them.
pub open spec fn instr_text(
    byte: u8,
    stream: Seq<u8>,
    at: nat,
    runs: Seq<LineStart>,
    texts: Seq<Seq<char>>,
    offset: usize,
) -> InstrText {
    let prefix = offset_text(offset) + line_text(runs, offset);
    match OpCode::from_byte(byte) {
        None => InstrText { text: prefix + unknown_text(byte), error: None, used: 0 },
        Some(op) => if op.loads_constant() {
            let count = op.operand_len() as usize;
            let used = (consumed_after(stream.len(), at, count) - at) as nat;
            match joined(stream.skip(at as int), count) {
                None => InstrText { text: prefix, error: Some(DebugError::MissingOperand), used },
                Some(handle) => if handle < texts.len() {
                    InstrText {
                        text: prefix + opcode_and_value_text(op, handle, texts[handle as int]),
                        error: None,
                        used,
                    }
                } else {
                    InstrText { text: prefix, error: Some(DebugError::MissingConstant), used }
                },
            }
        } else {
            InstrText { text: prefix + op.mnemonic(), error: None, used: 0 }
        },
    }
}

/// The text of a listing and the error that broke it off, if one did.
pub struct Listing {
    pub text: Seq<char>,
    pub error: Option<DebugError>,
}

/// The listing of the instructions of `code` from offset `pos` on: one
/// line for each, with a line feed between two lines and none at the
/// end. It breaks off within the first line that cannot be listed.
pub open spec fn listing_text(
    code: Seq<u8>,
    pos: nat,
    runs: Seq<LineStart>,
    texts: Seq<Seq<char>>,
) -> Listing
    decreases code.len() - pos,
{
    if pos >= code.len() {
        Listing { text: Seq::empty(), error: None }
    } else {
        let one = instr_text(code[pos as int], code, pos + 1, runs, texts, pos as usize);
        let next = pos + 1 + one.used;
        if one.error.is_some() || next >= code.len() {
            Listing { text: one.text, error: one.error }
        } else {
            let rest = listing_text(code, next, runs, texts);
            Listing { text: one.text + seq!['\n'] + rest.text, error: rest.error }
        }
    }
}

/// The texts of strings.
pub open spec fn views(strings: Seq<String>) -> Seq<Seq<char>> {
    strings.map_values(|s: String| s@)
}

/// A sink for the listing of instructions.
pub trait DebugInstruction {
    /// What the sink has taken so far.
    spec fn written(&self) -> Seq<char>;

    /// Writes the listing of the bytes that `bytes` still holds, the
    /// text of each constant being given by `constants`.
    fn debug_chunk(&mut self, bytes: &mut ByteCursor, lines: &Lines, constants: &[String]) -> (done:
        Result<(), DebugError>)
        requires
            old(bytes).wf(),
            lines.wf(),
            lines@.len() > 0 && lines@[0].offset == 0 || old(bytes).position() >= old(
                bytes,
            ).bytes().len(),
        ensures
            final(bytes).wf(),
            final(bytes).bytes() == old(bytes).bytes(),
            final(self).written() == old(self).written() + listing_text(
                old(bytes).bytes(),
                old(bytes).position(),
                lines@,
                views(constants@),
            ).text,
            done == match listing_text(
                old(bytes).bytes(),
                old(bytes).position(),
                lines@,
                views(constants@),
            ).error {
                None => Ok::<(), DebugError>(()),
                Some(e) => Err(e),
            },
            done.is_ok() ==> final(bytes).position() == final(bytes).bytes().len(),
    ;

    /// Writes the listing of the instruction whose first byte, `byte`,
    /// was read from `bytes` at `offset`.
    fn debug_next_instr<I: JoinBytes>(
        &mut self,
        bytes: &mut I,
        lines: &Lines,
        constants: &[String],
        offset: usize,
        byte: u8,
    ) -> (done: Result<(), DebugError>)
        requires
            old(bytes).stream_wf(),
            lines.wf(),
            tells_line(lines@, offset),
        ensures
            final(bytes).stream_wf(),
            final(bytes).stream() == old(bytes).stream(),
            final(bytes).consumed() == old(bytes).consumed() + instr_text(
                byte,
                old(bytes).stream(),
                old(bytes).consumed(),
                lines@,
                views(constants@),
                offset,
            ).used,
            final(self).written() == old(self).written() + instr_text(
                byte,
                old(bytes).stream(),
                old(bytes).consumed(),
                lines@,
                views(constants@),
                offset,
            ).text,
            done == match instr_text(
                byte,
                old(bytes).stream(),
                old(bytes).consumed(),
                lines@,
                views(constants@),
                offset,
            ).error {
                None => Ok::<(), DebugError>(()),
                Some(e) => Err(e),
            },
    ;

    /// Writes the offset column.
    fn print_offset(&mut self, offset: usize)
        ensures
            final(self).written() == old(self).written() + offset_text(offset),
    ;

    /// Writes the line column.
    fn print_line_number(&mut self, lines: &Lines, offset: usize)
        requires
            lines.wf(),
            tells_line(lines@, offset),
        ensures
            final(self).written() == old(self).written() + line_text(lines@, offset),
    ;

    /// Writes the mnemonic of `op`.
    fn print_opcode(&mut self, op: OpCode)
        ensures
            final(self).written() == old(self).written() + op.mnemonic(),
    ;

    /// Writes the columns of a constant instruction; `value` is the
    /// text of the constant.
    fn print_opcode_and_value(&mut self, op: OpCode, handle: usize, value: &str)
        ensures
            final(self).written() == old(self).written() + opcode_and_value_text(
                op,
                handle,
                value@,
            ),
    ;
}

impl DebugInstruction for String {
    open spec fn written(&self) -> Seq<char> {
        self@
    }

    fn debug_chunk(&mut self, bytes: &mut ByteCursor, lines: &Lines, constants: &[String]) -> (done:
        Result<(), DebugError>) {
        let ghost code = bytes.bytes();
        let ghost texts = views(constants@);
        let ghost total = listing_text(code, bytes.position(), lines@, texts);
        let ghost mut shown: Seq<char> = Seq::empty();
        proof {
            assert(self@ =~= old(self)@ + shown);
            assert(total.text =~= shown + total.text);
        }
        loop
            invariant
                bytes.wf(),
                lines.wf(),
                bytes.bytes() == code,
                texts == views(constants@),
                total == listing_text(old(bytes).bytes(), old(bytes).position(), lines@, texts),
                code == old(bytes).bytes(),
                lines@.len() > 0 && lines@[0].offset == 0 || bytes.position() >= code.len(),
                self@ == old(self)@ + shown,
                total.text == shown + listing_text(code, bytes.position(), lines@, texts).text,
                total.error == listing_text(code, bytes.position(), lines@, texts).error,
            decreases code.len() - bytes.position(),
        {
            proof {
                bytes.lemma_wf();
            }
            let ghost pos = bytes.position();
            let ghost here = listing_text(code, pos, lines@, texts);
            let (offset, byte) = match bytes.next() {
                None => {
                    proof {
                        assert(shown + here.text =~= shown);
                    }
                    return Ok(());
                },
                Some(item) => item,
            };
            let ghost one = instr_text(byte, code, pos + 1, lines@, texts, offset);
            match self.debug_next_instr(bytes, lines, constants, offset, byte) {
                Err(e) => {
                    proof {
                        assert(self@ =~= old(self)@ + (shown + one.text));
                    }
                    return Err(e);
                },
                Ok(()) => {},
            }
            proof {
                bytes.lemma_wf();
            }
            if bytes.len() > 0 {
                self.push('\n');
                proof {
                    let rest = listing_text(code, bytes.position(), lines@, texts);
                    assert(here.text == one.text + seq!['\n'] + rest.text);
                    assert(self@ =~= old(self)@ + (shown + one.text + seq!['\n']));
                    assert(total.text =~= (shown + one.text + seq!['\n']) + rest.text);
                    shown = shown + one.text + seq!['\n'];
                }
            } else {
                proof {
                    let rest = listing_text(code, bytes.position(), lines@, texts);
                    assert(self@ =~= old(self)@ + (shown + one.text));
                    assert(total.text =~= (shown + one.text) + rest.text);
                    shown = shown + one.text;
                }
            }
        }
    }

    fn debug_next_instr<I: JoinBytes>(
        &mut self,
        bytes: &mut I,
        lines: &Lines,
        constants: &[String],
        offset: usize,
        byte: u8,
    ) -> (done: Result<(), DebugError>) {
        let ghost texts = views(constants@);
        proof {
            bytes.lemma_consumed();
        }
        self.print_offset(offset);
        self.print_line_number(lines, offset);
        let ghost prefix = offset_text(offset) + line_text(lines@, offset);
        proof {
            assert(self@ =~= old(self)@ + prefix);
        }
        match OpCode::try_from(byte) {
            Ok(op) => match op {
                OpCode::Constant | OpCode::Constant16 | OpCode::Constant24 => {
                    let handle = match bytes.join_bytes(op.operand_count()) {
                        None => {
                            return Err(DebugError::MissingOperand);
                        },
                        Some(handle) => handle,
                    };
                    if handle >= constants.len() {
                        return Err(DebugError::MissingConstant);
                    }
                    let value = constants[handle].as_str();
                    self.print_opcode_and_value(op, handle, value);
                    proof {
                        assert(texts[handle as int] == constants@[handle as int]@);
                        assert(self@ =~= old(self)@ + (prefix + opcode_and_value_text(
                            op,
                            handle,
                            value@,
                        )));
                    }
                    Ok(())
                },
                _ => {
                    self.print_opcode(op);
                    proof {
                        assert(self@ =~= old(self)@ + (prefix + op.mnemonic()));
                    }
                    Ok(())
                },
            },
            Err(OpCodeError(msg)) => {
                self.push('<');
                self.append(msg.as_str());
                self.push('>');
                proof {
                    assert(self@ =~= old(self)@ + (prefix + unknown_text(byte)));
                }
                Ok(())
            },
        }
    }

    fn print_offset(&mut self, offset: usize) {
        let digits = decimal_string(offset);
        print_aligned(self, digits.as_str(), Some(4), '0', Some(Alignment::Right));
        self.push(' ');
        self.push(' ');
        proof {
            assert(self@ =~= old(self)@ + offset_text(offset));
        }
    }

    fn print_line_number(&mut self, lines: &Lines, offset: usize) {
        let line = lines.find_line(offset);
        let same = offset > 0 && lines.find_line(offset - 1) == line;
        if same {
            self.append("   | ");
            proof {
                reveal_strlit("   | ");
                assert("   | "@ =~= seq![' ', ' ', ' ', '|', ' ']);
            }
        } else {
            let digits = decimal_string(line);
            print_aligned(self, digits.as_str(), Some(4), ' ', Some(Alignment::Right));
            self.push(' ');
            proof {
                assert(self@ =~= old(self)@ + line_text(lines@, offset));
            }
        }
    }

    fn print_opcode(&mut self, op: OpCode) {
        op.fmt(self, None, ' ', None);
    }

    fn print_opcode_and_value(&mut self, op: OpCode, handle: usize, value: &str) {
        op.fmt(self, Some(16), ' ', Some(Alignment::Left));
        self.append("  [");
        let digits = decimal_string(handle);
        self.append(digits.as_str());
        self.append("] '");
        self.append(value);
        self.push('\'');
        proof {
            reveal_strlit("  [");
            reveal_strlit("] '");
            assert("  ["@ =~= seq![' ', ' ', '[']);
            assert("] '"@ =~= seq![']', ' ', '\'']);
            assert(self@ =~= old(self)@ + opcode_and_value_text(op, handle, value@));
        }
    }
}

} // verus!
