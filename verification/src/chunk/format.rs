use vstd::prelude::*;
use super::join_bytes::{join, lemma_join_one, lemma_join_three, lemma_join_two};
use super::{OpCode, MAX_CONSTANTS};

verus! {

/// The instruction that loads the constant with the given handle: the
/// narrowest of the three constant opcodes that can hold the handle,
/// followed by the handle in one, two or three bytes, the highest first.
pub open spec fn encode_const(handle: nat) -> Seq<u8> {
    if handle <= 0xFF {
        seq![OpCode::Constant.byte(), handle as u8]
    } else if handle <= 0xFFFF {
        seq![OpCode::Constant16.byte(), (handle / 0x100) as u8, (handle % 0x100) as u8]
    } else {
        seq![
            OpCode::Constant24.byte(),
            (handle / 0x1_0000 % 0x100) as u8,
            (handle / 0x100 % 0x100) as u8,
            (handle % 0x100) as u8,
        ]
    }
}

/// The opcode of the instruction that loads the constant with the given
/// handle.
pub open spec fn const_op(handle: nat) -> OpCode {
    if handle <= 0xFF {
        OpCode::Constant
    } else if handle <= 0xFFFF {
        OpCode::Constant16
    } else {
        OpCode::Constant24
    }
}

/// The width of an encoding follows the handle: handles up to 255 take
/// the opcode with one operand byte, handles up to 65,535 the one with
/// two, all larger handles the one with three.
pub proof fn lemma_encoding_width(handle: nat)
    requires
        handle < MAX_CONSTANTS,
    ensures
        encode_const(handle)[0] == const_op(handle).byte(),
        encode_const(handle).len() == 1 + const_op(handle).operand_len(),
        const_op(handle) == OpCode::Constant <==> handle <= 255,
        const_op(handle) == OpCode::Constant16 <==> 256 <= handle <= 65_535,
        const_op(handle) == OpCode::Constant24 <==> 65_536 <= handle,
{
}

/// Decoding mirrors encoding: where the instruction that loads the
/// constant with handle `handle` stands in a stream, behind `before`
/// and in front of `after`, fetching at its offset gives its opcode,
/// that handle, and the offset of what follows.
pub proof fn lemma_fetch_of_encoded_constant(before: Seq<u8>, handle: nat, after: Seq<u8>)
    requires
        handle < MAX_CONSTANTS,
    ensures
        fetch(before + encode_const(handle) + after, before.len()) == (Fetched::Instr {
            op: const_op(handle),
            handle,
            next: before.len() + encode_const(handle).len(),
        }),
        encode_const(handle).len() == 1 + const_op(handle).operand_len(),
{
    let enc = encode_const(handle);
    let code = before + enc + after;
    let pc = before.len();
    let op = const_op(handle);
    assert(code[pc as int] == enc[0]);
    let next = pc + 1 + op.operand_len();
    assert(next == pc + enc.len());
    let operands = code.subrange(pc as int + 1, next as int);
    assert(operands =~= enc.skip(1));
    if handle <= 0xFF {
        assert(enc.skip(1) =~= seq![handle as u8]);
        lemma_join_one(handle as u8);
    } else if handle <= 0xFFFF {
        let a = (handle / 0x100) as u8;
        let b = (handle % 0x100) as u8;
        assert(enc.skip(1) =~= seq![a, b]);
        lemma_join_two(a, b);
    } else {
        let a = (handle / 0x1_0000 % 0x100) as u8;
        let b = (handle / 0x100 % 0x100) as u8;
        let c = (handle % 0x100) as u8;
        assert(enc.skip(1) =~= seq![a, b, c]);
        lemma_join_three(a, b, c);
    }
}

/// What stands at an offset of an instruction stream.
pub enum Fetched {
    /// The end of the stream.
    End,
    /// A byte that is no opcode.
    Unknown,
    /// An opcode with fewer operand bytes behind it than it takes.
    Truncated,
    /// An instruction: its opcode, the number that its operand bytes
    /// spell (0 where it has none) and the offset behind it.
    Instr { op: OpCode, handle: nat, next: nat },
}

/// Decodes what stands at offset `pc` of `code`.
pub open spec fn fetch(code: Seq<u8>, pc: nat) -> Fetched {
    if pc >= code.len() {
        Fetched::End
    } else {
        match OpCode::from_byte(code[pc as int]) {
            None => Fetched::Unknown,
            Some(op) => {
                let next = pc + 1 + op.operand_len();
                if next > code.len() {
                    Fetched::Truncated
                } else {
                    Fetched::Instr {
                        op,
                        handle: join(code.subrange(pc as int + 1, next as int)),
                        next,
                    }
                }
            },
        }
    }
}

/// Whether the bytes of `code` from offset `from` on are whole
/// instructions, each constant instruction with a handle below
/// `pool_len`.
pub open spec fn well_encoded_from(code: Seq<u8>, pool_len: nat, from: nat) -> bool
    decreases code.len() - from,
{
    match fetch(code, from) {
        Fetched::End => true,
        Fetched::Instr { op, handle, next } => {
            &&& op.loads_constant() ==> handle < pool_len
            &&& well_encoded_from(code, pool_len, next)
        },
        _ => false,
    }
}

/// A stream of whole instructions stays one when a whole instruction is
/// written behind it and the pool does not shrink.
pub proof fn lemma_well_encoded_grows(
    code: Seq<u8>,
    pool_len: nat,
    from: nat,
    instr: Seq<u8>,
    new_pool_len: nat,
)
    requires
        well_encoded_from(code, pool_len, from),
        from <= code.len(),
        pool_len <= new_pool_len,
        fetch(code + instr, code.len()) is Instr,
        fetch(code + instr, code.len())->next == code.len() + instr.len(),
        fetch(code + instr, code.len())->op.loads_constant() ==> fetch(
            code + instr,
            code.len(),
        )->handle < new_pool_len,
    ensures
        well_encoded_from(code + instr, new_pool_len, from),
    decreases code.len() - from,
{
    let longer = code + instr;
    if from == code.len() {
        assert(fetch(longer, longer.len()) is End);
        assert(well_encoded_from(longer, new_pool_len, longer.len()));
    } else {
        let op = fetch(code, from)->op;
        let next = fetch(code, from)->next;
        assert(longer[from as int] == code[from as int]);
        assert(longer.subrange(from as int + 1, next as int) =~= code.subrange(
            from as int + 1,
            next as int,
        ));
        lemma_well_encoded_grows(code, pool_len, next, instr, new_pool_len);
    }
}

/// An instruction without operands is whole wherever it stands last.
pub proof fn lemma_fetch_of_plain_instruction(before: Seq<u8>, op: OpCode)
    requires
        !op.loads_constant(),
    ensures
        fetch(before + seq![op.byte()], before.len()) == (Fetched::Instr {
            op,
            handle: 0,
            next: before.len() + 1,
        }),
{
    let code = before + seq![op.byte()];
    assert(code[before.len() as int] == op.byte());
    assert(code.subrange(before.len() as int + 1, before.len() as int + 1) =~= Seq::<u8>::empty());
}

} // verus!
