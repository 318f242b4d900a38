use vstd::prelude::*;
use crate::chunk::format::{fetch, Fetched};
use crate::chunk::lines::{line_at, LineStart};
use crate::chunk::OpCode;
use crate::stack::STACK_MAX;
use crate::value::Value;
use super::Error;

verus! {

/// What a chunk holds, as mathematics: the instruction bytes, the
/// constant pool and the runs of the line table.
pub struct Program {
    pub code: Seq<u8>,
    pub pool: Seq<Value>,
    pub runs: Seq<LineStart>,
}

/// The state of a run between two instructions: the offset of the next
/// instruction, the operand stack from the bottom to the top, and the
/// values that `Return` instructions have reported so far.
pub struct Machine {
    pub pc: nat,
    pub stack: Seq<Value>,
    pub reported: Seq<Value>,
}

/// The error that the instruction at the machine's offset stops the run
/// with, if it stops it: an unknown opcode is a compile error; missing
/// operand bytes, a handle that the pool does not hold and too few
/// operands on the stack are runtime errors; a constant pushed onto a
/// full stack is a stack overflow. `Return` on an empty stack is no
/// error.
pub open spec fn fault(program: Program, m: Machine) -> Option<Error> {
    match fetch(program.code, m.pc) {
        Fetched::End => None,
        Fetched::Unknown => Some(Error::Compile),
        Fetched::Truncated => Some(Error::Runtime),
        Fetched::Instr { op, handle, next } => {
            if op.loads_constant() {
                if handle >= program.pool.len() {
                    Some(Error::Runtime)
                } else if m.stack.len() >= STACK_MAX {
                    Some(Error::StackOverflow)
                } else {
                    None
                }
            } else if op.is_arithmetic() {
                if m.stack.len() < 2 {
                    Some(Error::Runtime)
                } else {
                    None
                }
            } else if op == OpCode::Negate {
                if m.stack.len() < 1 {
                    Some(Error::Runtime)
                } else {
                    None
                }
            } else {
                None
            }
        },
    }
}

/// Whether executing the instruction at `m`'s offset can lead from `m`
/// to `n`, the arithmetic being done by `alu`:
/// - a constant instruction pushes the constant with its handle;
/// - an arithmetic instruction replaces the two topmost operands, the
///   left one below the right one, by a result of `alu` on them;
/// - `Negate` flips the sign of the top operand;
/// - `Return` takes the top operand off and reports it, and does nothing
///   on an empty stack.
pub open spec fn steps_to<F: Fn(OpCode, Value, Value) -> Value>(
    alu: F,
    program: Program,
    m: Machine,
    n: Machine,
) -> bool {
    &&& fault(program, m).is_none()
    &&& match fetch(program.code, m.pc) {
        Fetched::Instr { op, handle, next } => {
            &&& n.pc == next
            &&& if op.loads_constant() {
                &&& n.stack == m.stack.push(program.pool[handle as int])
                &&& n.reported == m.reported
            } else if op.is_arithmetic() {
                let depth = m.stack.len();
                &&& n.stack.len() == depth - 1
                &&& n.stack.drop_last() == m.stack.take(depth - 2)
                &&& call_ensures(alu, (op, m.stack[depth - 2], m.stack[depth - 1]), n.stack.last())
                &&& n.reported == m.reported
            } else if op == OpCode::Negate {
                &&& n.stack == m.stack.drop_last().push(m.stack.last().negated())
                &&& n.reported == m.reported
            } else if m.stack.len() == 0 {
                &&& n.stack == m.stack
                &&& n.reported == m.reported
            } else {
                &&& n.stack == m.stack.drop_last()
                &&& n.reported == m.reported.push(m.stack.last())
            }
        },
        _ => false,
    }
}

/// Whether `run` lists the states of a run from `start`, one for each
/// instruction boundary that the run has reached.
pub open spec fn is_run<F: Fn(OpCode, Value, Value) -> Value>(
    alu: F,
    program: Program,
    start: Machine,
    run: Seq<Machine>,
) -> bool {
    &&& run.len() > 0
    &&& run[0] == start
    &&& forall|i: int| 0 <= i < run.len() - 1 ==> steps_to(alu, program, #[trigger] run[i], run[i + 1])
}

/// Whether `run` is a whole run from `start` that ends as `result` says:
/// with success at the end of the stream, or with the error of the
/// instruction that the last state stands at.
pub open spec fn ends_with<F: Fn(OpCode, Value, Value) -> Value>(
    alu: F,
    program: Program,
    start: Machine,
    run: Seq<Machine>,
    result: Result<(), Error>,
) -> bool {
    &&& is_run(alu, program, start, run)
    &&& match result {
        Ok(()) => fetch(program.code, run.last().pc) is End,
        Err(e) => fault(program, run.last()) == Some(e),
    }
}

/// How a trace event shows the line of an instruction.
#[derive(Clone, Copy, Debug, PartialEq, Eq, Structural)]
pub enum LineMark {
    /// The instruction's line.
    Line(usize),
    /// The instruction lies on the line of the byte before it.
    Same,
}

/// The mark for the byte at `offset`: `Same` where the byte before it
/// lies on the same line, the line otherwise.
pub open spec fn line_mark(runs: Seq<LineStart>, offset: usize) -> LineMark {
    if offset > 0 && line_at(runs, (offset - 1) as usize) == line_at(runs, offset) {
        LineMark::Same
    } else {
        LineMark::Line(line_at(runs, offset))
    }
}

/// The operand of a constant instruction: the handle that its operand
/// bytes spell and the constant with that handle.
#[derive(Clone, Copy, Debug, PartialEq, Eq, Structural)]
pub struct Operand {
    pub handle: usize,
    pub value: Value,
}

/// What a trace event says, as mathematics.
pub struct TraceRecord {
    pub offset: usize,
    pub line: LineMark,
    pub op: OpCode,
    pub operand: Option<Operand>,
    pub stack: Seq<Value>,
}

/// The event for the step from `m` to `n`: where the instruction stands
/// and on which line, its opcode, for a constant instruction its handle
/// and constant, and the stack as the step left it.
pub open spec fn event_of(program: Program, m: Machine, n: Machine) -> TraceRecord {
    let fetched = fetch(program.code, m.pc);
    let op = fetched->op;
    let handle = fetched->handle;
    TraceRecord {
        offset: m.pc as usize,
        line: line_mark(program.runs, m.pc as usize),
        op,
        operand: if op.loads_constant() {
            Some(Operand { handle: handle as usize, value: program.pool[handle as int] })
        } else {
            None
        },
        stack: n.stack,
    }
}

/// The events of a run, one for each step, in order.
pub open spec fn events_of(program: Program, run: Seq<Machine>) -> Seq<TraceRecord> {
    Seq::new(
        if run.len() > 0 {
            (run.len() - 1) as nat
        } else {
            0
        },
        |i: int| event_of(program, run[i], run[i + 1]),
    )
}

} // verus!
