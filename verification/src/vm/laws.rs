use vstd::prelude::*;
use crate::chunk::format::{
    encode_const, fetch, lemma_fetch_of_encoded_constant, well_encoded_from, Fetched,
};
use crate::chunk::{OpCode, MAX_CONSTANTS};
use crate::stack::STACK_MAX;
use crate::value::Value;
use super::model::{ends_with, fault, is_run, steps_to, Machine, Program};
use super::Error;

verus! {

/// A written constant comes back unchanged: where `write_const` has put
/// `value` into a pool that held `pool` and its instruction behind
/// `before`, executing that instruction on a stack that is not full
/// pushes `value` itself, bit for bit, whatever was written later.
pub proof fn lemma_written_constant_is_pushed<F: Fn(OpCode, Value, Value) -> Value>(
    alu: F,
    program: Program,
    before: Seq<u8>,
    after: Seq<u8>,
    pool: Seq<Value>,
    later: Seq<Value>,
    value: Value,
    m: Machine,
    n: Machine,
)
    requires
        pool.len() < MAX_CONSTANTS,
        program.code == before + encode_const(pool.len()) + after,
        program.pool == pool.push(value) + later,
        m.pc == before.len(),
        steps_to(alu, program, m, n),
    ensures
        n.stack == m.stack.push(value),
        n.stack.last().bits == value.bits,
        n.reported == m.reported,
        n.pc == before.len() + encode_const(pool.len()).len(),
{
    lemma_fetch_of_encoded_constant(before, pool.len(), after);
    assert(program.pool[pool.len() as int] == value);
}

/// Round trip: where a constant instruction written for `value` is
/// followed by `Return`, executing the two reports `value` itself, bit
/// for bit, and leaves the stack as it was.
pub proof fn lemma_written_constant_is_reported<F: Fn(OpCode, Value, Value) -> Value>(
    alu: F,
    program: Program,
    before: Seq<u8>,
    after: Seq<u8>,
    pool: Seq<Value>,
    later: Seq<Value>,
    value: Value,
    m: Machine,
    n: Machine,
    k: Machine,
)
    requires
        pool.len() < MAX_CONSTANTS,
        program.code == before + encode_const(pool.len()) + seq![OpCode::Return.byte()] + after,
        program.pool == pool.push(value) + later,
        m.pc == before.len(),
        steps_to(alu, program, m, n),
        steps_to(alu, program, n, k),
    ensures
        k.stack == m.stack,
        k.reported == m.reported.push(value),
        k.reported.last().bits == value.bits,
{
    let enc = encode_const(pool.len());
    let tail = seq![OpCode::Return.byte()] + after;
    assert(program.code =~= before + enc + tail);
    lemma_written_constant_is_pushed(alu, program, before, tail, pool, later, value, m, n);
    let code = program.code;
    assert(code[n.pc as int] == OpCode::Return.byte());
    assert(code.subrange(n.pc as int + 1, n.pc as int + 1) =~= Seq::<u8>::empty());
    assert(n.stack.drop_last() =~= m.stack);
}

/// A run through whole instructions stays on instruction boundaries:
/// every state of a run that starts at the first byte of a well-encoded
/// stream stands at the start of a well-encoded rest.
pub proof fn lemma_run_stays_well_encoded<F: Fn(OpCode, Value, Value) -> Value>(
    alu: F,
    program: Program,
    start: Machine,
    run: Seq<Machine>,
    i: int,
)
    requires
        well_encoded_from(program.code, program.pool.len(), start.pc),
        is_run(alu, program, start, run),
        0 <= i < run.len(),
    ensures
        well_encoded_from(program.code, program.pool.len(), run[i].pc),
    decreases i,
{
    if i > 0 {
        lemma_run_stays_well_encoded(alu, program, start, run, i - 1);
        assert(steps_to(alu, program, run[i - 1], run[i - 1 + 1]));
    }
}

/// A well-encoded chunk fails only for want of room or of operands: a
/// run from its first byte never ends in a compile error; it ends in a
/// runtime error only at an arithmetic instruction or a `Negate` that
/// finds too few operands, and in a stack overflow only at a constant
/// instruction on a full stack.
pub proof fn lemma_well_encoded_faults<F: Fn(OpCode, Value, Value) -> Value>(
    alu: F,
    program: Program,
    start: Machine,
    run: Seq<Machine>,
    error: Error,
)
    requires
        well_encoded_from(program.code, program.pool.len(), start.pc),
        ends_with(alu, program, start, run, Err(error)),
    ensures
        fetch(program.code, run.last().pc) is Instr,
        error != Error::Compile,
        error == Error::Runtime ==> {
            let op = fetch(program.code, run.last().pc)->op;
            (op.is_arithmetic() && run.last().stack.len() < 2) || (op == OpCode::Negate
                && run.last().stack.len() < 1)
        },
        error == Error::StackOverflow ==> fetch(program.code, run.last().pc)->op.loads_constant()
            && run.last().stack.len() >= STACK_MAX,
{
    lemma_run_stays_well_encoded(alu, program, start, run, run.len() - 1);
}

/// Whether `alu` gives one result for each opcode and pair of operands.
pub open spec fn single_valued<F: Fn(OpCode, Value, Value) -> Value>(alu: F) -> bool {
    forall|op: OpCode, left: Value, right: Value, r1: Value, r2: Value|
        call_ensures(alu, (op, left, right), r1) && call_ensures(alu, (op, left, right), r2) ==> r1
            == r2
}

/// With single-valued arithmetic a step has one outcome.
pub proof fn lemma_step_is_determined<F: Fn(OpCode, Value, Value) -> Value>(
    alu: F,
    program: Program,
    m: Machine,
    n1: Machine,
    n2: Machine,
)
    requires
        single_valued(alu),
        steps_to(alu, program, m, n1),
        steps_to(alu, program, m, n2),
    ensures
        n1 == n2,
{
    let fetched = fetch(program.code, m.pc);
    let op = fetched->op;
    if op.is_arithmetic() {
        let depth = m.stack.len();
        assert(n1.stack.last() == n2.stack.last());
        assert(n1.stack =~= n1.stack.drop_last().push(n1.stack.last()));
        assert(n2.stack =~= n2.stack.drop_last().push(n2.stack.last()));
    }
}

/// With single-valued arithmetic a program has one run from each start:
/// two whole runs from the same state pass through the same states and
/// end with the same result.
pub proof fn lemma_run_is_determined<F: Fn(OpCode, Value, Value) -> Value>(
    alu: F,
    program: Program,
    start: Machine,
    run1: Seq<Machine>,
    result1: Result<(), Error>,
    run2: Seq<Machine>,
    result2: Result<(), Error>,
)
    requires
        single_valued(alu),
        ends_with(alu, program, start, run1, result1),
        ends_with(alu, program, start, run2, result2),
    ensures
        run1 == run2,
        result1 == result2,
{
    lemma_runs_agree(alu, program, start, run1, run2, 0);
    if run1.len() < run2.len() {
        let last = run1.len() - 1;
        lemma_runs_agree(alu, program, start, run1, run2, last);
        assert(steps_to(alu, program, run2[last], run2[last + 1]));
        assert(run1.last() == run2[last]);
    } else if run2.len() < run1.len() {
        let last = run2.len() - 1;
        lemma_runs_agree(alu, program, start, run1, run2, last);
        assert(steps_to(alu, program, run1[last], run1[last + 1]));
        assert(run2.last() == run1[last]);
    } else {
        assert forall|i: int| 0 <= i < run1.len() implies run1[i] == run2[i] by {
            lemma_runs_agree(alu, program, start, run1, run2, i);
        }
        assert(run1 =~= run2);
        assert(run1.last() == run2.last());
        match result1 {
            Ok(u1) => {
                match result2 {
                    Ok(u2) => {
                        assert(u1 == u2);
                    },
                    Err(_) => {},
                }
            },
            Err(_) => {},
        }
    }
}

/// Two runs from the same state agree on every state that both reach.
proof fn lemma_runs_agree<F: Fn(OpCode, Value, Value) -> Value>(
    alu: F,
    program: Program,
    start: Machine,
    run1: Seq<Machine>,
    run2: Seq<Machine>,
    i: int,
)
    requires
        single_valued(alu),
        is_run(alu, program, start, run1),
        is_run(alu, program, start, run2),
        0 <= i < run1.len(),
        i < run2.len(),
    ensures
        run1[i] == run2[i],
    decreases i,
{
    if i > 0 {
        lemma_runs_agree(alu, program, start, run1, run2, i - 1);
        assert(steps_to(alu, program, run1[i - 1], run1[i - 1 + 1]));
        assert(steps_to(alu, program, run2[i - 1], run2[i - 1 + 1]));
        lemma_step_is_determined(alu, program, run1[i - 1], run1[i], run2[i]);
    }
}

/// A run is as long as its instructions are many: each step moves on
/// in the stream, so a run of a stream of `n` bytes has at most `n + 1`
/// states.
pub proof fn lemma_run_moves_on<F: Fn(OpCode, Value, Value) -> Value>(
    alu: F,
    program: Program,
    start: Machine,
    run: Seq<Machine>,
    i: int,
)
    requires
        is_run(alu, program, start, run),
        0 <= i < run.len(),
    ensures
        run[i].pc >= start.pc + i,
        i < run.len() - 1 ==> run[i].pc < program.code.len(),
    decreases i,
{
    if i > 0 {
        lemma_run_moves_on(alu, program, start, run, i - 1);
        assert(steps_to(alu, program, run[i - 1], run[i - 1 + 1]));
    }
    if i < run.len() - 1 {
        assert(steps_to(alu, program, run[i], run[i + 1]));
    }
}

/// Stack discipline: an instruction that executes never leaves more
/// than the stack's bound of operands behind.
pub proof fn lemma_step_keeps_bound<F: Fn(OpCode, Value, Value) -> Value>(
    alu: F,
    program: Program,
    m: Machine,
    n: Machine,
)
    requires
        m.stack.len() <= STACK_MAX,
        steps_to(alu, program, m, n),
    ensures
        n.stack.len() <= STACK_MAX,
        n.stack.len() <= m.stack.len() + 1,
{
}

} // verus!
