use vstd::prelude::*;
use crate::chunk::format::fetch;
use crate::chunk::into_iter::Consumable;
use crate::chunk::join_bytes::{lemma_join_bound, JoinBytes};
use crate::chunk::lines::Lines;
use crate::chunk::{Chunk, OpCode};
use crate::debug::tells_line;
use crate::stack::Stack;
use crate::value::Value;
use self::model::{
    ends_with, event_of, events_of, fault, is_run, line_mark, steps_to, LineMark, Machine,
    Operand, Program, TraceRecord,
};

pub mod debug;
pub mod laws;
pub mod model;

verus! {

/// Why a run stopped before the end of its chunk.
#[derive(Clone, Copy, Debug, PartialEq, Eq, Structural)]
pub enum Error {
    /// A byte of the instruction stream is no opcode.
    Compile,
    /// An instruction lacks operand bytes, names a constant that the
    /// pool does not hold, or finds too few operands on the stack.
    Runtime,
    /// A constant was pushed onto a full stack.
    StackOverflow,
}

/// Where an interpreter stands between two calls.
#[derive(Clone, Copy, Debug, PartialEq, Eq, Structural)]
pub enum State {
    /// Ready for a run.
    Idle,
    /// In the middle of a run.
    Running,
    /// Stopped by an error; to be reset before the next run.
    Halted(Error),
}

/// What the interpreter tells its tracer about one executed instruction.
#[derive(Debug)]
pub struct TraceEvent {
    pub offset: usize,
    pub line: LineMark,
    pub op: OpCode,
    pub operand: Option<Operand>,
    pub stack: Vec<Value>,
}

impl View for TraceEvent {
    type V = TraceRecord;

    open spec fn view(&self) -> TraceRecord {
        TraceRecord {
            offset: self.offset,
            line: self.line,
            op: self.op,
            operand: self.operand,
            stack: self.stack@,
        }
    }
}

/// The program that a stream executes.
pub open spec fn program_of(ip: &Consumable) -> Program {
    Program { code: ip.code(), pool: ip.pool(), runs: ip.runs() }
}

/// Whether `alu` accepts every pair of operands for every arithmetic
/// opcode.
pub open spec fn total<F: Fn(OpCode, Value, Value) -> Value>(alu: F) -> bool {
    forall|op: OpCode, left: Value, right: Value|
        op.is_arithmetic() ==> call_requires(alu, (op, left, right))
}

/// A bytecode interpreter: an operand stack, the values reported by
/// `Return` instructions during the last run, and, where tracing is on,
/// the events of the last run.
pub struct VM {
    stack: Stack<Value>,
    state: State,
    tracing: bool,
    trace: Vec<TraceEvent>,
    reported: Vec<Value>,
}

impl VM {
    /// The operand stack, from the bottom to the top.
    pub closed spec fn operands(&self) -> Seq<Value> {
        self.stack@
    }

    /// Where the interpreter stands.
    pub closed spec fn status(&self) -> State {
        self.state
    }

    /// Whether the interpreter records trace events.
    pub closed spec fn is_tracing(&self) -> bool {
        self.tracing
    }

    /// The recorded trace events, in order.
    pub closed spec fn events(&self) -> Seq<TraceRecord> {
        self.trace@.map_values(|e: TraceEvent| e@)
    }

    /// The values that `Return` instructions have reported, in order.
    pub closed spec fn results(&self) -> Seq<Value> {
        self.reported@
    }

    /// Well-formedness: the stack is within its bound, and an interpreter
    /// that does not trace holds no events.
    pub closed spec fn wf(&self) -> bool {
        &&& self.stack.wf()
        &&& !self.tracing ==> self.trace@.len() == 0
    }

    /// The state of a run that stands at offset `pc`.
    pub open spec fn machine(&self, pc: nat) -> Machine {
        Machine { pc, stack: self.operands(), reported: self.results() }
    }

    /// An idle interpreter with an empty stack, which records trace
    /// events if and only if `tracing` is set.
    pub fn new(tracing: bool) -> (vm: VM)
        ensures
            vm.wf(),
            vm.status() == State::Idle,
            vm.is_tracing() == tracing,
            vm.operands() == Seq::<Value>::empty(),
            vm.results() == Seq::<Value>::empty(),
            vm.events() == Seq::<TraceRecord>::empty(),
    {
        let vm = VM {
            stack: Stack::new(),
            state: State::Idle,
            tracing,
            trace: Vec::new(),
            reported: Vec::new(),
        };
        proof {
            assert(vm.events() =~= Seq::<TraceRecord>::empty());
        }
        vm
    }

    /// Executes the instruction that the stream stands at, the arithmetic
    /// being done by `alu`. Gives `Ok(false)` at the end of the stream,
    /// `Ok(true)` after an instruction, and the instruction's error where
    /// it has one. A tracing interpreter records the event of an executed
    /// instruction; an instruction that fails leaves no event.
    pub fn step<F: Fn(OpCode, Value, Value) -> Value>(&mut self, ip: &mut Consumable, alu: &F) -> (done:
        Result<bool, Error>)
        requires
            old(self).wf(),
            old(ip).wf(),
            total(*alu),
        ensures
            final(self).wf(),
            final(ip).wf(),
            program_of(final(ip)) == program_of(old(ip)),
            final(self).status() == old(self).status(),
            final(self).is_tracing() == old(self).is_tracing(),
            match done {
                Ok(true) => {
                    &&& steps_to(
                        *alu,
                        program_of(old(ip)),
                        old(self).machine(old(ip).position()),
                        final(self).machine(final(ip).position()),
                    )
                    &&& final(self).events() == if old(self).is_tracing() {
                        old(self).events().push(
                            event_of(
                                program_of(old(ip)),
                                old(self).machine(old(ip).position()),
                                final(self).machine(final(ip).position()),
                            ),
                        )
                    } else {
                        old(self).events()
                    }
                },
                Ok(false) => {
                    &&& fetch(old(ip).code(), old(ip).position()) is End
                    &&& final(self).machine(final(ip).position()) == old(self).machine(
                        old(ip).position(),
                    )
                    &&& final(self).events() == old(self).events()
                },
                Err(e) => {
                    &&& fault(program_of(old(ip)), old(self).machine(old(ip).position())) == Some(e)
                    &&& final(self).events() == old(self).events()
                },
            },
    {
        let ghost before = self.machine(ip.position());
        let ghost code = ip.code();
        let ghost pc = ip.position();
        proof {
            ip.lemma_wf();
        }
        let (offset, byte) = match ip.next() {
            None => {
                return Ok(false);
            },
            Some(item) => item,
        };
        let op = match OpCode::decode(byte) {
            None => {
                return Err(Error::Compile);
            },
            Some(op) => op,
        };
        let mut operand: Option<Operand> = None;
        match op {
            OpCode::Constant | OpCode::Constant16 | OpCode::Constant24 => {
                let count = op.operand_count();
                proof {
                    let rest = code.skip(pc as int + 1);
                    if count <= rest.len() {
                        assert(rest.take(count as int) =~= code.subrange(
                            pc as int + 1,
                            pc as int + 1 + count as int,
                        ));
                        lemma_join_bound(rest.take(count as int));
                    }
                }
                let handle = match ip.join_bytes(count) {
                    None => {
                        return Err(Error::Runtime);
                    },
                    Some(handle) => handle,
                };
                let value = match ip.read_const(handle) {
                    None => {
                        return Err(Error::Runtime);
                    },
                    Some(value) => value,
                };
                match self.stack.push(value) {
                    Err(_) => {
                        return Err(Error::StackOverflow);
                    },
                    Ok(()) => {},
                }
                operand = Some(Operand { handle, value });
            },
            OpCode::Add | OpCode::Subtract | OpCode::Multiply | OpCode::Divide => {
                let right = match self.stack.pop() {
                    None => {
                        return Err(Error::Runtime);
                    },
                    Some(right) => right,
                };
                let left = match self.stack.peek() {
                    None => {
                        return Err(Error::Runtime);
                    },
                    Some(left) => *left,
                };
                let combined = alu(op, left, right);
                let put = |_left: Value| -> (r: Value)
                    ensures
                        r == combined,
                    { combined };
                self.stack.mutate(put);
                proof {
                    assert(self.stack@.drop_last() =~= before.stack.take(before.stack.len() - 2));
                }
            },
            OpCode::Negate => {
                let flip = |v: Value| -> (r: Value)
                    ensures
                        r == v.negated(),
                    { v.negate() };
                if !self.stack.mutate(flip) {
                    return Err(Error::Runtime);
                }
                proof {
                    assert(self.stack@ =~= before.stack.drop_last().push(
                        before.stack.last().negated(),
                    ));
                }
            },
            OpCode::Return => {
                match self.stack.pop() {
                    Some(value) => {
                        self.reported.push(value);
                    },
                    None => {},
                }
            },
        }
        if self.tracing {
            let line = line_mark_at(ip.lines(), offset);
            let ghost events = self.events();
            let event = TraceEvent { offset, line, op, operand, stack: self.stack.snapshot() };
            self.trace.push(event);
            proof {
                assert(self.events() =~= events.push(event@));
            }
        }
        Ok(true)
    }

    /// Runs `chunk` from its first instruction to its end or to its first
    /// error, the arithmetic being done by `alu`. The run starts on the
    /// stack as the last run left it, with no reported value and no
    /// event. After a success the interpreter is idle and holds the stack
    /// and the reported values of the run's last state. After an error it
    /// is halted with that error and holds no reported value; its stack
    /// is then in no defined state. A tracing interpreter holds the
    /// events of the instructions that were executed.
    pub fn interpret<F: Fn(OpCode, Value, Value) -> Value>(&mut self, chunk: Chunk, alu: F) -> (result:
        Result<(), Error>)
        requires
            old(self).wf(),
            old(self).status() == State::Idle,
            chunk.wf(),
            total(alu),
        ensures
            final(self).wf(),
            final(self).is_tracing() == old(self).is_tracing(),
            final(self).status() == match result {
                Ok(()) => State::Idle,
                Err(e) => State::Halted(e),
            },
            exists|run: Seq<Machine>|
                {
                    &&& #[trigger] ends_with(
                        alu,
                        program_of_chunk(&chunk),
                        Machine { pc: 0, stack: old(self).operands(), reported: Seq::empty() },
                        run,
                        result,
                    )
                    &&& final(self).events() == if old(self).is_tracing() {
                        events_of(program_of_chunk(&chunk), run)
                    } else {
                        Seq::empty()
                    }
                    &&& match result {
                        Ok(()) => final(self).operands() == run.last().stack
                            && final(self).results() == run.last().reported,
                        Err(_) => final(self).results() == Seq::<Value>::empty(),
                    }
                },
    {
        let ghost program = program_of_chunk(&chunk);
        let ghost start = Machine { pc: 0, stack: self.operands(), reported: Seq::empty() };
        self.state = State::Running;
        self.trace.clear();
        self.reported.clear();
        let mut ip = chunk.into_iter();
        let ghost mut run: Seq<Machine> = seq![start];
        proof {
            assert(self.events() =~= Seq::<TraceRecord>::empty());
            assert(events_of(program, run) =~= Seq::<TraceRecord>::empty());
        }
        loop
            invariant
                self.wf(),
                ip.wf(),
                total(alu),
                program == program_of_chunk(&chunk),
                start == (Machine { pc: 0, stack: old(self).operands(), reported: Seq::empty() }),
                program_of(&ip) == program,
                self.status() == State::Running,
                self.is_tracing() == old(self).is_tracing(),
                is_run(alu, program, start, run),
                run.last() == self.machine(ip.position()),
                self.events() == if self.is_tracing() {
                    events_of(program, run)
                } else {
                    Seq::empty()
                },
            decreases ip.code().len() - ip.position(),
        {
            proof {
                ip.lemma_wf();
            }
            let ghost before = run;
            match self.step(&mut ip, &alu) {
                Ok(true) => {
                    proof {
                        ip.lemma_wf();
                        run = before.push(self.machine(ip.position()));
                        assert forall|i: int| 0 <= i < run.len() - 1 implies steps_to(
                            alu,
                            program,
                            #[trigger] run[i],
                            run[i + 1],
                        ) by {
                            if i < before.len() - 1 {
                                assert(run[i] == before[i]);
                                assert(run[i + 1] == before[i + 1]);
                            }
                        }
                        if self.is_tracing() {
                            assert(self.events() =~= events_of(program, run));
                        }
                    }
                },
                Ok(false) => {
                    self.state = State::Idle;
                    proof {
                        assert(ends_with(alu, program, start, run, Ok(())));
                    }
                    return Ok(());
                },
                Err(e) => {
                    self.state = State::Halted(e);
                    self.reported.clear();
                    proof {
                        assert(ends_with(alu, program, start, run, Err(e)));
                    }
                    return Err(e);
                },
            }
        }
    }

    /// Makes the interpreter idle again, with an empty stack, no reported
    /// value and no event.
    pub fn reset(&mut self)
        ensures
            final(self).wf(),
            final(self).status() == State::Idle,
            final(self).is_tracing() == old(self).is_tracing(),
            final(self).operands() == Seq::<Value>::empty(),
            final(self).results() == Seq::<Value>::empty(),
            final(self).events() == Seq::<TraceRecord>::empty(),
    {
        self.stack.empty();
        self.trace.clear();
        self.reported.clear();
        self.state = State::Idle;
        proof {
            assert(self.events() =~= Seq::<TraceRecord>::empty());
        }
    }

    /// Where the interpreter stands.
    pub fn state(&self) -> (state: State)
        ensures
            state == self.status(),
    {
        self.state
    }

    /// Whether the interpreter is ready for a run.
    pub fn is_idle(&self) -> (idle: bool)
        ensures
            idle == (self.status() == State::Idle),
    {
        match self.state {
            State::Idle => true,
            _ => false,
        }
    }

    /// The operand stack.
    pub fn stack(&self) -> (stack: &Stack<Value>)
        ensures
            stack@ == self.operands(),
    {
        &self.stack
    }

    /// The values that `Return` instructions reported during the last
    /// run, in order.
    pub fn reported(&self) -> (values: &Vec<Value>)
        ensures
            values@ == self.results(),
    {
        &self.reported
    }

    /// The events of the last run, in order.
    pub fn trace(&self) -> (events: &Vec<TraceEvent>)
        ensures
            events@.map_values(|e: TraceEvent| e@) == self.events(),
    {
        &self.trace
    }
}

/// The program that a chunk holds.
pub open spec fn program_of_chunk(chunk: &Chunk) -> Program {
    Program { code: chunk.code(), pool: chunk.pool(), runs: chunk.runs() }
}

/// The mark for the byte at `offset`, as [`line_mark`] defines it.
pub fn line_mark_at(lines: &Lines, offset: usize) -> (mark: LineMark)
    requires
        lines.wf(),
        tells_line(lines@, offset),
    ensures
        mark == line_mark(lines@, offset),
{
    let line = lines.find_line(offset);
    if offset > 0 && lines.find_line(offset - 1) == line {
        LineMark::Same
    } else {
        LineMark::Line(line)
    }
}

} // verus!
