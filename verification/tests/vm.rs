use bytecode_vm::chunk::{Chunk, OpCode};
use bytecode_vm::value::Value;
use bytecode_vm::vm::model::{LineMark, Operand};
use bytecode_vm::vm::{Error, State, VM};

fn number(x: f64) -> Value {
    Value::from_bits(x.to_bits())
}

fn float(v: Value) -> f64 {
    f64::from_bits(v.to_bits())
}

fn alu(op: OpCode, left: Value, right: Value) -> Value {
    let (a, b) = (float(left), float(right));
    number(match op {
        OpCode::Add => a + b,
        OpCode::Subtract => a - b,
        OpCode::Multiply => a * b,
        OpCode::Divide => a / b,
        _ => unreachable!(),
    })
}

#[test]
fn negated_quotient_of_a_sum() {
    let mut chunk = Chunk::new();
    chunk.write_const(number(1.2), 125);
    chunk.write_const(number(3.4), 125);
    chunk.write_instr(OpCode::Add, 125);
    chunk.write_const(number(5.6), 125);
    chunk.write_instr(OpCode::Divide, 125);
    chunk.write_instr(OpCode::Negate, 125);
    chunk.write_instr(OpCode::Return, 125);

    let mut vm = VM::new(true);
    assert_eq!(vm.interpret(chunk, alu), Ok(()));
    assert_eq!(vm.state(), State::Idle);

    let expected = -((1.2 + 3.4) / 5.6);
    let trace = vm.trace();
    assert_eq!(trace.len(), 7);
    let before_return = &trace[5];
    assert_eq!(before_return.op, OpCode::Negate);
    assert_eq!(before_return.stack.len(), 1);
    assert!((float(before_return.stack[0]) - expected).abs() < f64::EPSILON);

    assert_eq!(vm.reported().len(), 1);
    assert!((float(vm.reported()[0]) - expected).abs() < f64::EPSILON);
    assert_eq!(vm.reported()[0], number(expected));
    assert!(vm.stack().is_empty());
}

#[test]
fn trace_events_follow_the_instructions() {
    let mut chunk = Chunk::new();
    chunk.write_const(number(1.2), 123);
    chunk.write_instr(OpCode::Negate, 123);
    chunk.write_instr(OpCode::Return, 124);

    let mut vm = VM::new(true);
    assert_eq!(vm.interpret(chunk, alu), Ok(()));
    let trace = vm.trace();
    assert_eq!(trace.len(), 3);

    assert_eq!(trace[0].offset, 0);
    assert_eq!(trace[0].line, LineMark::Line(123));
    assert_eq!(trace[0].op, OpCode::Constant);
    assert_eq!(trace[0].operand, Some(Operand { handle: 0, value: number(1.2) }));
    assert_eq!(trace[0].stack, vec![number(1.2)]);

    assert_eq!(trace[1].offset, 2);
    assert_eq!(trace[1].line, LineMark::Same);
    assert_eq!(trace[1].op, OpCode::Negate);
    assert_eq!(trace[1].operand, None);
    assert_eq!(trace[1].stack, vec![number(-1.2)]);

    assert_eq!(trace[2].offset, 3);
    assert_eq!(trace[2].line, LineMark::Line(124));
    assert_eq!(trace[2].op, OpCode::Return);
    assert_eq!(trace[2].operand, None);
    assert!(trace[2].stack.is_empty());
}

#[test]
fn an_interpreter_that_does_not_trace_holds_no_events() {
    let mut chunk = Chunk::new();
    chunk.write_const(number(420.), 124);
    chunk.write_const(number(69.), 124);
    chunk.write_instr(OpCode::Add, 124);
    chunk.write_instr(OpCode::Return, 124);

    let mut vm = VM::new(false);
    assert_eq!(vm.interpret(chunk, alu), Ok(()));
    assert!(vm.trace().is_empty());
    assert_eq!(vm.reported(), &vec![number(489.)]);
}

#[test]
fn written_constants_come_back_bit_for_bit() {
    let patterns: [u64; 8] = [
        0,
        0x8000_0000_0000_0000,
        0x7ff0_0000_0000_0000,
        0xfff0_0000_0000_0000,
        0x7ff8_0000_0000_0001,
        0xfff4_dead_beef_0001,
        0x0000_0000_0000_0001,
        0x3ff3_3333_3333_3333,
    ];
    for bits in patterns {
        let mut chunk = Chunk::new();
        chunk.write_const(Value::from_bits(bits), 1);
        chunk.write_instr(OpCode::Return, 1);
        let mut vm = VM::new(false);
        assert_eq!(vm.interpret(chunk, alu), Ok(()));
        assert_eq!(vm.reported().len(), 1);
        assert_eq!(vm.reported()[0].to_bits(), bits);
    }
}

#[test]
fn negate_flips_the_sign_bit_only() {
    assert_eq!(number(1.5).negate(), number(-1.5));
    assert_eq!(number(-1.5).negate(), number(1.5));
    assert_eq!(number(0.0).negate().to_bits(), 0x8000_0000_0000_0000);
    assert_eq!(
        Value::from_bits(0x7ff8_0000_0000_0001).negate().to_bits(),
        0xfff8_0000_0000_0001
    );
}

#[test]
fn division_by_zero_is_no_error() {
    let mut chunk = Chunk::new();
    chunk.write_const(number(1.0), 1);
    chunk.write_const(number(0.0), 1);
    chunk.write_instr(OpCode::Divide, 1);
    chunk.write_instr(OpCode::Return, 1);
    chunk.write_const(number(0.0), 2);
    chunk.write_const(number(0.0), 2);
    chunk.write_instr(OpCode::Divide, 2);
    chunk.write_instr(OpCode::Return, 2);
    let mut vm = VM::new(false);
    assert_eq!(vm.interpret(chunk, alu), Ok(()));
    assert_eq!(float(vm.reported()[0]), f64::INFINITY);
    assert!(float(vm.reported()[1]).is_nan());
}

#[test]
fn operands_are_combined_left_first() {
    let mut chunk = Chunk::new();
    chunk.write_const(number(10.0), 1);
    chunk.write_const(number(4.0), 1);
    chunk.write_instr(OpCode::Subtract, 1);
    chunk.write_const(number(3.0), 1);
    chunk.write_instr(OpCode::Multiply, 1);
    let mut vm = VM::new(false);
    assert_eq!(vm.interpret(chunk, alu), Ok(()));
    assert_eq!(vm.stack().snapshot(), vec![number(18.0)]);
    assert!(vm.reported().is_empty());
}

#[test]
fn return_on_an_empty_stack_does_nothing() {
    let mut chunk = Chunk::new();
    chunk.write_instr(OpCode::Return, 1);
    let mut vm = VM::new(true);
    assert_eq!(vm.interpret(chunk, alu), Ok(()));
    assert!(vm.reported().is_empty());
    assert!(vm.stack().is_empty());
    assert_eq!(vm.trace().len(), 1);
}

#[test]
fn an_empty_chunk_runs_to_success() {
    let mut vm = VM::new(true);
    assert_eq!(vm.interpret(Chunk::new(), alu), Ok(()));
    assert!(vm.is_idle());
    assert!(vm.trace().is_empty());
}

#[test]
fn arithmetic_without_operands_is_a_runtime_error() {
    for op in [OpCode::Add, OpCode::Subtract, OpCode::Multiply, OpCode::Divide, OpCode::Negate] {
        let mut chunk = Chunk::new();
        chunk.write_instr(op, 1);
        let mut vm = VM::new(false);
        assert_eq!(vm.interpret(chunk, alu), Err(Error::Runtime));
        assert_eq!(vm.state(), State::Halted(Error::Runtime));
        assert!(!vm.is_idle());
    }
    let mut chunk = Chunk::new();
    chunk.write_const(number(1.0), 1);
    chunk.write_instr(OpCode::Add, 1);
    let mut vm = VM::new(false);
    assert_eq!(vm.interpret(chunk, alu), Err(Error::Runtime));
}

#[test]
fn the_257th_constant_on_the_stack_overflows() {
    let mut chunk = Chunk::new();
    for i in 0..256 {
        chunk.write_const(number(i as f64), 1);
    }
    let mut vm = VM::new(false);
    assert_eq!(vm.interpret(chunk, alu), Ok(()));
    assert_eq!(vm.stack().size(), 256);

    let mut chunk = Chunk::new();
    chunk.write_const(number(256.0), 2);
    assert_eq!(vm.interpret(chunk, alu), Err(Error::StackOverflow));
    assert_eq!(vm.state(), State::Halted(Error::StackOverflow));

    vm.reset();
    assert!(vm.is_idle());
    assert!(vm.stack().is_empty());
    let mut chunk = Chunk::new();
    chunk.write_const(number(2.0), 3);
    chunk.write_instr(OpCode::Return, 3);
    assert_eq!(vm.interpret(chunk, alu), Ok(()));
    assert_eq!(vm.reported(), &vec![number(2.0)]);
}

#[test]
fn a_failed_run_reports_nothing() {
    let mut chunk = Chunk::new();
    chunk.write_const(number(1.0), 1);
    chunk.write_instr(OpCode::Return, 1);
    chunk.write_instr(OpCode::Negate, 2);
    let mut vm = VM::new(true);
    assert_eq!(vm.interpret(chunk, alu), Err(Error::Runtime));
    assert!(vm.reported().is_empty());
    assert_eq!(vm.trace().len(), 2);
}

#[test]
fn the_stack_persists_from_run_to_run() {
    let mut vm = VM::new(false);
    let mut chunk = Chunk::new();
    chunk.write_const(number(2.0), 1);
    assert_eq!(vm.interpret(chunk, alu), Ok(()));
    let mut chunk = Chunk::new();
    chunk.write_const(number(3.0), 1);
    chunk.write_instr(OpCode::Multiply, 1);
    chunk.write_instr(OpCode::Return, 1);
    assert_eq!(vm.interpret(chunk, alu), Ok(()));
    assert_eq!(vm.reported(), &vec![number(6.0)]);
}

#[test]
fn stepping_executes_one_instruction_at_a_time() {
    let mut chunk = Chunk::new();
    chunk.write_const(number(1.0), 1);
    chunk.write_const(number(2.0), 1);
    chunk.write_instr(OpCode::Add, 1);
    let mut ip = chunk.into_iter();
    let mut vm = VM::new(false);
    assert_eq!(vm.step(&mut ip, &alu), Ok(true));
    assert_eq!(vm.stack().snapshot(), vec![number(1.0)]);
    assert_eq!(vm.step(&mut ip, &alu), Ok(true));
    assert_eq!(vm.step(&mut ip, &alu), Ok(true));
    assert_eq!(vm.stack().snapshot(), vec![number(3.0)]);
    assert_eq!(vm.step(&mut ip, &alu), Ok(false));
    assert_eq!(vm.step(&mut ip, &alu), Ok(false));
}

#[test]
fn a_byte_that_is_no_opcode_is_a_compile_error() {
    let mut chunk = Chunk::new();
    chunk.write_const(number(1.0), 1);
    chunk.write_instr(OpCode::Return, 1);
    chunk.write_instr(OpCode::Return, 1);
    chunk.set_byte(3, 0xab);
    let mut vm = VM::new(true);
    assert_eq!(vm.interpret(chunk, alu), Err(Error::Compile));
    assert_eq!(vm.state(), State::Halted(Error::Compile));
    assert_eq!(vm.trace().len(), 2);
    assert!(vm.reported().is_empty());
}

#[test]
fn missing_operand_bytes_are_a_runtime_error() {
    for op in [OpCode::Constant, OpCode::Constant16, OpCode::Constant24] {
        let mut chunk = Chunk::new();
        chunk.write_const(number(1.0), 1);
        chunk.write_instr(op, 1);
        let mut vm = VM::new(false);
        assert_eq!(vm.interpret(chunk, alu), Err(Error::Runtime));
    }
    let mut chunk = Chunk::new();
    chunk.write_const(number(1.0), 1);
    chunk.write_instr(OpCode::Constant24, 1);
    chunk.write_instr(OpCode::Return, 1);
    chunk.write_instr(OpCode::Return, 1);
    let mut vm = VM::new(false);
    assert_eq!(vm.interpret(chunk, alu), Err(Error::Runtime));
}

#[test]
fn a_handle_beyond_the_pool_is_a_runtime_error() {
    let mut chunk = Chunk::new();
    chunk.write_const(number(1.0), 1);
    chunk.set_byte(1, 1);
    let mut vm = VM::new(false);
    assert_eq!(vm.interpret(chunk, alu), Err(Error::Runtime));

    let mut chunk = Chunk::new();
    chunk.write_const(number(1.0), 1);
    chunk.write_const(number(2.0), 1);
    chunk.set_byte(1, 1);
    chunk.write_instr(OpCode::Return, 1);
    let mut vm = VM::new(false);
    assert_eq!(vm.interpret(chunk, alu), Ok(()));
    assert_eq!(vm.reported(), &vec![number(2.0)]);
    assert_eq!(vm.stack().snapshot(), vec![number(2.0)]);
}

#[test]
fn wide_handles_reach_their_constants() {
    let mut chunk = Chunk::new();
    for i in 0..65_600 {
        chunk.write_const(number(i as f64), 1);
    }
    let mut ip = chunk.into_iter();
    let mut vm = VM::new(true);
    for i in 0..65_600usize {
        assert_eq!(vm.step(&mut ip, &alu), Ok(true));
        let top = *vm.stack().peek().unwrap();
        assert_eq!(top, number(i as f64));
        let event = vm.trace().last().unwrap();
        assert_eq!(event.operand, Some(Operand { handle: i, value: number(i as f64) }));
        let expected = if i < 256 {
            OpCode::Constant
        } else if i < 65_536 {
            OpCode::Constant16
        } else {
            OpCode::Constant24
        };
        assert_eq!(event.op, expected);
        let reset = vm.stack().size() == 256;
        if reset {
            vm.reset();
        }
    }
    assert_eq!(vm.step(&mut ip, &alu), Ok(false));
}
