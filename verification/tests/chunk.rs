use bytecode_vm::chunk::lines::{LineStart, Lines};
use bytecode_vm::chunk::{Chunk, OpCode};
use bytecode_vm::debug::DebugError;
use bytecode_vm::value::Value;

fn number(x: f64) -> Value {
    Value::from_bits(x.to_bits())
}

fn float(v: Value) -> f64 {
    f64::from_bits(v.to_bits())
}

fn texts(chunk: &Chunk) -> Vec<String> {
    let mut texts = Vec::new();
    for handle in 0..chunk.constants_len() {
        texts.push(format!("{}", float(chunk.constant(handle).unwrap())));
    }
    texts
}

#[test]
fn it_works() {
    let mut chunk = Chunk::new();
    chunk.write_const(number(1.2), 123);
    chunk.write_instr(OpCode::Return, 123);

    chunk.write_const(number(420.), 124);
    chunk.write_const(number(69.), 124);
    chunk.write_instr(OpCode::Return, 124);

    let expected = r#"
0000   123 CONSTANT          [0] '1.2'
0002     | RETURN
0003   124 CONSTANT          [1] '420'
0005     | CONSTANT          [2] '69'
0007     | RETURN
"#;
    let listing = chunk.debug_string(&texts(&chunk)).unwrap();
    assert_eq!(&format!("\n{}\n", listing), expected);
}

#[test]
fn it_can_store_more_than_255_constants() {
    let mut chunk = Chunk::new();

    let mut line = 1;
    for i in 0..=265 {
        if i > 0 && i % 3 == 0 {
            line += 1;
        }
        chunk.write_const(number(i as f64), line);
    }

    assert_eq!(chunk.constants_len(), 266);
    assert!((float(chunk.constant(265).unwrap()) - 265.).abs() < f64::EPSILON);
}

#[test]
fn it_can_store_more_than_65535_constants() {
    let mut chunk = Chunk::new();

    let mut line = 1;
    for i in 0..=(u16::MAX as usize) + 10 {
        if i > 0 && i % 100 == 0 {
            line += 1;
        }
        chunk.write_const(number(i as f64), line);
    }

    assert_eq!(chunk.constants_len(), 65_546);
    assert!((float(chunk.constant(65_545).unwrap()) - 65_545.).abs() < f64::EPSILON);
}

/// Walks the instructions of a chunk and gives each opcode with the
/// handle that its operand bytes spell.
fn instructions(chunk: &Chunk) -> Vec<(OpCode, usize)> {
    let bytes: &[u8] = chunk;
    let mut found = Vec::new();
    let mut at = 0;
    while at < bytes.len() {
        let op = OpCode::decode(bytes[at]).unwrap();
        let count = op.operand_count();
        let mut handle = 0usize;
        for k in 0..count {
            handle = handle * 256 + bytes[at + 1 + k] as usize;
        }
        found.push((op, handle));
        at += 1 + count;
    }
    found
}

#[test]
fn handles_follow_insertion_order() {
    let mut chunk = Chunk::new();
    for i in 0..300 {
        chunk.write_const(number(i as f64 / 2.0), 7);
    }
    let found = instructions(&chunk);
    assert_eq!(found.len(), 300);
    for (i, (_, handle)) in found.iter().enumerate() {
        assert_eq!(*handle, i);
        assert_eq!(chunk.constant(*handle), Some(number(i as f64 / 2.0)));
    }
    assert_eq!(chunk.constant(300), None);
}

#[test]
fn the_257th_constant_takes_two_operand_bytes() {
    let mut chunk = Chunk::new();
    for i in 0..266 {
        chunk.write_const(number(i as f64), 1);
    }
    let found = instructions(&chunk);
    let narrow = found.iter().filter(|(op, _)| *op == OpCode::Constant).count();
    let wide: Vec<usize> = found
        .iter()
        .filter(|(op, _)| *op == OpCode::Constant16)
        .map(|(_, handle)| *handle)
        .collect();
    assert_eq!(narrow, 256);
    assert_eq!(wide.len(), 10);
    assert_eq!(wide[0], 256);
    assert_eq!(found[255], (OpCode::Constant, 255));
    assert_eq!(found[256], (OpCode::Constant16, 256));
    assert_eq!(chunk.len(), 256 * 2 + 10 * 3);
    let bytes: &[u8] = &chunk;
    assert_eq!(&bytes[512..515], &[0x01, 0x01, 0x00]);
}

#[test]
fn the_65537th_constant_takes_three_operand_bytes() {
    let mut chunk = Chunk::new();
    for i in 0..65_546 {
        chunk.write_const(number(i as f64), 1);
    }
    let found = instructions(&chunk);
    assert_eq!(found.len(), 65_546);
    assert_eq!(found[65_535], (OpCode::Constant16, 65_535));
    assert_eq!(found[65_536], (OpCode::Constant24, 65_536));
    assert_eq!(found[65_545], (OpCode::Constant24, 65_545));
    let widest = found.iter().filter(|(op, _)| *op == OpCode::Constant24).count();
    assert_eq!(widest, 10);
    let bytes: &[u8] = &chunk;
    let at = 256 * 2 + (65_536 - 256) * 3;
    assert_eq!(&bytes[at..at + 4], &[0x02, 0x01, 0x00, 0x00]);
}

#[test]
fn lines_fold_into_runs() {
    let mut chunk = Chunk::new();
    chunk.write_instr(OpCode::Add, 123);
    chunk.write_instr(OpCode::Negate, 123);
    chunk.write_instr(OpCode::Return, 123);
    chunk.write_instr(OpCode::Add, 124);
    chunk.write_instr(OpCode::Return, 124);

    let lines = chunk.lines();
    assert_eq!(lines.len(), 2);
    assert_eq!(lines.get(0), LineStart { line: 123, offset: 0 });
    assert_eq!(lines.get(1), LineStart { line: 124, offset: 3 });
    for offset in 0..3 {
        assert_eq!(lines.find_line(offset), 123);
    }
    for offset in 3..5 {
        assert_eq!(lines.find_line(offset), 124);
    }
}

#[test]
fn operand_bytes_share_the_line_of_their_opcode() {
    let mut chunk = Chunk::new();
    for i in 0..300 {
        chunk.write_const(number(i as f64), 10 + i / 100);
    }
    chunk.write_instr(OpCode::Return, 99);
    let lines = chunk.lines();
    assert_eq!(lines.len(), 4);
    assert_eq!(lines.find_line(0), 10);
    assert_eq!(lines.find_line(1), 10);
    assert_eq!(lines.find_line(199), 10);
    assert_eq!(lines.find_line(200), 11);
    assert_eq!(lines.find_line(399), 11);
    assert_eq!(lines.find_line(400), 12);
    let first_wide = 512;
    assert_eq!(lines.find_line(first_wide + 1), 12);
    assert_eq!(lines.find_line(first_wide + 2), 12);
    let last = chunk.len() - 1;
    assert_eq!(lines.find_line(last), 99);
    assert_eq!(lines.find_line(last - 1), 12);
    assert_eq!(lines.find_line(last + 1000), 99);
}

#[test]
fn a_line_table_searches_many_runs() {
    let mut lines = Lines::new();
    for i in 0..1000 {
        lines.add_byte(i + 1, 3 * i);
        lines.add_byte(i + 1, 3 * i + 1);
    }
    assert_eq!(lines.len(), 1000);
    for i in 0..1000 {
        assert_eq!(lines.find_line(3 * i), i + 1);
        assert_eq!(lines.find_line(3 * i + 2), i + 1);
    }
}

#[test]
fn opcodes_and_bytes_correspond() {
    let table = [
        (OpCode::Constant, 0x00u8, "CONSTANT"),
        (OpCode::Constant16, 0x01, "CONSTANT_16"),
        (OpCode::Constant24, 0x02, "CONSTANT_24"),
        (OpCode::Add, 0x10, "ADD"),
        (OpCode::Subtract, 0x11, "SUBTRACT"),
        (OpCode::Multiply, 0x12, "MULTIPLY"),
        (OpCode::Divide, 0x13, "DIVIDE"),
        (OpCode::Negate, 0x14, "NEGATE"),
        (OpCode::Return, 0xFF, "RETURN"),
    ];
    for (op, byte, name) in table {
        assert_eq!(op.to_byte(), byte);
        assert_eq!(OpCode::decode(byte), Some(op));
        assert!(matches!(OpCode::try_from(byte), Ok(found) if found == op));
        assert_eq!(op.name(), name);
    }
    let mut known = 0;
    for byte in 0..=255u8 {
        if OpCode::decode(byte).is_some() {
            known += 1;
        }
    }
    assert_eq!(known, 9);
    match OpCode::try_from(0x2a) {
        Err(e) => assert_eq!(e.0, "UNKNOWN: 0x2a"),
        Ok(_) => panic!("0x2a is no opcode"),
    }
    match OpCode::try_from(0x0f) {
        Err(e) => assert_eq!(e.0, "UNKNOWN: 0x0f"),
        Ok(_) => panic!("0x0f is no opcode"),
    }
}

#[test]
fn a_listing_breaks_off_where_a_constant_has_no_text() {
    let mut chunk = Chunk::new();
    chunk.write_const(number(1.0), 1);
    chunk.write_const(number(2.0), 1);
    assert_eq!(
        chunk.debug_string(&["1".to_string()]),
        Err(DebugError::MissingConstant)
    );
    assert_eq!(
        chunk.debug_string(&["1".to_string(), "2".to_string()]),
        Ok("0000     1 CONSTANT          [0] '1'\n0002     | CONSTANT          [1] '2'".to_string())
    );
    assert_eq!(Chunk::new().debug_string(&[]), Ok(String::new()));
}
