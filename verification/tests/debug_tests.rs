use lox_rs::chunk::{Chunk, OpCode};
use lox_rs::debug;
use lox_rs::value::Value;

fn val(x: f32) -> Value {
    Value { bits: x.to_bits() }
}

fn renderings(ch: &Chunk) -> Vec<String> {
    let mut out = Vec::new();
    for v in &ch.constants {
        out.push(format!("{:.2}", f32::from_bits(v.bits)));
    }
    out
}

#[test]
fn disassembly_has_header_and_exact_instruction_lines() {
    let mut ch = Chunk::new();
    let id = ch.add_constant(val(1.2));
    ch.write(OpCode::Constant(id), 123);
    ch.write(OpCode::Return, 123);
    let vals = renderings(&ch);
    let lines = debug::chunk_text(&ch, "test chunk", &vals);
    assert_eq!(lines.len(), 3);
    assert_eq!(lines[0], "== test chunk ==");
    assert_eq!(lines[1], "0000  123 OP_CONSTANT         0 '1.20'");
    assert_eq!(lines[2], "0001    | OP_RETURN");
}

#[test]
fn repeated_source_line_prints_as_a_placeholder_once() {
    let mut ch = Chunk::new();
    ch.write(OpCode::Negate, 7);
    ch.write(OpCode::Add, 7);
    ch.write(OpCode::Return, 8);
    let vals = renderings(&ch);
    let lines = debug::chunk_text(&ch, "c", &vals);
    assert_eq!(lines[1], "0000    7 OP_NEGATE");
    assert_eq!(lines[2], "0001    | OP_ADD");
    assert_eq!(lines[3], "0002    8 OP_RETURN");
}

#[test]
fn disassembly_reports_one_line_per_instruction_with_increasing_offsets() {
    let mut ch = Chunk::new();
    let ops = [
        OpCode::Negate,
        OpCode::Add,
        OpCode::Subtract,
        OpCode::Multiply,
        OpCode::Divide,
        OpCode::Return,
    ];
    for (i, op) in ops.iter().enumerate() {
        ch.write(*op, i as u16);
    }
    let vals = renderings(&ch);
    let lines = debug::chunk_text(&ch, "ops", &vals);
    assert_eq!(lines.len(), 1 + ops.len());
    for i in 0..ops.len() {
        assert!(lines[i + 1].starts_with(&format!("{:04} ", i)));
    }
}

#[test]
fn disassemble_instruction_advances_by_one_slot() {
    let mut ch = Chunk::new();
    ch.write(OpCode::Return, 1);
    ch.write(OpCode::Return, 1);
    assert_eq!(debug::disassemble_instruction(&ch, 0, ""), 1);
    assert_eq!(debug::disassemble_instruction(&ch, 1, ""), 2);
}

#[test]
fn instruction_text_embeds_the_rendered_constant() {
    let mut ch = Chunk::new();
    let a = ch.add_constant(val(0.5));
    let b = ch.add_constant(val(12.0));
    ch.write(OpCode::Constant(b), 1);
    let line = debug::instruction_text(&ch, 0, "12.00");
    assert_eq!(line, "0000    1 OP_CONSTANT         1 '12.00'");
    assert_eq!(a, 0);
}

#[test]
fn stack_trace_line_shows_values_bottom_first() {
    let vals = vec![String::from("1.20"), String::from("3.40")];
    let line = debug::stack_text(&vals);
    assert_eq!(line, "          [ 1.20 ][ 3.40 ]");
    let empty: Vec<String> = Vec::new();
    assert_eq!(debug::stack_text(&empty), "          ");
}
