use lox_rs::chunk::{Chunk, OpCode};
use lox_rs::value::Value;

#[test]
fn add_constant_returns_insertion_order_indices() {
    let mut ch = Chunk::new();
    for n in 0..10u32 {
        let idx = ch.add_constant(Value { bits: n });
        assert_eq!(idx as u32, n);
    }
    for n in 0..10usize {
        assert_eq!(ch.constants[n].bits, n as u32);
    }
}

#[test]
fn constants_are_not_deduplicated() {
    let mut ch = Chunk::new();
    let a = ch.add_constant(Value { bits: 7 });
    let b = ch.add_constant(Value { bits: 7 });
    assert_eq!(a, 0);
    assert_eq!(b, 1);
    assert_eq!(ch.constants.len(), 2);
}

#[test]
fn pool_holds_the_full_one_byte_range() {
    let mut ch = Chunk::new();
    for n in 0..256usize {
        let idx = ch.add_constant(Value { bits: n as u32 });
        assert_eq!(idx as usize, n);
    }
    assert_eq!(ch.constants.len(), 256);
}

#[test]
fn write_keeps_code_and_lines_in_step() {
    let mut ch = Chunk::new();
    ch.write(OpCode::Return, 1);
    ch.write(OpCode::Negate, 2);
    ch.write(OpCode::Add, 2);
    assert_eq!(ch.code.len(), 3);
    assert_eq!(ch.lines.len(), 3);
    assert_eq!(ch.lines, vec![1, 2, 2]);
    assert_eq!(ch.code[0], OpCode::Return);
    assert_eq!(ch.code[1], OpCode::Negate);
    assert_eq!(ch.code[2], OpCode::Add);
}

#[test]
fn value_from_bits_round_trips() {
    let v = Value::from_bits((1.5f32).to_bits());
    assert_eq!(f32::from_bits(v.bits), 1.5f32);
}
