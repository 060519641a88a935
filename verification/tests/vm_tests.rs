use lox_rs::chunk::{Chunk, OpCode};
use lox_rs::value::Value;
use lox_rs::vm::{BinOp, InterpretError, VmStep, VM};

fn val(x: f32) -> Value {
    Value { bits: x.to_bits() }
}

fn as_f32(v: Value) -> f32 {
    f32::from_bits(v.bits)
}

fn compute(vm: &mut VM, step: VmStep) -> VmStep {
    match step {
        VmStep::Negate(a) => vm.resume(val(-as_f32(a))),
        VmStep::Binary(op, a, b) => {
            let x = as_f32(a);
            let y = as_f32(b);
            let r = match op {
                BinOp::Add => x + y,
                BinOp::Subtract => x - y,
                BinOp::Multiply => x * y,
                BinOp::Divide => x / y,
            };
            vm.resume(val(r))
        }
        other => other,
    }
}

#[test]
fn arithmetic_program_renders_to_two_decimals() {
    // -( (1.2 + 3.4) / 5.6 ), with the documented pop-right-then-left order.
    let mut ch = Chunk::new();
    let c1 = ch.add_constant(val(1.2));
    ch.write(OpCode::Constant(c1), 123);
    let c2 = ch.add_constant(val(3.4));
    ch.write(OpCode::Constant(c2), 123);
    ch.write(OpCode::Add, 123);
    let c3 = ch.add_constant(val(5.6));
    ch.write(OpCode::Constant(c3), 123);
    ch.write(OpCode::Divide, 123);
    ch.write(OpCode::Negate, 123);
    ch.write(OpCode::Return, 123);

    let mut vm = VM::new();
    let mut step = vm.interpret(ch);

    match step {
        VmStep::Binary(BinOp::Add, a, b) => {
            assert_eq!(as_f32(a), 1.2);
            assert_eq!(as_f32(b), 3.4);
        }
        _ => panic!("expected the addition to be requested first"),
    }
    step = compute(&mut vm, step);

    match step {
        VmStep::Binary(BinOp::Divide, a, b) => {
            assert_eq!(as_f32(a), 1.2f32 + 3.4f32);
            assert_eq!(as_f32(b), 5.6);
        }
        _ => panic!("expected the division next, left operand under the right"),
    }
    step = compute(&mut vm, step);

    match step {
        VmStep::Negate(a) => assert_eq!(as_f32(a), (1.2f32 + 3.4f32) / 5.6f32),
        _ => panic!("expected the negation next"),
    }
    step = compute(&mut vm, step);

    match step {
        VmStep::Done(v) => {
            assert_eq!(as_f32(v), -((1.2f32 + 3.4f32) / 5.6f32));
            assert_eq!(format!("{:.2}", as_f32(v)), "-0.82");
        }
        _ => panic!("expected the program to return"),
    }
}

#[test]
fn subtraction_hands_out_left_then_right() {
    let mut ch = Chunk::new();
    let c1 = ch.add_constant(val(5.0));
    ch.write(OpCode::Constant(c1), 1);
    let c2 = ch.add_constant(val(2.0));
    ch.write(OpCode::Constant(c2), 1);
    ch.write(OpCode::Subtract, 1);
    ch.write(OpCode::Return, 1);
    let mut vm = VM::new();
    let mut step = vm.interpret(ch);
    match step {
        VmStep::Binary(BinOp::Subtract, a, b) => {
            assert_eq!(as_f32(a), 5.0);
            assert_eq!(as_f32(b), 2.0);
        }
        _ => panic!("expected the subtraction request"),
    }
    step = compute(&mut vm, step);
    match step {
        VmStep::Done(v) => assert_eq!(as_f32(v), 3.0),
        _ => panic!("expected the program to return"),
    }
}

#[test]
fn return_on_empty_stack_is_a_runtime_fault() {
    let mut ch = Chunk::new();
    ch.write(OpCode::Return, 1);
    let mut vm = VM::new();
    assert_eq!(vm.interpret(ch), VmStep::Fault(InterpretError::Runtime));
}

#[test]
fn running_off_the_end_of_the_code_is_a_runtime_fault() {
    let mut ch = Chunk::new();
    let c = ch.add_constant(val(1.0));
    ch.write(OpCode::Constant(c), 1);
    let mut vm = VM::new();
    assert_eq!(vm.interpret(ch), VmStep::Fault(InterpretError::Runtime));
}

#[test]
fn constant_index_past_the_pool_is_a_runtime_fault() {
    let mut ch = Chunk::new();
    ch.write(OpCode::Constant(0), 1);
    ch.write(OpCode::Return, 1);
    let mut vm = VM::new();
    assert_eq!(vm.interpret(ch), VmStep::Fault(InterpretError::Runtime));
}

#[test]
fn binary_on_a_single_operand_is_a_runtime_fault() {
    let mut ch = Chunk::new();
    let c = ch.add_constant(val(1.0));
    ch.write(OpCode::Constant(c), 1);
    ch.write(OpCode::Add, 1);
    ch.write(OpCode::Return, 1);
    let mut vm = VM::new();
    assert_eq!(vm.interpret(ch), VmStep::Fault(InterpretError::Runtime));
}

#[test]
fn interpret_resets_state_between_calls() {
    let mut vm = VM::new();
    let mut bad = Chunk::new();
    bad.write(OpCode::Return, 1);
    assert_eq!(vm.interpret(bad), VmStep::Fault(InterpretError::Runtime));

    let mut good = Chunk::new();
    let c = good.add_constant(val(4.0));
    good.write(OpCode::Constant(c), 1);
    good.write(OpCode::Return, 1);
    match vm.interpret(good) {
        VmStep::Done(v) => assert_eq!(as_f32(v), 4.0),
        _ => panic!("expected the second run to succeed from a clean state"),
    }
}
