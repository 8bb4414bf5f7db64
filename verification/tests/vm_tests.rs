use bytecode_vm::chunk::{Chunk, OpCode};
use bytecode_vm::value::Value;
use bytecode_vm::vm::{BinaryOp, InterpretError, Vm, VmPause, STACK_MAX};

fn vf(x: f64) -> Value {
    Value::from_bits(x.to_bits())
}

fn fv(v: Value) -> f64 {
    f64::from_bits(v.to_bits())
}

/// Drives the machine to completion, supplying the numeric results of the
/// binary arithmetic instructions it pauses on.
fn run_to_end(vm: &mut Vm) -> Result<f64, InterpretError> {
    loop {
        match vm.run()? {
            VmPause::Return(v) => return Ok(fv(v)),
            VmPause::Arith(op, a, b) => {
                let x = fv(a);
                let y = fv(b);
                let r = match op {
                    BinaryOp::Add => x + y,
                    BinaryOp::Subtract => x - y,
                    BinaryOp::Multiply => x * y,
                    BinaryOp::Divide => x / y,
                };
                vm.set_top(vf(r))?;
            }
        }
    }
}

#[test]
fn arithmetic_program_computes_expected_result() {
    let mut chunk = Chunk::new();
    chunk.write_constant(vf(1.2), 123).unwrap();
    chunk.write_constant(vf(3.4), 123).unwrap();
    chunk.write_byte(OpCode::Add.as_byte(), 123);
    chunk.write_constant(vf(5.6), 123).unwrap();
    chunk.write_byte(OpCode::Divide.as_byte(), 123);
    chunk.write_byte(OpCode::Negate.as_byte(), 123);
    chunk.write_byte(OpCode::Return.as_byte(), 123);
    let mut vm = Vm::new(chunk);
    let result = run_to_end(&mut vm).unwrap();
    let expected: f64 = -((1.2 + 3.4) / 5.6);
    assert_eq!(result.to_bits(), expected.to_bits());
}

#[test]
fn push_and_return_yields_the_constant() {
    let mut chunk = Chunk::new();
    chunk.write_constant(vf(1.2), 1).unwrap();
    chunk.write_byte(OpCode::Return.as_byte(), 1);
    let mut vm = Vm::new(chunk);
    let result = run_to_end(&mut vm).unwrap();
    assert_eq!(result.to_bits(), 1.2f64.to_bits());
}

#[test]
fn empty_chunk_is_rejected() {
    let chunk = Chunk::new();
    let mut vm = Vm::new(chunk);
    assert_eq!(vm.run(), Err(InterpretError::UnexpectedEnd(0)));
}

#[test]
fn subtract_and_multiply_work() {
    let mut chunk = Chunk::new();
    chunk.write_constant(vf(10.0), 1).unwrap();
    chunk.write_constant(vf(4.0), 1).unwrap();
    chunk.write_byte(OpCode::Subtract.as_byte(), 1);
    chunk.write_constant(vf(3.0), 1).unwrap();
    chunk.write_byte(OpCode::Multiply.as_byte(), 1);
    chunk.write_byte(OpCode::Return.as_byte(), 1);
    let mut vm = Vm::new(chunk);
    let result = run_to_end(&mut vm).unwrap();
    assert_eq!(result.to_bits(), ((10.0 - 4.0) * 3.0f64).to_bits());
}

#[test]
fn division_by_zero_follows_native_semantics() {
    let mut chunk = Chunk::new();
    chunk.write_constant(vf(1.0), 1).unwrap();
    chunk.write_constant(vf(0.0), 1).unwrap();
    chunk.write_byte(OpCode::Divide.as_byte(), 1);
    chunk.write_byte(OpCode::Return.as_byte(), 1);
    let mut vm = Vm::new(chunk);
    let result = run_to_end(&mut vm).unwrap();
    assert!(result.is_infinite());
}

#[test]
fn negate_flips_the_sign_bit() {
    let mut chunk = Chunk::new();
    chunk.write_constant(vf(1.2), 1).unwrap();
    chunk.write_byte(OpCode::Negate.as_byte(), 1);
    chunk.write_byte(OpCode::Return.as_byte(), 1);
    let mut vm = Vm::new(chunk);
    let result = run_to_end(&mut vm).unwrap();
    assert_eq!(result.to_bits(), (-1.2f64).to_bits());
}

#[test]
fn unknown_opcode_names_byte_and_offset() {
    let mut chunk = Chunk::new();
    chunk.write_constant(vf(1.0), 1).unwrap();
    chunk.write_byte(42, 1);
    chunk.write_byte(OpCode::Return.as_byte(), 1);
    let mut vm = Vm::new(chunk);
    assert_eq!(run_to_end(&mut vm), Err(InterpretError::UnknownOpcode(42, 2)));
}

#[test]
fn truncated_constant_operand_is_an_unexpected_end() {
    let mut chunk = Chunk::new();
    chunk.write_byte(OpCode::Constant.as_byte(), 1);
    let mut vm = Vm::new(chunk);
    assert_eq!(vm.run(), Err(InterpretError::UnexpectedEnd(0)));
}

#[test]
fn missing_pool_entry_is_reported() {
    let mut chunk = Chunk::new();
    chunk.write_byte(OpCode::Constant.as_byte(), 1);
    chunk.write_byte(5, 1);
    let mut vm = Vm::new(chunk);
    assert_eq!(vm.run(), Err(InterpretError::BadConstant(5, 0)));
}

#[test]
fn arithmetic_on_a_short_stack_underflows() {
    let mut chunk = Chunk::new();
    chunk.write_constant(vf(1.0), 1).unwrap();
    chunk.write_byte(OpCode::Add.as_byte(), 1);
    let mut vm = Vm::new(chunk);
    assert_eq!(run_to_end(&mut vm), Err(InterpretError::StackUnderflow));
}

#[test]
fn push_beyond_capacity_overflows() {
    let chunk = Chunk::new();
    let mut vm = Vm::new(chunk);
    for i in 0..STACK_MAX {
        assert_eq!(vm.push(vf(i as f64)), Ok(()));
    }
    assert_eq!(vm.push(vf(0.5)), Err(InterpretError::StackOverflow));
}

#[test]
fn pop_on_an_empty_stack_underflows() {
    let chunk = Chunk::new();
    let mut vm = Vm::new(chunk);
    assert_eq!(vm.pop(), Err(InterpretError::StackUnderflow));
    vm.push(vf(2.5)).unwrap();
    vm.push(vf(3.5)).unwrap();
    assert_eq!(vm.pop(), Ok(vf(3.5)));
    assert_eq!(vm.pop(), Ok(vf(2.5)));
    assert_eq!(vm.pop(), Err(InterpretError::StackUnderflow));
}

#[test]
fn overflowing_program_fails_with_stack_overflow() {
    let mut chunk = Chunk::new();
    for _ in 0..(STACK_MAX + 1) {
        chunk.write_constant(vf(1.0), 1).unwrap();
    }
    chunk.write_byte(OpCode::Return.as_byte(), 1);
    let mut vm = Vm::new(chunk);
    assert_eq!(run_to_end(&mut vm), Err(InterpretError::StackOverflow));
}

#[test]
fn reset_stack_empties_the_stack() {
    let chunk = Chunk::new();
    let mut vm = Vm::new(chunk);
    vm.push(vf(1.0)).unwrap();
    vm.push(vf(2.0)).unwrap();
    vm.reset_stack();
    assert_eq!(vm.pop(), Err(InterpretError::StackUnderflow));
}

#[test]
fn set_top_stores_the_supplied_result() {
    let chunk = Chunk::new();
    let mut vm = Vm::new(chunk);
    assert_eq!(vm.set_top(vf(9.0)), Err(InterpretError::StackUnderflow));
    vm.push(vf(1.0)).unwrap();
    vm.push(vf(2.0)).unwrap();
    vm.set_top(vf(9.0)).unwrap();
    assert_eq!(vm.pop(), Ok(vf(9.0)));
    assert_eq!(vm.pop(), Ok(vf(1.0)));
}

#[test]
fn long_constants_load_during_execution() {
    let mut chunk = Chunk::new();
    for i in 0..300 {
        chunk.add_constant(vf(i as f64));
    }
    // the pool already holds 300 entries, so this takes the two-byte form
    chunk.write_constant(vf(42.0), 1).unwrap();
    chunk.write_byte(OpCode::Return.as_byte(), 1);
    let mut vm = Vm::new(chunk);
    let result = run_to_end(&mut vm).unwrap();
    assert_eq!(result.to_bits(), 42.0f64.to_bits());
}

#[test]
fn value_bits_round_trip() {
    let v = Value::from_bits(0x3ff3333333333333);
    assert_eq!(v.to_bits(), 0x3ff3333333333333);
    assert_eq!(v.bits, 0x3ff3333333333333);
    let n = v.negate();
    assert_eq!(n.to_bits(), 0xbff3333333333333);
    assert_eq!(n.negate(), v);
}

#[test]
fn pause_reports_the_operands_in_order() {
    let mut chunk = Chunk::new();
    chunk.write_constant(vf(10.0), 1).unwrap();
    chunk.write_constant(vf(4.0), 1).unwrap();
    chunk.write_byte(OpCode::Subtract.as_byte(), 1);
    let mut vm = Vm::new(chunk);
    match vm.run() {
        Ok(VmPause::Arith(BinaryOp::Subtract, a, b)) => {
            assert_eq!(fv(a).to_bits(), 10.0f64.to_bits());
            assert_eq!(fv(b).to_bits(), 4.0f64.to_bits());
        }
        other => panic!("expected a subtraction pause, got {:?}", other),
    }
}
