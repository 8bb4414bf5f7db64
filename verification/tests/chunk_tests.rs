use bytecode_vm::chunk::{Chunk, ChunkError, OpCode};
use bytecode_vm::value::Value;

fn vf(x: f64) -> Value {
    Value::from_bits(x.to_bits())
}

#[test]
fn from_u8_decodes_every_opcode() {
    assert_eq!(OpCode::from_u8(0), Some(OpCode::Constant));
    assert_eq!(OpCode::from_u8(1), Some(OpCode::ConstantLong));
    assert_eq!(OpCode::from_u8(2), Some(OpCode::Add));
    assert_eq!(OpCode::from_u8(3), Some(OpCode::Subtract));
    assert_eq!(OpCode::from_u8(4), Some(OpCode::Multiply));
    assert_eq!(OpCode::from_u8(5), Some(OpCode::Divide));
    assert_eq!(OpCode::from_u8(6), Some(OpCode::Negate));
    assert_eq!(OpCode::from_u8(7), Some(OpCode::Return));
    assert_eq!(OpCode::from_u8(8), None);
    assert_eq!(OpCode::from_u8(255), None);
}

#[test]
fn as_byte_round_trips() {
    for b in 0u8..8 {
        let op = OpCode::from_u8(b).unwrap();
        assert_eq!(op.as_byte(), b);
    }
}

#[test]
fn line_map_returns_appended_lines() {
    let mut chunk = Chunk::new();
    let lines = [10usize, 10, 10, 20, 20, 30];
    for (i, &line) in lines.iter().enumerate() {
        chunk.write_byte(i as u8, line);
    }
    assert_eq!(chunk.len(), 6);
    for (i, &line) in lines.iter().enumerate() {
        assert_eq!(chunk.get_line(i), Ok(line));
    }
    assert_eq!(chunk.get_line(6), Err(ChunkError::ParseLineForOffset(6)));
    assert_eq!(chunk.get_line(1000), Err(ChunkError::ParseLineForOffset(1000)));
}

#[test]
fn line_map_collapses_equal_lines_into_one_run() {
    let mut chunk = Chunk::new();
    for i in 0..300 {
        chunk.write_byte((i % 256) as u8, 7);
    }
    assert_eq!(chunk.run_count(), 1);
    chunk.write_byte(0, 8);
    assert_eq!(chunk.run_count(), 2);
    chunk.write_byte(0, 7);
    assert_eq!(chunk.run_count(), 3);
    // the run lengths cover every byte: each offset still resolves
    assert_eq!(chunk.len(), 302);
    assert_eq!(chunk.get_line(0), Ok(7));
    assert_eq!(chunk.get_line(299), Ok(7));
    assert_eq!(chunk.get_line(300), Ok(8));
    assert_eq!(chunk.get_line(301), Ok(7));
    assert_eq!(chunk.get_line(302), Err(ChunkError::ParseLineForOffset(302)));
}

#[test]
fn add_constant_returns_sequential_indices() {
    let mut chunk = Chunk::new();
    assert_eq!(chunk.add_constant(vf(1.0)), 0);
    assert_eq!(chunk.add_constant(vf(2.0)), 1);
    assert_eq!(chunk.add_constant(vf(3.0)), 2);
    assert_eq!(chunk.constant_count(), 3);
    assert_eq!(chunk.constant_at(1), Some(vf(2.0)));
    assert_eq!(chunk.constant_at(3), None);
}

#[test]
fn write_constant_switches_to_long_operands() {
    let mut chunk = Chunk::new();
    // the first 255 constants use the one-byte form: two bytes per instruction
    for i in 0..255 {
        chunk.write_constant(vf(i as f64), 1).unwrap();
        assert_eq!(chunk.len(), 2 * (i + 1));
        assert_eq!(chunk.byte_at(2 * i), Some(0));
        assert_eq!(chunk.byte_at(2 * i + 1), Some(i as u8));
    }
    // from the 255th constant on, the two-byte little-endian form
    chunk.write_constant(vf(255.0), 1).unwrap();
    assert_eq!(chunk.len(), 510 + 3);
    assert_eq!(chunk.byte_at(510), Some(1));
    assert_eq!(chunk.byte_at(511), Some(255));
    assert_eq!(chunk.byte_at(512), Some(0));
    chunk.write_constant(vf(256.0), 1).unwrap();
    assert_eq!(chunk.len(), 510 + 6);
    assert_eq!(chunk.byte_at(513), Some(1));
    assert_eq!(chunk.byte_at(514), Some(0));
    assert_eq!(chunk.byte_at(515), Some(1));
    // each operand still resolves to the exact value written
    let lo = chunk.byte_at(511).unwrap() as usize;
    let hi = chunk.byte_at(512).unwrap() as usize;
    assert_eq!(chunk.constant_at(lo + 256 * hi), Some(vf(255.0)));
    let idx0 = chunk.byte_at(1).unwrap() as usize;
    assert_eq!(chunk.constant_at(idx0), Some(vf(0.0)));
}

#[test]
fn write_constant_fails_once_the_pool_is_full() {
    let mut chunk = Chunk::new();
    for i in 0..65536 {
        chunk.write_constant(vf(i as f64), 1).unwrap();
    }
    let len_before = chunk.len();
    let constants_before = chunk.constant_count();
    assert_eq!(
        chunk.write_constant(vf(9.0), 1),
        Err(ChunkError::TooManyConstantsLong)
    );
    // the failed call left the chunk exactly as it was
    assert_eq!(chunk.len(), len_before);
    assert_eq!(chunk.constant_count(), constants_before);
}
