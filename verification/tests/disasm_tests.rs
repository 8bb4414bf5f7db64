use bytecode_vm::chunk::{Chunk, ChunkError, OpCode};
use bytecode_vm::value::Value;

fn vf(x: f64) -> Value {
    Value::from_bits(x.to_bits())
}

fn sample_chunk() -> Chunk {
    let mut chunk = Chunk::new();
    chunk.write_constant(vf(1.2), 123).unwrap();
    chunk.write_constant(vf(3.4), 123).unwrap();
    chunk.write_byte(OpCode::Add.as_byte(), 123);
    chunk.write_constant(vf(5.6), 123).unwrap();
    chunk.write_byte(OpCode::Divide.as_byte(), 123);
    chunk.write_byte(OpCode::Negate.as_byte(), 123);
    chunk.write_byte(OpCode::Return.as_byte(), 123);
    chunk
}

#[test]
fn golden_listing_of_a_fixed_program() {
    let chunk = sample_chunk();
    let listing = chunk.disassemble("test chunk").unwrap();
    let expected = "== test chunk ==\n\
0000  123 OP_CONSTANT         0 '0x3ff3333333333333'\n\
0002    | OP_CONSTANT         1 '0x400b333333333333'\n\
0004    | OP_ADD\n\
0005    | OP_CONSTANT         2 '0x4016666666666666'\n\
0007    | OP_DIVIDE\n\
0008    | OP_NEGATE\n\
0009    | OP_RETURN\n";
    assert_eq!(listing, expected);
}

#[test]
fn disassemble_instruction_returns_the_next_offset() {
    let chunk = sample_chunk();
    let mut offset = 0;
    let mut boundaries = Vec::new();
    while offset < chunk.len() {
        boundaries.push(offset);
        let (_, next) = chunk.disassemble_instruction(offset).unwrap();
        // one byte for the opcode plus its declared operand width
        let op = OpCode::from_u8(chunk.byte_at(offset).unwrap()).unwrap();
        let width = match op {
            OpCode::Constant => 1,
            OpCode::ConstantLong => 2,
            _ => 0,
        };
        assert_eq!(next, offset + 1 + width);
        offset = next;
    }
    assert_eq!(boundaries, vec![0, 2, 4, 5, 7, 8, 9]);
}

#[test]
fn line_column_is_suppressed_only_on_repeats() {
    let mut chunk = Chunk::new();
    chunk.write_constant(vf(1.0), 1).unwrap();
    chunk.write_constant(vf(2.0), 1).unwrap();
    chunk.write_constant(vf(3.0), 2).unwrap();
    let listing = chunk.disassemble("lines").unwrap();
    let expected = "== lines ==\n\
0000    1 OP_CONSTANT         0 '0x3ff0000000000000'\n\
0002    | OP_CONSTANT         1 '0x4000000000000000'\n\
0004    2 OP_CONSTANT         2 '0x4008000000000000'\n";
    assert_eq!(listing, expected);
}

#[test]
fn long_constant_instructions_are_listed() {
    let mut chunk = Chunk::new();
    for i in 0..256 {
        chunk.add_constant(vf(i as f64));
    }
    // the pool holds 256 entries, so this emits the two-byte form for index 256
    chunk.write_constant(vf(0.5), 9).unwrap();
    let listing = chunk.disassemble("long").unwrap();
    let expected = "== long ==\n\
0000    9 OP_CONSTANT_LONG  256 '0x3fe0000000000000'\n";
    assert_eq!(listing, expected);
}

#[test]
fn unrecognized_opcode_byte_is_reported() {
    let mut chunk = Chunk::new();
    chunk.write_byte(99, 1);
    assert_eq!(
        chunk.disassemble_instruction(0),
        Err(ChunkError::ParseOpCode(99))
    );
    assert_eq!(chunk.disassemble("bad"), Err(ChunkError::ParseOpCode(99)));
}
