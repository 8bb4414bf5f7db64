//! The disassembler: a human-readable listing of a chunk.
//!
//! Each listed instruction shows its byte offset zero-padded to four columns,
//! its source line right-justified to four columns (or `   |` when it repeats
//! the previous instruction's line), its mnemonic, and — for the two
//! constant-loading opcodes — the operand index and the referenced constant,
//! written as its bit pattern in hexadecimal.  The text itself is computed
//! here and handed back; printing is the embedder's business.

use crate::chunk::{le16, operand_width, spec_opcode, Chunk, ChunkError, ChunkResult, OpCode};
use crate::text::{dec_len, dec_seq, fill, hex_seq, push_dec4, push_hex};
use crate::value::Value;
use vstd::prelude::*;
use vstd::string::StringExecFns;

verus! {

broadcast use vstd::std_specs::vec::group_vec_axioms;

/// The mnemonic of `op`.
pub open spec fn mnemonic(op: OpCode) -> Seq<char> {
    match op {
        OpCode::Constant => "OP_CONSTANT"@,
        OpCode::ConstantLong => "OP_CONSTANT_LONG"@,
        OpCode::Add => "OP_ADD"@,
        OpCode::Subtract => "OP_SUBTRACT"@,
        OpCode::Multiply => "OP_MULTIPLY"@,
        OpCode::Divide => "OP_DIVIDE"@,
        OpCode::Negate => "OP_NEGATE"@,
        OpCode::Return => "OP_RETURN"@,
    }
}

/// The line column of the instruction at `offset`: `   |` when the line
/// repeats the previous byte's line, else the line right-justified to four
/// columns.
pub open spec fn line_column(lines: Seq<usize>, offset: int) -> Seq<char> {
    if offset > 0 && lines[offset] == lines[offset - 1] {
        "   |"@
    } else {
        fill(' ', 4 - dec_len(lines[offset] as int)) + dec_seq(lines[offset] as int)
    }
}

/// The operand field of a constant-loading instruction: the index
/// right-justified to four columns, then the constant's bit pattern.
pub open spec fn constant_field(idx: int, v: Value) -> Seq<char> {
    fill(' ', 4 - dec_len(idx)) + dec_seq(idx) + " '0x"@ + hex_seq(v.bits as int, 16) + "'"@
}

/// The mnemonic-and-operand part of the instruction at `offset`.
pub open spec fn instr_body(code: Seq<u8>, constants: Seq<Value>, offset: int) -> Seq<char> {
    match spec_opcode(code[offset]) {
        Some(OpCode::Constant) => {
            let idx = code[offset + 1] as int;
            "OP_CONSTANT     "@ + " "@ + constant_field(idx, constants[idx])
        },
        Some(OpCode::ConstantLong) => {
            let idx = le16(code[offset + 1], code[offset + 2]);
            "OP_CONSTANT_LONG"@ + " "@ + constant_field(idx, constants[idx])
        },
        Some(op) => mnemonic(op),
        None => Seq::empty(),
    }
}

/// The full listing line of the instruction at `offset`, newline included.
pub open spec fn instr_text(
    code: Seq<u8>,
    constants: Seq<Value>,
    lines: Seq<usize>,
    offset: int,
) -> Seq<char> {
    fill('0', 4 - dec_len(offset)) + dec_seq(offset) + " "@ + line_column(lines, offset) + " "@
        + instr_body(code, constants, offset) + "\n"@
}

/// The instruction at `offset` can be read without reaching past the code or
/// the constant pool: its operand bytes are present and, for a
/// constant-loading opcode, the operand names a pool entry.  An unrecognized
/// opcode byte is fine — it is reported, not read past.
pub open spec fn instr_ok(code: Seq<u8>, constants: Seq<Value>, offset: int) -> bool {
    &&& 0 <= offset < code.len()
    &&& match spec_opcode(code[offset]) {
        None => true,
        Some(op) => {
            &&& offset + 1 + operand_width(op) <= code.len()
            &&& match op {
                OpCode::Constant => (code[offset + 1] as int) < constants.len(),
                OpCode::ConstantLong => le16(code[offset + 1], code[offset + 2])
                    < constants.len(),
                _ => true,
            }
        },
    }
}

/// Every instruction from `offset` to the end of the code can be read as
/// `instr_ok` asks, stepping from each instruction to the next by its width.
pub open spec fn scan_ok(code: Seq<u8>, constants: Seq<Value>, offset: int) -> bool
    decreases code.len() - offset,
{
    offset >= code.len() || (instr_ok(code, constants, offset) && match spec_opcode(
        code[offset],
    ) {
        None => true,
        Some(op) => scan_ok(code, constants, offset + 1 + operand_width(op)),
    })
}

/// The listing of the code from `offset` on: the concatenated lines of each
/// instruction, or the first unrecognized opcode byte.
pub open spec fn listing(
    code: Seq<u8>,
    constants: Seq<Value>,
    lines: Seq<usize>,
    offset: int,
) -> Result<Seq<char>, ChunkError>
    decreases code.len() - offset,
{
    if offset >= code.len() {
        Ok(Seq::empty())
    } else {
        match spec_opcode(code[offset]) {
            None => Err(ChunkError::ParseOpCode(code[offset])),
            Some(op) => {
                let next = if offset + 1 + operand_width(op) <= code.len() {
                    offset + 1 + operand_width(op)
                } else {
                    code.len() as int
                };
                match listing(code, constants, lines, next) {
                    Ok(rest) => Ok(instr_text(code, constants, lines, offset) + rest),
                    Err(e) => Err(e),
                }
            },
        }
    }
}

/// `rest` with `prefix` in front of its text; an error passes through.
pub open spec fn with_prefix(prefix: Seq<char>, rest: Result<Seq<char>, ChunkError>) -> Result<
    Seq<char>,
    ChunkError,
> {
    match rest {
        Ok(t) => Ok(prefix + t),
        Err(e) => Err(e),
    }
}

impl Chunk {
    /// Renders the instruction at `offset` as one listing line and returns it
    /// with the offset of the next instruction — always `offset` plus one
    /// plus the opcode's operand width — or reports an unrecognized opcode
    /// byte.
    #[verifier::rlimit(80)]
    #[verifier::spinoff_prover]
    pub fn disassemble_instruction(&self, offset: usize) -> (r: ChunkResult<(String, usize)>)
        requires
            self.wf(),
            instr_ok(self@.code, self@.constants, offset as int),
        ensures
            match spec_opcode(self@.code[offset as int]) {
                None => r == Err::<(String, usize), ChunkError>(
                    ChunkError::ParseOpCode(self@.code[offset as int]),
                ),
                Some(op) => r matches Ok(p) && p.0@ == instr_text(
                    self@.code,
                    self@.constants,
                    self.lines_of_bytes(),
                    offset as int,
                ) && p.1 == offset + 1 + operand_width(op),
            },
    {
        proof {
            self.view_parts();
            vstd::std_specs::vec::axiom_spec_len(&self.code);
        }
        let mut s = String::new();
        push_dec4(&mut s, offset as u64, true);
        s.append(" ");
        let line = self.get_line(offset)?;
        if offset > 0 {
            let prev = self.get_line(offset - 1)?;
            if line == prev {
                s.append("   |");
            } else {
                push_dec4(&mut s, line as u64, false);
            }
        } else {
            push_dec4(&mut s, line as u64, false);
        }
        s.append(" ");
        let ghost head = s@;
        proof {
            assert(head =~= fill('0', 4 - dec_len(offset as int)) + dec_seq(offset as int) + " "@
                + line_column(self.lines_of_bytes(), offset as int) + " "@);
        }
        let byte = self.code[offset];
        match OpCode::from_u8(byte) {
            None => Err(ChunkError::ParseOpCode(byte)),
            Some(OpCode::Constant) => {
                let idx = self.code[offset + 1] as usize;
                s.append("OP_CONSTANT     ");
                s.append(" ");
                push_dec4(&mut s, idx as u64, false);
                s.append(" '0x");
                let v = self.constants[idx];
                push_hex(&mut s, v.bits, 16);
                s.append("'");
                s.append("\n");
                proof {
                    assert(s@ =~= head + instr_body(self@.code, self@.constants, offset as int)
                        + "\n"@);
                    assert(s@ =~= instr_text(
                        self@.code,
                        self@.constants,
                        self.lines_of_bytes(),
                        offset as int,
                    ));
                }
                Ok((s, offset + 2))
            },
            Some(OpCode::ConstantLong) => {
                let lo = self.code[offset + 1] as usize;
                let hi = self.code[offset + 2] as usize;
                let idx = lo + 256 * hi;
                s.append("OP_CONSTANT_LONG");
                s.append(" ");
                push_dec4(&mut s, idx as u64, false);
                s.append(" '0x");
                let v = self.constants[idx];
                push_hex(&mut s, v.bits, 16);
                s.append("'");
                s.append("\n");
                proof {
                    assert(s@ =~= head + instr_body(self@.code, self@.constants, offset as int)
                        + "\n"@);
                    assert(s@ =~= instr_text(
                        self@.code,
                        self@.constants,
                        self.lines_of_bytes(),
                        offset as int,
                    ));
                }
                Ok((s, offset + 3))
            },
            Some(op) => {
                let m: &str = match op {
                    OpCode::Add => "OP_ADD",
                    OpCode::Subtract => "OP_SUBTRACT",
                    OpCode::Multiply => "OP_MULTIPLY",
                    OpCode::Divide => "OP_DIVIDE",
                    OpCode::Negate => "OP_NEGATE",
                    _ => "OP_RETURN",
                };
                s.append(m);
                s.append("\n");
                proof {
                    assert(m@ == mnemonic(op));
                    assert(s@ =~= head + instr_body(self@.code, self@.constants, offset as int)
                        + "\n"@);
                    assert(s@ =~= instr_text(
                        self@.code,
                        self@.constants,
                        self.lines_of_bytes(),
                        offset as int,
                    ));
                }
                Ok((s, offset + 1))
            },
        }
    }

    /// Renders the whole chunk: a header naming it, then one line per
    /// instruction, stopping at the first unrecognized opcode byte.
    pub fn disassemble(&self, name: &str) -> (r: ChunkResult<String>)
        requires
            self.wf(),
            scan_ok(self@.code, self@.constants, 0),
        ensures
            match listing(self@.code, self@.constants, self.lines_of_bytes(), 0) {
                Ok(t) => r matches Ok(s) && s@ == "== "@ + name@ + " ==\n"@ + t,
                Err(e) => r == Err::<String, ChunkError>(e),
            },
    {
        proof {
            self.view_parts();
        }
        let ghost code = self@.code;
        let ghost constants = self@.constants;
        let ghost lines = self.lines_of_bytes();
        let mut s = String::new();
        s.append("== ");
        s.append(name);
        s.append(" ==\n");
        let ghost header = s@;
        let mut offset: usize = 0;
        proof {
            assert(with_prefix(header, listing(code, constants, lines, 0)) == with_prefix(
                s@,
                listing(code, constants, lines, offset as int),
            ));
        }
        while offset < self.code.len()
            invariant
                self.wf(),
                code == self@.code,
                constants == self@.constants,
                lines == self.lines_of_bytes(),
                scan_ok(code, constants, offset as int),
                with_prefix(header, listing(code, constants, lines, 0)) == with_prefix(
                    s@,
                    listing(code, constants, lines, offset as int),
                ),
            decreases code.len() - offset,
        {
            proof {
                self.view_parts();
            }
            let ghost pre = s@;
            let ghost poff = offset as int;
            let (text, next) = match self.disassemble_instruction(offset) {
                Ok(p) => p,
                Err(e) => {
                    proof {
                        assert(listing(code, constants, lines, poff) == Err::<Seq<char>,
                            ChunkError>(e));
                    }
                    return Err(e);
                },
            };
            s.append(text.as_str());
            offset = next;
            proof {
                assert(listing(code, constants, lines, poff) == with_prefix(
                    instr_text(code, constants, lines, poff),
                    listing(code, constants, lines, offset as int),
                ));
                match listing(code, constants, lines, offset as int) {
                    Ok(rest) => {
                        assert(pre + (text@ + rest) =~= s@ + rest);
                    },
                    Err(e) => {},
                }
            }
        }
        proof {
            assert(listing(code, constants, lines, offset as int) == Ok::<Seq<char>, ChunkError>(
                Seq::empty(),
            ));
            match listing(code, constants, lines, 0) {
                Ok(t) => {
                    assert(header + t =~= s@ + Seq::<char>::empty());
                    assert(s@ + Seq::<char>::empty() =~= s@);
                },
                Err(e) => {},
            }
        }
        Ok(s)
    }
}

} // verus!
