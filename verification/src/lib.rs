//! A minimal stack-based bytecode virtual machine.
//!
//! A [`chunk::Chunk`] is an append-only bytecode buffer with a constant pool
//! and a run-length-encoded source-line map.  A [`vm::Vm`] owns one chunk and
//! executes it with a fixed-capacity operand stack.  Operands are
//! double-precision numbers, carried as their bit patterns ([`value::Value`]);
//! the machine pauses whenever a binary arithmetic instruction needs its
//! operands combined, and the embedder supplies the numeric result.

pub mod chunk;
pub mod disasm;
pub mod text;
pub mod value;
pub mod vm;
