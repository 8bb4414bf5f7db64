//! The virtual machine: a fetch–decode–dispatch loop executing one chunk
//! against a fixed-capacity operand stack.
//!
//! The machine performs no floating-point arithmetic itself.  `run` executes
//! every instruction it can decide on its own — constant loads, negation,
//! `Return`, and all error checking — and pauses at a binary arithmetic
//! instruction, handing the two operands to the caller.  The caller combines
//! them numerically, stores the result with [`Vm::set_top`], and calls `run`
//! again.  [`spec_run`] is the mathematical model of this behaviour.

use crate::chunk::{le16, spec_opcode, Chunk, ChunkView, OpCode};
use crate::value::{spec_negate, Value};
use vstd::prelude::*;

verus! {

broadcast use vstd::std_specs::vec::group_vec_axioms;

/// The capacity of the operand stack.
pub const STACK_MAX: usize = 256;

/// An error raised while executing a chunk.
#[derive(Clone, Copy, Debug, PartialEq, Eq, Structural)]
pub enum InterpretError {
    /// Reserved for a future front-end compiler; never produced here.
    Compilation,
    /// The byte (first field) at the offset (second field) is not a
    /// recognized opcode.
    UnknownOpcode(u8, usize),
    /// The code ended where the instruction at the offset needed more bytes.
    UnexpectedEnd(usize),
    /// The operand of the instruction at the offset (second field) names a
    /// pool index (first field) outside the constant pool.
    BadConstant(usize, usize),
    /// A push would exceed the stack capacity.
    StackOverflow,
    /// A pop found the stack empty.
    StackUnderflow,
}

pub type InterpretResult<T> = Result<T, InterpretError>;

/// A binary arithmetic instruction kind.
#[derive(Clone, Copy, Debug, PartialEq, Eq, Structural)]
pub enum BinaryOp {
    Add,
    Subtract,
    Multiply,
    Divide,
}

/// Why `run` paused: the program returned a result and halted, or a binary
/// arithmetic instruction needs its operands combined by the caller.
#[derive(Clone, Copy, Debug, PartialEq, Eq, Structural)]
pub enum VmPause {
    /// A `Return` instruction popped this value and halted the program.
    Return(Value),
    /// The result of `a <op> b` is wanted: the caller computes it and stores
    /// it with [`Vm::set_top`], then resumes with [`Vm::run`].
    Arith(BinaryOp, Value, Value),
}

/// The arithmetic pause: with fewer than two operands the stack underflows;
/// otherwise the top operand is popped and the machine pauses over the two
/// topmost values, the lower of which stays in place to receive the result.
pub open spec fn arith_case(k: BinaryOp, ip: nat, stack: Seq<Value>) -> (Result<
    VmPause,
    InterpretError,
>, nat, Seq<Value>) {
    if stack.len() < 2 {
        (Err(InterpretError::StackUnderflow), ip, stack)
    } else {
        (
            Ok(VmPause::Arith(k, stack[stack.len() - 2], stack.last())),
            (ip + 1) as nat,
            stack.drop_last(),
        )
    }
}

/// The meaning of running the machine from `ip` with the given stack: the
/// pause or error it reaches, together with the instruction offset and the
/// stack at that point.  Execution only stops at a `Return`, at a binary
/// arithmetic instruction (whose result the caller supplies), or at an error;
/// running off the end of the code is the error `UnexpectedEnd`.
pub open spec fn spec_run(code: Seq<u8>, constants: Seq<Value>, ip: nat, stack: Seq<Value>) -> (
    Result<VmPause, InterpretError>,
    nat,
    Seq<Value>,
)
    decreases code.len() - ip,
{
    if ip >= code.len() {
        (Err(InterpretError::UnexpectedEnd(ip as usize)), ip, stack)
    } else {
        let b = code[ip as int];
        match spec_opcode(b) {
            None => (Err(InterpretError::UnknownOpcode(b, ip as usize)), ip, stack),
            Some(op) => match op {
                OpCode::Constant => {
                    if ip + 1 >= code.len() {
                        (Err(InterpretError::UnexpectedEnd(ip as usize)), ip, stack)
                    } else {
                        let idx = code[(ip + 1) as int] as int;
                        if idx >= constants.len() {
                            (
                                Err(InterpretError::BadConstant(idx as usize, ip as usize)),
                                ip,
                                stack,
                            )
                        } else if stack.len() >= STACK_MAX {
                            (Err(InterpretError::StackOverflow), ip, stack)
                        } else {
                            spec_run(code, constants, (ip + 2) as nat, stack.push(constants[idx]))
                        }
                    }
                },
                OpCode::ConstantLong => {
                    if ip + 3 > code.len() {
                        (Err(InterpretError::UnexpectedEnd(ip as usize)), ip, stack)
                    } else {
                        let idx = le16(code[(ip + 1) as int], code[(ip + 2) as int]);
                        if idx >= constants.len() {
                            (
                                Err(InterpretError::BadConstant(idx as usize, ip as usize)),
                                ip,
                                stack,
                            )
                        } else if stack.len() >= STACK_MAX {
                            (Err(InterpretError::StackOverflow), ip, stack)
                        } else {
                            spec_run(code, constants, (ip + 3) as nat, stack.push(constants[idx]))
                        }
                    }
                },
                OpCode::Negate => {
                    if stack.len() == 0 {
                        (Err(InterpretError::StackUnderflow), ip, stack)
                    } else {
                        spec_run(
                            code,
                            constants,
                            (ip + 1) as nat,
                            stack.update(stack.len() - 1, spec_negate(stack.last())),
                        )
                    }
                },
                OpCode::Add => arith_case(BinaryOp::Add, ip, stack),
                OpCode::Subtract => arith_case(BinaryOp::Subtract, ip, stack),
                OpCode::Multiply => arith_case(BinaryOp::Multiply, ip, stack),
                OpCode::Divide => arith_case(BinaryOp::Divide, ip, stack),
                OpCode::Return => {
                    if stack.len() == 0 {
                        (Err(InterpretError::StackUnderflow), ip, stack)
                    } else {
                        (Ok(VmPause::Return(stack.last())), (ip + 1) as nat, stack.drop_last())
                    }
                },
            },
        }
    }
}

/// The mathematical content of a machine: its chunk, its instruction cursor,
/// and its operand stack, bottom first.
pub struct VmView {
    pub chunk: ChunkView,
    pub ip: nat,
    pub stack: Seq<Value>,
}

/// A virtual machine owning one chunk for the duration of a run.
pub struct Vm {
    chunk: Chunk,
    ip: usize,
    stack: Vec<Value>,
}

impl View for Vm {
    type V = VmView;

    closed spec fn view(&self) -> VmView {
        VmView { chunk: self.chunk@, ip: self.ip as nat, stack: self.stack@ }
    }
}

impl Vm {
    /// A well-formed machine: the cursor lies within the code (or just past
    /// its end) and the stack never exceeds its capacity.
    pub open spec fn wf(&self) -> bool {
        &&& self@.stack.len() <= STACK_MAX
        &&& self@.ip <= self@.chunk.code.len()
    }

    /// A machine about to execute `chunk` from its first byte.
    pub fn new(chunk: Chunk) -> (r: Vm)
        ensures
            r.wf(),
            r@.chunk == chunk@,
            r@.ip == 0,
            r@.stack == Seq::<Value>::empty(),
    {
        Vm { chunk, ip: 0, stack: Vec::new() }
    }

    /// Read-only access to the owned chunk.
    pub fn chunk(&self) -> (r: &Chunk)
        ensures
            r@ == self@.chunk,
    {
        &self.chunk
    }

    /// Empties the operand stack.
    pub fn reset_stack(&mut self)
        ensures
            final(self)@.chunk == old(self)@.chunk,
            final(self)@.ip == old(self)@.ip,
            final(self)@.stack == Seq::<Value>::empty(),
    {
        self.stack.clear();
    }

    /// Pushes `value`; fails with `StackOverflow`, leaving the stack as it
    /// was, exactly when the stack already holds `STACK_MAX` values.
    pub fn push(&mut self, value: Value) -> (r: InterpretResult<()>)
        ensures
            final(self)@.chunk == old(self)@.chunk,
            final(self)@.ip == old(self)@.ip,
            old(self)@.stack.len() < STACK_MAX ==> r == Ok::<(), InterpretError>(())
                && final(self)@.stack == old(self)@.stack.push(value),
            old(self)@.stack.len() >= STACK_MAX ==> r == Err::<(), InterpretError>(
                InterpretError::StackOverflow,
            ) && final(self)@.stack == old(self)@.stack,
    {
        if self.stack.len() < STACK_MAX {
            self.stack.push(value);
            Ok(())
        } else {
            Err(InterpretError::StackOverflow)
        }
    }

    /// Pops the top value; fails with `StackUnderflow` exactly when the stack
    /// is empty.
    pub fn pop(&mut self) -> (r: InterpretResult<Value>)
        ensures
            final(self)@.chunk == old(self)@.chunk,
            final(self)@.ip == old(self)@.ip,
            old(self)@.stack.len() == 0 ==> r == Err::<Value, InterpretError>(
                InterpretError::StackUnderflow,
            ) && final(self)@.stack == old(self)@.stack,
            old(self)@.stack.len() > 0 ==> r == Ok::<Value, InterpretError>(
                old(self)@.stack.last(),
            ) && final(self)@.stack == old(self)@.stack.drop_last(),
    {
        match self.stack.pop() {
            Some(v) => {
                proof {
                    assert(self@.stack =~= old(self)@.stack.drop_last());
                }
                Ok(v)
            },
            None => Err(InterpretError::StackUnderflow),
        }
    }

    /// Overwrites the top of the stack in place — the slot a paused binary
    /// instruction left for its result; fails with `StackUnderflow` exactly
    /// when the stack is empty.
    pub fn set_top(&mut self, value: Value) -> (r: InterpretResult<()>)
        ensures
            final(self)@.chunk == old(self)@.chunk,
            final(self)@.ip == old(self)@.ip,
            old(self)@.stack.len() == 0 ==> r == Err::<(), InterpretError>(
                InterpretError::StackUnderflow,
            ) && final(self)@.stack == old(self)@.stack,
            old(self)@.stack.len() > 0 ==> r == Ok::<(), InterpretError>(())
                && final(self)@.stack == old(self)@.stack.update(
                old(self)@.stack.len() - 1,
                value,
            ),
    {
        let n = self.stack.len();
        if n == 0 {
            Err(InterpretError::StackUnderflow)
        } else {
            self.stack[n - 1] = value;
            Ok(())
        }
    }

    /// Executes the fetch–decode–dispatch loop until it must stop: at a
    /// `Return` (the program's result), at a binary arithmetic instruction
    /// (whose numeric result the caller supplies through `set_top` before
    /// resuming), or at an error.  The outcome and the machine's final cursor
    /// and stack are exactly those of [`spec_run`].
    #[verifier::loop_isolation(false)]
    pub fn run(&mut self) -> (r: InterpretResult<VmPause>)
        requires
            old(self).wf(),
        ensures
            final(self).wf(),
            final(self)@.chunk == old(self)@.chunk,
            ({
                let (r0, ip0, st0) = spec_run(
                    old(self)@.chunk.code,
                    old(self)@.chunk.constants,
                    old(self)@.ip,
                    old(self)@.stack,
                );
                r == r0 && final(self)@.ip == ip0 && final(self)@.stack == st0
            }),
    {
        loop
            invariant
                self.wf(),
                self@.chunk == old(self)@.chunk,
                spec_run(
                    old(self)@.chunk.code,
                    old(self)@.chunk.constants,
                    old(self)@.ip,
                    old(self)@.stack,
                ) == spec_run(
                    self@.chunk.code,
                    self@.chunk.constants,
                    self@.ip,
                    self@.stack,
                ),
            decreases self@.chunk.code.len() - self@.ip,
        {
            let ghost hcode = self@.chunk.code;
            let ghost hconsts = self@.chunk.constants;
            let ghost hip = self@.ip;
            let ghost hstack = self@.stack;
            proof {
                self.chunk.view_parts();
            }
            let ip = self.ip;
            let len = self.chunk.code.len();
            if ip >= len {
                proof {
                    assert(spec_run(hcode, hconsts, hip, hstack) == (
                        Err::<VmPause, InterpretError>(InterpretError::UnexpectedEnd(ip)),
                        hip,
                        hstack,
                    ));
                }
                return Err(InterpretError::UnexpectedEnd(ip));
            }
            let byte = self.chunk.code[ip];
            match OpCode::from_u8(byte) {
                None => {
                    proof {
                        assert(spec_run(hcode, hconsts, hip, hstack) == (
                            Err::<VmPause, InterpretError>(
                                InterpretError::UnknownOpcode(byte, ip),
                            ),
                            hip,
                            hstack,
                        ));
                    }
                    return Err(InterpretError::UnknownOpcode(byte, ip));
                },
                Some(OpCode::Constant) => {
                    if len - ip < 2 {
                        proof {
                            assert(spec_run(hcode, hconsts, hip, hstack) == (
                                Err::<VmPause, InterpretError>(InterpretError::UnexpectedEnd(ip)),
                                hip,
                                hstack,
                            ));
                        }
                        return Err(InterpretError::UnexpectedEnd(ip));
                    }
                    let idx = self.chunk.code[ip + 1] as usize;
                    if idx >= self.chunk.constants.len() {
                        proof {
                            assert(spec_run(hcode, hconsts, hip, hstack) == (
                                Err::<VmPause, InterpretError>(
                                    InterpretError::BadConstant(idx, ip),
                                ),
                                hip,
                                hstack,
                            ));
                        }
                        return Err(InterpretError::BadConstant(idx, ip));
                    }
                    if self.stack.len() >= STACK_MAX {
                        proof {
                            assert(spec_run(hcode, hconsts, hip, hstack) == (
                                Err::<VmPause, InterpretError>(InterpretError::StackOverflow),
                                hip,
                                hstack,
                            ));
                        }
                        return Err(InterpretError::StackOverflow);
                    }
                    let v = self.chunk.constants[idx];
                    self.stack.push(v);
                    self.ip = ip + 2;
                    proof {
                        assert(spec_run(hcode, hconsts, hip, hstack) == spec_run(
                            hcode,
                            hconsts,
                            self@.ip,
                            self@.stack,
                        ));
                    }
                },
                Some(OpCode::ConstantLong) => {
                    if len - ip < 3 {
                        proof {
                            assert(spec_run(hcode, hconsts, hip, hstack) == (
                                Err::<VmPause, InterpretError>(InterpretError::UnexpectedEnd(ip)),
                                hip,
                                hstack,
                            ));
                        }
                        return Err(InterpretError::UnexpectedEnd(ip));
                    }
                    let lo = self.chunk.code[ip + 1] as usize;
                    let hi = self.chunk.code[ip + 2] as usize;
                    let idx = lo + 256 * hi;
                    if idx >= self.chunk.constants.len() {
                        proof {
                            assert(spec_run(hcode, hconsts, hip, hstack) == (
                                Err::<VmPause, InterpretError>(
                                    InterpretError::BadConstant(idx, ip),
                                ),
                                hip,
                                hstack,
                            ));
                        }
                        return Err(InterpretError::BadConstant(idx, ip));
                    }
                    if self.stack.len() >= STACK_MAX {
                        proof {
                            assert(spec_run(hcode, hconsts, hip, hstack) == (
                                Err::<VmPause, InterpretError>(InterpretError::StackOverflow),
                                hip,
                                hstack,
                            ));
                        }
                        return Err(InterpretError::StackOverflow);
                    }
                    let v = self.chunk.constants[idx];
                    self.stack.push(v);
                    self.ip = ip + 3;
                    proof {
                        assert(spec_run(hcode, hconsts, hip, hstack) == spec_run(
                            hcode,
                            hconsts,
                            self@.ip,
                            self@.stack,
                        ));
                    }
                },
                Some(OpCode::Negate) => {
                    let n = self.stack.len();
                    if n == 0 {
                        proof {
                            assert(spec_run(hcode, hconsts, hip, hstack) == (
                                Err::<VmPause, InterpretError>(InterpretError::StackUnderflow),
                                hip,
                                hstack,
                            ));
                        }
                        return Err(InterpretError::StackUnderflow);
                    }
                    let t = self.stack[n - 1];
                    self.stack[n - 1] = t.negate();
                    self.ip = ip + 1;
                    proof {
                        assert(self@.stack =~= hstack.update(
                            hstack.len() - 1,
                            spec_negate(hstack.last()),
                        ));
                        assert(spec_run(hcode, hconsts, hip, hstack) == spec_run(
                            hcode,
                            hconsts,
                            self@.ip,
                            self@.stack,
                        ));
                    }
                },
                Some(OpCode::Add) => {
                    let n = self.stack.len();
                    if n < 2 {
                        proof {
                            assert(spec_run(hcode, hconsts, hip, hstack) == (
                                Err::<VmPause, InterpretError>(InterpretError::StackUnderflow),
                                hip,
                                hstack,
                            ));
                        }
                        return Err(InterpretError::StackUnderflow);
                    }
                    let b = self.stack[n - 1];
                    let a = self.stack[n - 2];
                    let _popped = self.stack.pop();
                    self.ip = ip + 1;
                    proof {
                        assert(self@.stack =~= hstack.drop_last());
                        assert(spec_run(hcode, hconsts, hip, hstack) == (
                            Ok::<VmPause, InterpretError>(VmPause::Arith(BinaryOp::Add, a, b)),
                            self@.ip,
                            self@.stack,
                        ));
                    }
                    return Ok(VmPause::Arith(BinaryOp::Add, a, b));
                },
                Some(OpCode::Subtract) => {
                    let n = self.stack.len();
                    if n < 2 {
                        proof {
                            assert(spec_run(hcode, hconsts, hip, hstack) == (
                                Err::<VmPause, InterpretError>(InterpretError::StackUnderflow),
                                hip,
                                hstack,
                            ));
                        }
                        return Err(InterpretError::StackUnderflow);
                    }
                    let b = self.stack[n - 1];
                    let a = self.stack[n - 2];
                    let _popped = self.stack.pop();
                    self.ip = ip + 1;
                    proof {
                        assert(self@.stack =~= hstack.drop_last());
                        assert(spec_run(hcode, hconsts, hip, hstack) == (
                            Ok::<VmPause, InterpretError>(
                                VmPause::Arith(BinaryOp::Subtract, a, b),
                            ),
                            self@.ip,
                            self@.stack,
                        ));
                    }
                    return Ok(VmPause::Arith(BinaryOp::Subtract, a, b));
                },
                Some(OpCode::Multiply) => {
                    let n = self.stack.len();
                    if n < 2 {
                        proof {
                            assert(spec_run(hcode, hconsts, hip, hstack) == (
                                Err::<VmPause, InterpretError>(InterpretError::StackUnderflow),
                                hip,
                                hstack,
                            ));
                        }
                        return Err(InterpretError::StackUnderflow);
                    }
                    let b = self.stack[n - 1];
                    let a = self.stack[n - 2];
                    let _popped = self.stack.pop();
                    self.ip = ip + 1;
                    proof {
                        assert(self@.stack =~= hstack.drop_last());
                        assert(spec_run(hcode, hconsts, hip, hstack) == (
                            Ok::<VmPause, InterpretError>(
                                VmPause::Arith(BinaryOp::Multiply, a, b),
                            ),
                            self@.ip,
                            self@.stack,
                        ));
                    }
                    return Ok(VmPause::Arith(BinaryOp::Multiply, a, b));
                },
                Some(OpCode::Divide) => {
                    let n = self.stack.len();
                    if n < 2 {
                        proof {
                            assert(spec_run(hcode, hconsts, hip, hstack) == (
                                Err::<VmPause, InterpretError>(InterpretError::StackUnderflow),
                                hip,
                                hstack,
                            ));
                        }
                        return Err(InterpretError::StackUnderflow);
                    }
                    let b = self.stack[n - 1];
                    let a = self.stack[n - 2];
                    let _popped = self.stack.pop();
                    self.ip = ip + 1;
                    proof {
                        assert(self@.stack =~= hstack.drop_last());
                        assert(spec_run(hcode, hconsts, hip, hstack) == (
                            Ok::<VmPause, InterpretError>(VmPause::Arith(BinaryOp::Divide, a, b)),
                            self@.ip,
                            self@.stack,
                        ));
                    }
                    return Ok(VmPause::Arith(BinaryOp::Divide, a, b));
                },
                Some(OpCode::Return) => {
                    let n = self.stack.len();
                    if n == 0 {
                        proof {
                            assert(spec_run(hcode, hconsts, hip, hstack) == (
                                Err::<VmPause, InterpretError>(InterpretError::StackUnderflow),
                                hip,
                                hstack,
                            ));
                        }
                        return Err(InterpretError::StackUnderflow);
                    }
                    let v = self.stack[n - 1];
                    let _popped = self.stack.pop();
                    self.ip = ip + 1;
                    proof {
                        assert(self@.stack =~= hstack.drop_last());
                        assert(spec_run(hcode, hconsts, hip, hstack) == (
                            Ok::<VmPause, InterpretError>(VmPause::Return(v)),
                            self@.ip,
                            self@.stack,
                        ));
                    }
                    return Ok(VmPause::Return(v));
                },
            }
        }
    }
}

} // verus!
