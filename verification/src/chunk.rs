//! The bytecode container: an append-only code buffer, a constant pool, and a
//! run-length-encoded source-line map.

use crate::value::Value;
use vstd::prelude::*;

verus! {

broadcast use vstd::std_specs::vec::group_vec_axioms;

/// An error raised while building or decoding a chunk.
#[derive(Clone, Copy, Debug, PartialEq, Eq, Structural)]
pub enum ChunkError {
    /// The byte is not a recognized opcode.
    ParseOpCode(u8),
    /// A one-byte constant operand cannot hold the next pool index.
    TooManyConstantsShort,
    /// A two-byte constant operand cannot hold the next pool index.
    TooManyConstantsLong,
    /// The offset is not covered by the line map.
    ParseLineForOffset(usize),
}

pub type ChunkResult<T> = Result<T, ChunkError>;

/// One instruction kind.  Every opcode has a fixed operand width:
/// `Constant` takes a one-byte pool index, `ConstantLong` a two-byte
/// little-endian pool index, and the rest take no operand.
#[derive(Clone, Copy, Debug, PartialEq, Eq, Structural)]
pub enum OpCode {
    Constant,
    ConstantLong,
    Add,
    Subtract,
    Multiply,
    Divide,
    Negate,
    Return,
}

/// The byte that encodes `op` in a code buffer.
pub open spec fn spec_opcode_byte(op: OpCode) -> u8 {
    match op {
        OpCode::Constant => 0,
        OpCode::ConstantLong => 1,
        OpCode::Add => 2,
        OpCode::Subtract => 3,
        OpCode::Multiply => 4,
        OpCode::Divide => 5,
        OpCode::Negate => 6,
        OpCode::Return => 7,
    }
}

/// The opcode encoded by `value`, if any.
pub open spec fn spec_opcode(value: u8) -> Option<OpCode> {
    if value == 0 {
        Some(OpCode::Constant)
    } else if value == 1 {
        Some(OpCode::ConstantLong)
    } else if value == 2 {
        Some(OpCode::Add)
    } else if value == 3 {
        Some(OpCode::Subtract)
    } else if value == 4 {
        Some(OpCode::Multiply)
    } else if value == 5 {
        Some(OpCode::Divide)
    } else if value == 6 {
        Some(OpCode::Negate)
    } else if value == 7 {
        Some(OpCode::Return)
    } else {
        None
    }
}

/// How many operand bytes follow the opcode byte of `op`.
pub open spec fn operand_width(op: OpCode) -> nat {
    match op {
        OpCode::Constant => 1,
        OpCode::ConstantLong => 2,
        _ => 0,
    }
}

impl OpCode {
    /// Decodes a byte into an opcode; `None` for an unrecognized byte.
    pub fn from_u8(value: u8) -> (r: Option<OpCode>)
        ensures
            r == spec_opcode(value),
    {
        match value {
            0 => Some(OpCode::Constant),
            1 => Some(OpCode::ConstantLong),
            2 => Some(OpCode::Add),
            3 => Some(OpCode::Subtract),
            4 => Some(OpCode::Multiply),
            5 => Some(OpCode::Divide),
            6 => Some(OpCode::Negate),
            7 => Some(OpCode::Return),
            _ => None,
        }
    }

    /// The byte that encodes this opcode.
    pub fn as_byte(self) -> (r: u8)
        ensures
            r == spec_opcode_byte(self),
            spec_opcode(r) == Some(self),
    {
        match self {
            OpCode::Constant => 0,
            OpCode::ConstantLong => 1,
            OpCode::Add => 2,
            OpCode::Subtract => 3,
            OpCode::Multiply => 4,
            OpCode::Divide => 5,
            OpCode::Negate => 6,
            OpCode::Return => 7,
        }
    }
}

/// One run of the line map: `num` consecutive code bytes that all came from
/// source line `value`.
#[derive(Clone, Copy, Debug)]
pub struct Rle<T> {
    pub num: usize,
    pub value: T,
}

impl<T> Rle<T> {
    /// A fresh run of length one.
    fn new(value: T) -> (r: Rle<T>)
        ensures
            r.num == 1,
            r.value == value,
    {
        Rle { num: 1, value }
    }

    /// Extends this run by one byte.
    fn increment(&mut self)
        requires
            old(self).num < usize::MAX,
        ensures
            final(self).num == old(self).num + 1,
            final(self).value == old(self).value,
    {
        self.num = self.num + 1;
    }
}

/// The bytes covered by one run: its line number, repeated `num` times.
pub open spec fn run_seq(r: Rle<usize>) -> Seq<usize> {
    Seq::new(r.num as nat, |i: int| r.value)
}

/// The line map, expanded to one line number per code byte.
pub open spec fn line_seq(runs: Seq<Rle<usize>>) -> Seq<usize>
    decreases runs.len(),
{
    if runs.len() == 0 {
        Seq::empty()
    } else {
        line_seq(runs.drop_last()) + run_seq(runs.last())
    }
}

/// The sum of the run lengths of the line map.
pub open spec fn runs_total(runs: Seq<Rle<usize>>) -> int
    decreases runs.len(),
{
    if runs.len() == 0 {
        0
    } else {
        runs_total(runs.drop_last()) + runs.last().num
    }
}

/// A canonical run-length encoding: every run is non-empty and no two
/// adjacent runs carry the same line, so equal-line appends always merge.
pub open spec fn runs_wf(runs: Seq<Rle<usize>>) -> bool {
    &&& forall|i: int| 0 <= i < runs.len() ==> (#[trigger] runs[i]).num >= 1
    &&& forall|i: int|
        0 < i < runs.len() ==> (#[trigger] runs[i]).value != runs[i - 1].value
}

/// The mathematical content of a chunk: its code bytes, its line map runs,
/// and its constant pool.
pub struct ChunkView {
    pub code: Seq<u8>,
    pub lines: Seq<Rle<usize>>,
    pub constants: Seq<Value>,
}

/// An append-only bytecode buffer with a constant pool and a source-line map.
#[derive(Debug, Clone)]
pub struct Chunk {
    pub(crate) code: Vec<u8>,
    pub(crate) lines: Vec<Rle<usize>>,
    pub(crate) constants: Vec<Value>,
}

impl View for Chunk {
    type V = ChunkView;

    closed spec fn view(&self) -> ChunkView {
        ChunkView { code: self.code@, lines: self.lines@, constants: self.constants@ }
    }
}

impl Chunk {
    /// Relates the chunk's abstraction to its fields, for the crate's own
    /// proofs in other modules.
    pub(crate) proof fn view_parts(&self)
        ensures
            self@.code == self.code@,
            self@.lines == self.lines@,
            self@.constants == self.constants@,
    {
    }

    /// A well-formed chunk: the line map is canonical and covers exactly the
    /// code bytes, one line per byte.
    pub open spec fn wf(&self) -> bool {
        &&& runs_wf(self@.lines)
        &&& line_seq(self@.lines).len() == self@.code.len()
    }

    /// The line recorded for each code byte, in offset order.
    pub open spec fn lines_of_bytes(&self) -> Seq<usize> {
        line_seq(self@.lines)
    }

    /// An empty chunk.
    pub fn new() -> (r: Chunk)
        ensures
            r.wf(),
            r@.code == Seq::<u8>::empty(),
            r@.lines == Seq::<Rle<usize>>::empty(),
            r@.constants == Seq::<Value>::empty(),
    {
        let r = Chunk { code: Vec::new(), lines: Vec::new(), constants: Vec::new() };
        proof {
            assert(line_seq(r@.lines) =~= Seq::<usize>::empty());
        }
        r
    }

    /// The number of code bytes written so far.
    pub fn len(&self) -> (r: usize)
        ensures
            r == self@.code.len(),
    {
        self.code.len()
    }

    /// Appends one raw byte and records its source line, merging into the
    /// last run of the line map when the line repeats.
    pub fn write_byte(&mut self, byte: u8, line: usize)
        requires
            old(self).wf(),
        ensures
            final(self).wf(),
            final(self)@.code == old(self)@.code.push(byte),
            final(self)@.constants == old(self)@.constants,
            final(self).lines_of_bytes() == old(self).lines_of_bytes().push(line),
            // the merge rule: extend the last run on a repeated line,
            // start a fresh run otherwise
            ({
                let runs = old(self)@.lines;
                if runs.len() > 0 && runs.last().value == line {
                    final(self)@.lines == runs.update(
                        runs.len() - 1,
                        Rle { num: (runs.last().num + 1) as usize, value: line },
                    )
                } else {
                    final(self)@.lines == runs.push(Rle { num: 1, value: line })
                }
            }),
    {
        self.code.push(byte);
        let n = self.lines.len();
        if n > 0 && self.lines[n - 1].value == line {
            proof {
                lemma_run_num_le_total(old(self)@.lines, n as int - 1);
                lemma_line_seq_len(old(self)@.lines);
                assert(self.code.len() == self.code@.len());
            }
            let ghost old_runs = old(self)@.lines;
            self.lines[n - 1].increment();
            proof {
                let new_run = Rle {
                    num: (old_runs.last().num + 1) as usize,
                    value: line,
                };
                assert(self@.lines =~= old_runs.update(old_runs.len() - 1, new_run));
                lemma_line_seq_update_last(old_runs, new_run);
                assert(run_seq(new_run) =~= run_seq(old_runs.last()).push(line));
                lemma_line_seq_snoc(old_runs);
                assert(self.lines_of_bytes() =~= old(self).lines_of_bytes().push(line));
            }
        } else {
            self.lines.push(Rle::new(line));
            proof {
                let runs = old(self)@.lines;
                let r = Rle { num: 1usize, value: line };
                assert(self@.lines =~= runs.push(r));
                lemma_line_seq_push(runs, r);
                assert(run_seq(r) =~= seq![line]);
                assert(self.lines_of_bytes() =~= old(self).lines_of_bytes().push(line));
            }
        }
    }

    /// The number of runs in the line map.
    pub fn run_count(&self) -> (r: usize)
        ensures
            r == self@.lines.len(),
    {
        self.lines.len()
    }

    /// The number of constants in the pool.
    pub fn constant_count(&self) -> (r: usize)
        ensures
            r == self@.constants.len(),
    {
        self.constants.len()
    }

    /// The code byte at `offset`, or `None` beyond the end.
    pub fn byte_at(&self, offset: usize) -> (r: Option<u8>)
        ensures
            offset < self@.code.len() ==> r == Some(self@.code[offset as int]),
            offset >= self@.code.len() ==> r is None,
    {
        if offset < self.code.len() {
            Some(self.code[offset])
        } else {
            None
        }
    }

    /// The pool entry at `idx`, or `None` beyond the end.
    pub fn constant_at(&self, idx: usize) -> (r: Option<Value>)
        ensures
            idx < self@.constants.len() ==> r == Some(self@.constants[idx as int]),
            idx >= self@.constants.len() ==> r is None,
    {
        if idx < self.constants.len() {
            Some(self.constants[idx])
        } else {
            None
        }
    }

    /// Appends `value` to the constant pool and returns its index.
    pub fn add_constant(&mut self, value: Value) -> (idx: usize)
        ensures
            final(self)@.constants == old(self)@.constants.push(value),
            idx == old(self)@.constants.len(),
            final(self)@.code == old(self)@.code,
            final(self)@.lines == old(self)@.lines,
    {
        self.constants.push(value);
        self.constants.len() - 1
    }

    /// Appends a constant-loading instruction for `value`, choosing the
    /// operand width: a one-byte `Constant` operand while the pool holds
    /// fewer than 255 entries, a two-byte little-endian `ConstantLong`
    /// operand from then on.  Fails, leaving the chunk unchanged, once even
    /// the two-byte operand cannot hold the next pool index.
    pub fn write_constant(&mut self, value: Value, line: usize) -> (r: ChunkResult<()>)
        requires
            old(self).wf(),
        ensures
            final(self).wf(),
            ({
                let n = old(self)@.constants.len();
                if n < 255 {
                    &&& r == Ok::<(), ChunkError>(())
                    &&& final(self)@.constants == old(self)@.constants.push(value)
                    &&& final(self)@.code == old(self)@.code + seq![0u8, n as u8]
                    &&& final(self).lines_of_bytes() == old(self).lines_of_bytes() + seq![
                        line,
                        line,
                    ]
                } else if n < 65536 {
                    &&& r == Ok::<(), ChunkError>(())
                    &&& final(self)@.constants == old(self)@.constants.push(value)
                    &&& final(self)@.code == old(self)@.code + seq![
                        1u8,
                        (n % 256) as u8,
                        (n / 256) as u8,
                    ]
                    &&& final(self).lines_of_bytes() == old(self).lines_of_bytes() + seq![
                        line,
                        line,
                        line,
                    ]
                } else {
                    &&& r == Err::<(), ChunkError>(ChunkError::TooManyConstantsLong)
                    &&& final(self)@.code == old(self)@.code
                    &&& final(self)@.lines == old(self)@.lines
                    &&& final(self)@.constants == old(self)@.constants
                }
            }),
    {
        if self.constants.len() < 255 {
            self.write_constant_short(value, line)
        } else {
            self.write_constant_long(value, line)
        }
    }

    /// Appends a `Constant` instruction with a one-byte operand.  Fails,
    /// leaving the chunk unchanged, when the next pool index does not fit in
    /// one byte; `write_constant` only takes this path below that bound.
    fn write_constant_short(&mut self, value: Value, line: usize) -> (r: ChunkResult<()>)
        requires
            old(self).wf(),
        ensures
            final(self).wf(),
            ({
                let n = old(self)@.constants.len();
                if n <= 255 {
                    &&& r == Ok::<(), ChunkError>(())
                    &&& final(self)@.constants == old(self)@.constants.push(value)
                    &&& final(self)@.code == old(self)@.code + seq![0u8, n as u8]
                    &&& final(self).lines_of_bytes() == old(self).lines_of_bytes() + seq![
                        line,
                        line,
                    ]
                } else {
                    &&& r == Err::<(), ChunkError>(ChunkError::TooManyConstantsShort)
                    &&& final(self)@.code == old(self)@.code
                    &&& final(self)@.lines == old(self)@.lines
                    &&& final(self)@.constants == old(self)@.constants
                }
            }),
    {
        if self.constants.len() > 255 {
            return Err(ChunkError::TooManyConstantsShort);
        }
        let constant_idx = self.add_constant(value);
        self.write_byte(OpCode::Constant.as_byte(), line);
        self.write_byte(constant_idx as u8, line);
        proof {
            assert(self@.code =~= old(self)@.code + seq![
                0u8,
                old(self)@.constants.len() as u8,
            ]);
            assert(self.lines_of_bytes() =~= old(self).lines_of_bytes() + seq![line, line]);
        }
        Ok(())
    }

    /// Appends a `ConstantLong` instruction with a two-byte little-endian
    /// operand.  Fails, leaving the chunk unchanged, when the next pool index
    /// does not fit in two bytes.
    fn write_constant_long(&mut self, value: Value, line: usize) -> (r: ChunkResult<()>)
        requires
            old(self).wf(),
        ensures
            final(self).wf(),
            ({
                let n = old(self)@.constants.len();
                if n < 65536 {
                    &&& r == Ok::<(), ChunkError>(())
                    &&& final(self)@.constants == old(self)@.constants.push(value)
                    &&& final(self)@.code == old(self)@.code + seq![
                        1u8,
                        (n % 256) as u8,
                        (n / 256) as u8,
                    ]
                    &&& final(self).lines_of_bytes() == old(self).lines_of_bytes() + seq![
                        line,
                        line,
                        line,
                    ]
                } else {
                    &&& r == Err::<(), ChunkError>(ChunkError::TooManyConstantsLong)
                    &&& final(self)@.code == old(self)@.code
                    &&& final(self)@.lines == old(self)@.lines
                    &&& final(self)@.constants == old(self)@.constants
                }
            }),
    {
        if self.constants.len() >= 65536 {
            return Err(ChunkError::TooManyConstantsLong);
        }
        let constant_idx = self.add_constant(value);
        self.write_byte(OpCode::ConstantLong.as_byte(), line);
        self.write_byte((constant_idx % 256) as u8, line);
        self.write_byte((constant_idx / 256) as u8, line);
        proof {
            let n = old(self)@.constants.len();
            assert(self@.code =~= old(self)@.code + seq![
                1u8,
                (n % 256) as u8,
                (n / 256) as u8,
            ]);
            assert(self.lines_of_bytes() =~= old(self).lines_of_bytes() + seq![
                line,
                line,
                line,
            ]);
        }
        Ok(())
    }

    /// The source line that byte `offset` was appended with, or
    /// `ParseLineForOffset` when `offset` lies beyond the code written so far.
    pub fn get_line(&self, offset: usize) -> (r: ChunkResult<usize>)
        requires
            self.wf(),
        ensures
            offset < self@.code.len() ==> r == Ok::<usize, ChunkError>(
                self.lines_of_bytes()[offset as int],
            ),
            offset >= self@.code.len() ==> r == Err::<usize, ChunkError>(
                ChunkError::ParseLineForOffset(offset),
            ),
    {
        let ghost runs = self@.lines;
        let mut start: usize = 0;
        let mut i: usize = 0;
        proof {
            lemma_line_seq_len(runs);
            assert(line_seq(runs.subrange(0, 0)) =~= Seq::<usize>::empty());
        }
        while i < self.lines.len()
            invariant
                self.wf(),
                runs == self@.lines,
                0 <= i <= runs.len(),
                start == line_seq(runs.subrange(0, i as int)).len(),
                offset >= start,
            decreases runs.len() - i,
        {
            let rle = self.lines[i];
            proof {
                lemma_line_seq_decompose(runs, i as int);
                lemma_line_seq_len(runs);
            }
            if offset - start < rle.num {
                proof {
                    assert(line_seq(runs)[offset as int] == rle.value);
                }
                return Ok(rle.value);
            }
            start = start + rle.num;
            proof {
                lemma_line_seq_push_subrange(runs, i as int);
            }
            i = i + 1;
        }
        proof {
            assert(runs.subrange(0, runs.len() as int) =~= runs);
        }
        Err(ChunkError::ParseLineForOffset(offset))
    }
}

/// The expanded line map is exactly as long as the run lengths add up to.
pub proof fn lemma_line_seq_len(runs: Seq<Rle<usize>>)
    ensures
        line_seq(runs).len() == runs_total(runs),
    decreases runs.len(),
{
    if runs.len() > 0 {
        lemma_line_seq_len(runs.drop_last());
    }
}

/// Appending a run expands to appending its bytes.
pub proof fn lemma_line_seq_push(runs: Seq<Rle<usize>>, r: Rle<usize>)
    ensures
        line_seq(runs.push(r)) == line_seq(runs) + run_seq(r),
{
    assert(runs.push(r).drop_last() =~= runs);
    assert(runs.push(r).last() == r);
}

/// The expanded line map splits at its last run.
pub proof fn lemma_line_seq_snoc(runs: Seq<Rle<usize>>)
    requires
        runs.len() > 0,
    ensures
        line_seq(runs) == line_seq(runs.drop_last()) + run_seq(runs.last()),
{
}

/// Replacing the last run expands to the other runs' bytes plus the new run's.
pub proof fn lemma_line_seq_update_last(runs: Seq<Rle<usize>>, r: Rle<usize>)
    requires
        runs.len() > 0,
    ensures
        line_seq(runs.update(runs.len() - 1, r)) == line_seq(runs.drop_last()) + run_seq(r),
{
    let updated = runs.update(runs.len() - 1, r);
    assert(updated.drop_last() =~= runs.drop_last());
    assert(updated.last() == r);
}

/// The expanded line map splits around any one run.
pub proof fn lemma_line_seq_decompose(runs: Seq<Rle<usize>>, i: int)
    requires
        0 <= i < runs.len(),
    ensures
        line_seq(runs) == line_seq(runs.subrange(0, i)) + run_seq(runs[i]) + line_seq(
            runs.subrange(i + 1, runs.len() as int),
        ),
    decreases runs.len(),
{
    if i == runs.len() - 1 {
        assert(runs.subrange(0, i) =~= runs.drop_last());
        assert(runs.subrange(i + 1, runs.len() as int) =~= Seq::<Rle<usize>>::empty());
        assert(line_seq(runs) =~= line_seq(runs.drop_last()) + run_seq(runs.last())
            + line_seq(Seq::<Rle<usize>>::empty()));
    } else {
        let prefix = runs.drop_last();
        lemma_line_seq_decompose(prefix, i);
        assert(prefix.subrange(0, i) =~= runs.subrange(0, i));
        assert(prefix[i] == runs[i]);
        assert(runs.subrange(i + 1, runs.len() as int).drop_last() =~= prefix.subrange(
            i + 1,
            prefix.len() as int,
        ));
        assert(runs.subrange(i + 1, runs.len() as int).last() == runs.last());
        lemma_line_seq_snoc(runs.subrange(i + 1, runs.len() as int));
        assert(line_seq(runs) =~= line_seq(runs.subrange(0, i)) + run_seq(runs[i]) + line_seq(
            runs.subrange(i + 1, runs.len() as int),
        ));
    }
}

/// Extending a prefix of the line map by one run adds that run's bytes.
pub proof fn lemma_line_seq_push_subrange(runs: Seq<Rle<usize>>, i: int)
    requires
        0 <= i < runs.len(),
    ensures
        line_seq(runs.subrange(0, i + 1)).len() == line_seq(runs.subrange(0, i)).len()
            + runs[i].num,
{
    assert(runs.subrange(0, i + 1).drop_last() =~= runs.subrange(0, i));
    assert(runs.subrange(0, i + 1).last() == runs[i]);
}

/// Appending one byte's line keeps every earlier byte's recorded line and
/// records exactly the appended line for the new byte: `write_byte` extends
/// `lines_of_bytes` this way, and `get_line` reads it back by offset.
pub proof fn lemma_append_records_line(before: Seq<usize>, line: usize, offset: int)
    requires
        0 <= offset <= before.len(),
    ensures
        offset < before.len() ==> before.push(line)[offset] == before[offset],
        offset == before.len() ==> before.push(line)[offset] == line,
{
}

/// In a well-formed chunk the run lengths of the line map add up to exactly
/// the number of code bytes: every byte has one line.
pub proof fn lemma_runs_cover(c: &Chunk)
    requires
        c.wf(),
    ensures
        runs_total(c@.lines) == c@.code.len(),
{
    lemma_line_seq_len(c@.lines);
}

/// Appending bytes that all carry one line collapses to a single run: a
/// well-formed line map whose expanded lines are all equal holds at most one
/// run, since adjacent runs never repeat a line.
pub proof fn lemma_equal_lines_single_run(runs: Seq<Rle<usize>>)
    requires
        runs_wf(runs),
        forall|i: int, j: int|
            0 <= i < line_seq(runs).len() && 0 <= j < line_seq(runs).len() ==> line_seq(runs)[i]
                == line_seq(runs)[j],
    ensures
        runs.len() <= 1,
{
    if runs.len() >= 2 {
        lemma_line_seq_decompose(runs, 0);
        assert(line_seq(runs.subrange(0, 0)) =~= Seq::<usize>::empty());
        assert(line_seq(runs)[0] == runs[0].value);
        lemma_line_seq_decompose(runs, 1);
        assert(runs.subrange(0, 1) =~= seq![runs[0]]);
        reveal_with_fuel(line_seq, 2);
        assert(seq![runs[0]].drop_last() =~= Seq::<Rle<usize>>::empty());
        assert(seq![runs[0]].last() == runs[0]);
        assert(line_seq(seq![runs[0]]) =~= run_seq(runs[0]));
        let k = runs[0].num as int;
        assert(line_seq(runs)[k] == runs[1].value);
        assert(runs[1].value != runs[0].value);
        assert(line_seq(runs)[0] == line_seq(runs)[k]);
    }
}

/// The pool index held by a two-byte little-endian operand.
pub open spec fn le16(lo: u8, hi: u8) -> int {
    lo + 256 * hi
}

/// A constant operand decodes back to the pool index it was written from:
/// the two little-endian bytes that `write_constant` emits for index `n`
/// recombine to exactly `n`.
pub proof fn lemma_constant_operand_roundtrip(n: int)
    requires
        0 <= n < 65536,
    ensures
        le16((n % 256) as u8, (n / 256) as u8) == n,
{
    vstd::arithmetic::div_mod::lemma_fundamental_div_mod(n, 256);
}

/// No single run is longer than the whole expanded line map.
pub proof fn lemma_run_num_le_total(runs: Seq<Rle<usize>>, i: int)
    requires
        0 <= i < runs.len(),
    ensures
        runs[i].num <= line_seq(runs).len(),
{
    lemma_line_seq_decompose(runs, i);
}

} // verus!
