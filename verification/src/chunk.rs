use vstd::prelude::*;
use crate::value::Value;

verus! {

/// One bytecode instruction. The union is closed on purpose: the virtual
/// machine dispatches on it with an exhaustive match.
#[derive(Clone, Copy, PartialEq, Eq, Structural, Debug)]
pub enum OpCode {
    Return,
    Constant(u8),
    Negate,
    Add,
    Subtract,
    Multiply,
    Divide,
}

/// A `Constant` instruction addresses the pool with a single byte, so the
/// pool never grows past this many entries.
pub const MAX_CONSTANTS: usize = 256;

/// An append-only bytecode unit: an instruction stream, a constant pool, and
/// the source line each instruction came from.
pub struct Chunk {
    pub code: Vec<OpCode>,
    pub constants: Vec<Value>,
    pub lines: Vec<u16>,
}

impl Chunk {
    /// The instruction stream and the line table never drift apart.
    pub open spec fn wf(&self) -> bool {
        self.code@.len() == self.lines@.len()
    }

    pub fn new() -> (c: Chunk)
        ensures
            c.code@ == Seq::<OpCode>::empty(),
            c.constants@ == Seq::<Value>::empty(),
            c.lines@ == Seq::<u16>::empty(),
            c.wf(),
    {
        Chunk { code: Vec::new(), constants: Vec::new(), lines: Vec::new() }
    }

    /// Appends one instruction together with its source line; the two tables
    /// grow in one step.
    pub fn write(&mut self, code: OpCode, line: u16)
        ensures
            final(self).code@ == old(self).code@.push(code),
            final(self).lines@ == old(self).lines@.push(line),
            final(self).constants@ == old(self).constants@,
            old(self).wf() ==> final(self).wf(),
    {
        self.code.push(code);
        self.lines.push(line);
    }

    /// Appends a value to the constant pool and returns its index: the n-th
    /// call returns n - 1, and the pool is never reordered or deduplicated.
    /// The caller keeps the pool under the one-byte index cap.
    pub fn add_constant(&mut self, val: Value) -> (idx: u8)
        requires
            old(self).constants@.len() < MAX_CONSTANTS,
        ensures
            final(self).constants@ == old(self).constants@.push(val),
            idx as nat == old(self).constants@.len(),
            final(self).code@ == old(self).code@,
            final(self).lines@ == old(self).lines@,
    {
        self.constants.push(val);
        (self.constants.len() - 1) as u8
    }
}

} // verus!
