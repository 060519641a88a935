use vstd::prelude::*;

verus! {

/// A runtime value: one single-precision IEEE 754 number, carried as its bit
/// pattern. The machine only stores and moves values; the arithmetic on them
/// is floating point, which this library does not perform itself — the
/// virtual machine hands the operand patterns to its caller and takes the
/// resulting pattern back.
#[derive(Clone, Copy, PartialEq, Eq, Structural, Debug)]
pub struct Value {
    pub bits: u32,
}

impl Value {
    pub fn from_bits(bits: u32) -> (v: Value)
        ensures
            v.bits == bits,
    {
        Value { bits }
    }
}

} // verus!
