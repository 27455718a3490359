use vstd::prelude::*;

use crate::opcode::Opcode;

verus! {

/// An ordered, append-only sequence of instructions, as produced by the
/// tokenizer and consumed by the virtual machine.
pub struct Program {
    ops: Vec<Opcode>,
}

impl View for Program {
    type V = Seq<Opcode>;

    closed spec fn view(&self) -> Seq<Opcode> {
        self.ops@
    }
}

impl Program {
    pub fn new() -> (r: Program)
        ensures
            r@ == Seq::<Opcode>::empty(),
    {
        Program { ops: Vec::new() }
    }

    pub fn push(&mut self, op: Opcode)
        ensures
            final(self)@ == old(self)@.push(op),
    {
        self.ops.push(op);
    }

    pub fn into_inner(self) -> (r: Vec<Opcode>)
        ensures
            r@ == self@,
    {
        self.ops
    }
}

} // verus!
