use vstd::prelude::*;
use crate::chunk::{Chunk, OpCode};
use crate::value::Value;

verus! {

/// Why an interpretation ended without a result. `Compile` is reserved for a
/// future source-to-bytecode stage; the running machine reports `Runtime`.
#[derive(Clone, Copy, PartialEq, Eq, Structural, Debug)]
pub enum InterpretError {
    Runtime,
    Compile,
}

/// The two-operand arithmetic instructions the machine asks its caller to
/// carry out on values.
#[derive(Clone, Copy, PartialEq, Eq, Structural, Debug)]
pub enum BinOp {
    Add,
    Subtract,
    Multiply,
    Divide,
}

/// Where the machine stands after running as far as it can on its own:
/// the program returned a result, a fault stopped it, or the caller must
/// perform one floating-point operation on the handed-out operands and
/// feed the result back through `resume`. For `Binary`, the first operand
/// is the left one: the right operand is popped from the stack first.
#[derive(Clone, Copy, PartialEq, Eq, Structural, Debug)]
pub enum VmStep {
    Done(Value),
    Fault(InterpretError),
    Negate(Value),
    Binary(BinOp, Value, Value),
}

/// The operand stack holds at most this many slots; pushing past the cap is
/// detected and reported as a runtime fault rather than corrupting memory.
pub const STACK_MAX: usize = 256;

/// The bit patterns of a sequence of values.
pub open spec fn bits_of(vs: Seq<Value>) -> Seq<u32> {
    vs.map(|i: int, v: Value| v.bits)
}

/// What the fetch-decode-execute loop arrives at, at the specification
/// level: a result, a fault, or the next arithmetic operation together with
/// the machine state (instruction pointer and remaining stack) at which it
/// is requested.
pub ghost enum ModelStep {
    Done { result: u32 },
    Fault,
    Negate { a: u32, ip: nat, stack: Seq<u32> },
    Binary { op: BinOp, a: u32, b: u32, ip: nat, stack: Seq<u32> },
}

/// A two-operand instruction hands out the top of the stack as the right
/// operand and the slot under it as the left operand — that order is
/// load-bearing for subtraction and division.
pub open spec fn binary_model(op: BinOp, ip: nat, stack: Seq<u32>) -> ModelStep {
    if stack.len() >= 2 {
        ModelStep::Binary {
            op,
            a: stack[stack.len() - 2],
            b: stack.last(),
            ip,
            stack: stack.drop_last().drop_last(),
        }
    } else {
        ModelStep::Fault
    }
}

/// One run of the machine from instruction `ip` with operand stack `stack`:
/// `Return` pops the result, `Constant` pushes a pool entry, and the
/// arithmetic instructions stop the run and hand their operands out. Running
/// off the end of the code, indexing past the pool, popping an empty stack
/// and pushing past `STACK_MAX` are faults.
pub open spec fn run_model(code: Seq<OpCode>, consts: Seq<u32>, ip: nat, stack: Seq<u32>) -> ModelStep
    decreases code.len() - ip,
{
    if ip >= code.len() {
        ModelStep::Fault
    } else {
        match code[ip as int] {
            OpCode::Return => if stack.len() >= 1 {
                ModelStep::Done { result: stack.last() }
            } else {
                ModelStep::Fault
            },
            OpCode::Constant(id) => if (id as nat) < consts.len() && stack.len() < STACK_MAX {
                run_model(code, consts, ip + 1, stack.push(consts[id as int]))
            } else {
                ModelStep::Fault
            },
            OpCode::Negate => if stack.len() >= 1 {
                ModelStep::Negate { a: stack.last(), ip: ip + 1, stack: stack.drop_last() }
            } else {
                ModelStep::Fault
            },
            OpCode::Add => binary_model(BinOp::Add, ip + 1, stack),
            OpCode::Subtract => binary_model(BinOp::Subtract, ip + 1, stack),
            OpCode::Multiply => binary_model(BinOp::Multiply, ip + 1, stack),
            OpCode::Divide => binary_model(BinOp::Divide, ip + 1, stack),
        }
    }
}

/// Continuing after the caller computed `reply` for the requested operation:
/// the reply is pushed and the run goes on.
pub open spec fn resume_model(
    code: Seq<OpCode>,
    consts: Seq<u32>,
    ip: nat,
    stack: Seq<u32>,
    reply: u32,
) -> ModelStep {
    if stack.len() < STACK_MAX {
        run_model(code, consts, ip, stack.push(reply))
    } else {
        ModelStep::Fault
    }
}

/// The step a machine function returned agrees with the model: same result
/// or fault, and for a handed-out operation the same operands with the
/// machine left exactly in the model's state, ready for `resume`.
pub open spec fn step_agrees(step: VmStep, m: ModelStep, vm_ip: nat, vm_stack: Seq<u32>) -> bool {
    match m {
        ModelStep::Done { result } => step matches VmStep::Done(v) && v.bits == result,
        ModelStep::Fault => step == VmStep::Fault(InterpretError::Runtime),
        ModelStep::Negate { a, ip, stack } => {
            &&& step == VmStep::Negate(Value { bits: a })
            &&& vm_ip == ip
            &&& vm_stack == stack
        },
        ModelStep::Binary { op, a, b, ip, stack } => {
            &&& step == VmStep::Binary(op, Value { bits: a }, Value { bits: b })
            &&& vm_ip == ip
            &&& vm_stack == stack
        },
    }
}

/// A stack-based virtual machine: it owns the chunk it interprets, an
/// instruction pointer into its code, and a bounded operand stack.
pub struct VM {
    chunk: Chunk,
    ip: usize,
    stack: Vec<Value>,
}

impl VM {
    /// The instruction pointer stays inside the code and the stack under its
    /// cap.
    pub closed spec fn wf(&self) -> bool {
        &&& self.ip <= self.chunk.code@.len()
        &&& self.stack@.len() <= STACK_MAX
    }

    /// The instruction stream of the owned chunk.
    pub closed spec fn code_view(&self) -> Seq<OpCode> {
        self.chunk.code@
    }

    /// The constant pool of the owned chunk, as bit patterns.
    pub closed spec fn consts_view(&self) -> Seq<u32> {
        bits_of(self.chunk.constants@)
    }

    /// The next instruction to fetch.
    pub closed spec fn ip_view(&self) -> nat {
        self.ip as nat
    }

    /// The operand stack, bottom first, as bit patterns.
    pub closed spec fn stack_view(&self) -> Seq<u32> {
        bits_of(self.stack@)
    }

    pub fn new() -> (vm: VM)
        ensures
            vm.code_view() == Seq::<OpCode>::empty(),
            vm.ip_view() == 0,
            vm.stack_view() == Seq::<u32>::empty(),
            vm.wf(),
    {
        VM { chunk: Chunk::new(), ip: 0, stack: Vec::new() }
    }

    /// Starts an interpretation afresh: takes ownership of the chunk, zeroes
    /// the instruction pointer, clears the stack — no state crosses calls —
    /// and runs to a result, a fault, or the first arithmetic request.
    pub fn interpret(&mut self, ch: Chunk) -> (step: VmStep)
        ensures
            final(self).code_view() == ch.code@,
            final(self).consts_view() == bits_of(ch.constants@),
            final(self).wf(),
            step_agrees(
                step,
                run_model(ch.code@, bits_of(ch.constants@), 0, Seq::empty()),
                final(self).ip_view(),
                final(self).stack_view(),
            ),
    {
        self.chunk = ch;
        self.ip = 0;
        self.stack = Vec::new();
        proof {
            assert(bits_of(Seq::<Value>::empty()) =~= Seq::<u32>::empty());
        }
        self.run()
    }

    /// Continues after the caller carried out the requested operation,
    /// handing back its result: the value is pushed and the run goes on.
    pub fn resume(&mut self, reply: Value) -> (step: VmStep)
        requires
            old(self).wf(),
        ensures
            final(self).code_view() == old(self).code_view(),
            final(self).consts_view() == old(self).consts_view(),
            final(self).wf(),
            step_agrees(
                step,
                resume_model(
                    old(self).code_view(),
                    old(self).consts_view(),
                    old(self).ip_view(),
                    old(self).stack_view(),
                    reply.bits,
                ),
                final(self).ip_view(),
                final(self).stack_view(),
            ),
    {
        if self.stack.len() >= STACK_MAX {
            return VmStep::Fault(InterpretError::Runtime);
        }
        self.stack.push(reply);
        proof {
            assert(bits_of(old(self).stack@.push(reply)) =~= bits_of(old(self).stack@).push(
                reply.bits,
            ));
        }
        self.run()
    }

    /// The fetch-decode-execute loop: fetch the instruction under the
    /// pointer, advance the pointer by one, dispatch.
    #[verifier::loop_isolation(false)]
    fn run(&mut self) -> (step: VmStep)
        requires
            old(self).wf(),
        ensures
            final(self).code_view() == old(self).code_view(),
            final(self).consts_view() == old(self).consts_view(),
            final(self).wf(),
            step_agrees(
                step,
                run_model(
                    old(self).code_view(),
                    old(self).consts_view(),
                    old(self).ip_view(),
                    old(self).stack_view(),
                ),
                final(self).ip_view(),
                final(self).stack_view(),
            ),
    {
        let ghost goal = run_model(
            self.chunk.code@,
            bits_of(self.chunk.constants@),
            self.ip as nat,
            bits_of(self.stack@),
        );
        loop
            invariant
                self.wf(),
                self.chunk.code@ == old(self).chunk.code@,
                self.chunk.constants@ == old(self).chunk.constants@,
                run_model(
                    self.chunk.code@,
                    bits_of(self.chunk.constants@),
                    self.ip as nat,
                    bits_of(self.stack@),
                ) == goal,
            decreases self.chunk.code@.len() - self.ip,
        {
            if self.ip >= self.chunk.code.len() {
                return VmStep::Fault(InterpretError::Runtime);
            }
            let instr = self.chunk.code[self.ip];
            self.ip = self.ip + 1;
            match instr {
                OpCode::Return => {
                    match self.stack.pop() {
                        Some(v) => {
                            return VmStep::Done(v);
                        },
                        None => {
                            return VmStep::Fault(InterpretError::Runtime);
                        },
                    }
                },
                OpCode::Constant(id) => {
                    if (id as usize) < self.chunk.constants.len() && self.stack.len() < STACK_MAX {
                        let ghost stack0 = self.stack@;
                        let v = self.chunk.constants[id as usize];
                        self.stack.push(v);
                        proof {
                            assert(bits_of(stack0.push(v)) =~= bits_of(stack0).push(v.bits));
                        }
                    } else {
                        return VmStep::Fault(InterpretError::Runtime);
                    }
                },
                OpCode::Negate => {
                    let ghost stack0 = self.stack@;
                    match self.stack.pop() {
                        Some(v) => {
                            proof {
                                assert(bits_of(stack0.drop_last()) =~= bits_of(
                                    stack0,
                                ).drop_last());
                                assert(v.bits == bits_of(stack0).last());
                            }
                            return VmStep::Negate(v);
                        },
                        None => {
                            return VmStep::Fault(InterpretError::Runtime);
                        },
                    }
                },
                OpCode::Add => {
                    return self.binary_request(BinOp::Add);
                },
                OpCode::Subtract => {
                    return self.binary_request(BinOp::Subtract);
                },
                OpCode::Multiply => {
                    return self.binary_request(BinOp::Multiply);
                },
                OpCode::Divide => {
                    return self.binary_request(BinOp::Divide);
                },
            }
        }
    }

    /// Pops the right operand, then the left, and hands both out for the
    /// caller to combine.
    fn binary_request(&mut self, op: BinOp) -> (step: VmStep)
        requires
            old(self).wf(),
        ensures
            final(self).code_view() == old(self).code_view(),
            final(self).consts_view() == old(self).consts_view(),
            final(self).ip_view() == old(self).ip_view(),
            final(self).wf(),
            step_agrees(
                step,
                binary_model(op, old(self).ip_view(), old(self).stack_view()),
                final(self).ip_view(),
                final(self).stack_view(),
            ),
    {
        let ghost stack0 = self.stack@;
        let b = match self.stack.pop() {
            Some(v) => v,
            None => {
                return VmStep::Fault(InterpretError::Runtime);
            },
        };
        let a = match self.stack.pop() {
            Some(v) => v,
            None => {
                return VmStep::Fault(InterpretError::Runtime);
            },
        };
        proof {
            assert(bits_of(stack0.drop_last().drop_last()) =~= bits_of(
                stack0,
            ).drop_last().drop_last());
            assert(b.bits == bits_of(stack0).last());
            assert(a.bits == bits_of(stack0)[bits_of(stack0).len() - 2]);
        }
        VmStep::Binary(op, a, b)
    }

    /// The index of the next instruction to fetch, for a tracing driver.
    pub fn current_ip(&self) -> (r: usize)
        ensures
            r == self.ip_view(),
    {
        self.ip
    }

    /// A copy of the operand stack, bottom first, for a tracing driver.
    #[verifier::loop_isolation(false)]
    pub fn stack_snapshot(&self) -> (r: Vec<Value>)
        ensures
            bits_of(r@) == self.stack_view(),
    {
        let mut out: Vec<Value> = Vec::new();
        let mut i: usize = 0;
        while i < self.stack.len()
            invariant
                i <= self.stack@.len(),
                out@ == self.stack@.take(i as int),
            decreases self.stack@.len() - i,
        {
            out.push(self.stack[i]);
            proof {
                assert(out@ =~= self.stack@.take(i as int + 1));
            }
            i = i + 1;
        }
        proof {
            assert(self.stack@.take(self.stack@.len() as int) =~= self.stack@);
        }
        out
    }
}

} // verus!
