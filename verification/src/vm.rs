//! The stack-based virtual machine.
//!
//! The VM owns the operand stack and the instruction cursor, and is driven
//! as a resumable machine: [`VM::run`] executes instructions until the
//! program halts or an arithmetic opcode needs its floating-point result
//! computed. In the latter case it returns the two popped operands to the
//! caller, who computes `left op right` on doubles and hands the bit
//! pattern back through [`VM::push`] before calling [`VM::run`] again.

use vstd::prelude::*;

use crate::chunk::{
    lemma_long_bytes_value, spec_constant_encoding, spec_long_index, spec_opcode_byte,
    spec_opcode_of_byte, Chunk, OpCode, Value,
};

verus! {

/// The sign bit of an IEEE-754 double; flipping it negates the value.
pub const SIGN_BIT: u64 = 0x8000_0000_0000_0000;

/// Terminal status of a VM run: `Ok` on normal completion via a return
/// instruction, `RuntimeError` on a decode failure or premature exhaustion
/// of the code stream; `CompileError` is reserved for callers reporting a
/// compile failure through the same channel and is never produced here.
#[derive(Clone, Copy, PartialEq, Eq, Structural, Debug)]
pub enum InterpretResult {
    Success,
    CompileError,
    RuntimeError,
}

pub open spec fn spec_result_name(r: InterpretResult) -> Seq<char> {
    match r {
        InterpretResult::Success => "Ok"@,
        InterpretResult::CompileError => "CompileError"@,
        InterpretResult::RuntimeError => "RuntimeError"@,
    }
}

impl InterpretResult {
    /// The status's name, as text.
    pub fn name(&self) -> (r: &'static str)
        ensures
            r@ == spec_result_name(*self),
    {
        match self {
            InterpretResult::Success => "Ok",
            InterpretResult::CompileError => "CompileError",
            InterpretResult::RuntimeError => "RuntimeError",
        }
    }
}

/// Negation of a double: its sign bit flipped.
pub open spec fn spec_negated(v: Value) -> Value {
    v ^ SIGN_BIT
}

/// Where a run of the VM stopped.
pub enum Pause {
    /// An arithmetic opcode popped its right then its left operand and the
    /// caller must compute `left op right` and push the result back.
    Binary { op: OpCode, left: Value, right: Value },
    /// The program halted; on `Ok` the returned value is carried along.
    Halt { result: InterpretResult, value: Option<Value> },
}

/// The small-step interpreter the VM implements. From the given state it
/// yields the pause the VM reports together with the stack and cursor the
/// VM is left with; `None` marks the fatal faults (popping an empty stack,
/// a constant index outside the pool) that the VM does not recover from.
pub open spec fn spec_run(code: Seq<u8>, constants: Seq<Value>, stack: Seq<Value>, ip: int) -> Option<
    (Pause, Seq<Value>, int),
>
    decreases code.len() - ip,
{
    if ip < 0 || ip >= code.len() {
        Some(
            (
                Pause::Halt { result: InterpretResult::RuntimeError, value: None },
                stack,
                ip,
            ),
        )
    } else {
        match spec_opcode_of_byte(code[ip]) {
            None => Some(
                (
                    Pause::Halt { result: InterpretResult::RuntimeError, value: None },
                    stack,
                    ip,
                ),
            ),
            Some(op) => match op {
                OpCode::Constant => {
                    if ip + 2 <= code.len() {
                        let idx = code[ip + 1] as int;
                        if idx < constants.len() {
                            spec_run(code, constants, stack.push(constants[idx]), ip + 2)
                        } else {
                            None
                        }
                    } else {
                        Some(
                            (
                                Pause::Halt { result: InterpretResult::RuntimeError, value: None },
                                stack,
                                ip,
                            ),
                        )
                    }
                },
                OpCode::ConstantLong => {
                    if ip + 4 <= code.len() {
                        let idx = spec_long_index(code, ip);
                        if idx < constants.len() {
                            spec_run(code, constants, stack.push(constants[idx]), ip + 4)
                        } else {
                            None
                        }
                    } else {
                        Some(
                            (
                                Pause::Halt { result: InterpretResult::RuntimeError, value: None },
                                stack,
                                ip,
                            ),
                        )
                    }
                },
                OpCode::Negate => {
                    if stack.len() > 0 {
                        spec_run(
                            code,
                            constants,
                            stack.update(stack.len() - 1, spec_negated(stack.last())),
                            ip + 1,
                        )
                    } else {
                        None
                    }
                },
                OpCode::Return => {
                    if stack.len() > 0 {
                        Some(
                            (
                                Pause::Halt {
                                    result: InterpretResult::Success,
                                    value: Some(stack.last()),
                                },
                                stack.drop_last(),
                                ip + 1,
                            ),
                        )
                    } else {
                        None
                    }
                },
                _ => {
                    if stack.len() >= 2 {
                        Some(
                            (
                                Pause::Binary {
                                    op,
                                    left: stack[stack.len() - 2],
                                    right: stack[stack.len() - 1],
                                },
                                stack.take(stack.len() - 2),
                                ip + 1,
                            ),
                        )
                    } else {
                        None
                    }
                },
            },
        }
    }
}

/// The code of the instructions that load constant-pool entries `k..n` in
/// order, each in the form its own index selects.
pub open spec fn spec_constant_loads(k: int, n: int) -> Seq<u8>
    decreases n - k,
{
    if k < n {
        spec_constant_encoding(k) + spec_constant_loads(k + 1, n)
    } else {
        Seq::empty()
    }
}

/// The loads of `k..n` are the loads of `k..n-1` followed by the load of
/// `n-1`: the code a chunk grows one constant at a time is the same code the
/// VM decodes front to back.
pub proof fn lemma_constant_loads_snoc(k: int, n: int)
    requires
        0 <= k < n,
    ensures
        spec_constant_loads(k, n) == spec_constant_loads(k, n - 1) + spec_constant_encoding(n - 1),
    decreases n - k,
{
    if k == n - 1 {
        assert(spec_constant_loads(k, n - 1) =~= Seq::<u8>::empty());
        assert(spec_constant_loads(n, n) =~= Seq::<u8>::empty());
        assert(spec_constant_loads(k, n) =~= spec_constant_loads(k, n - 1)
            + spec_constant_encoding(n - 1));
    } else {
        lemma_constant_loads_snoc(k + 1, n);
        assert(spec_constant_loads(k, n) =~= spec_constant_loads(k, n - 1)
            + spec_constant_encoding(n - 1));
    }
}

/// Executing one constant-load instruction, wherever it sits in the code,
/// pushes exactly the pool entry it names.
proof fn lemma_run_load_step(
    code: Seq<u8>,
    constants: Seq<Value>,
    stack: Seq<Value>,
    o: int,
    k: int,
)
    requires
        0 <= k < constants.len() < 0x1000000,
        0 <= o,
        o + spec_constant_encoding(k).len() <= code.len(),
        code.subrange(o, o + spec_constant_encoding(k).len() as int) == spec_constant_encoding(k),
    ensures
        spec_run(code, constants, stack, o) == spec_run(
            code,
            constants,
            stack.push(constants[k]),
            o + spec_constant_encoding(k).len(),
        ),
{
    let enc = spec_constant_encoding(k);
    let w = enc.len() as int;
    assert(code[o] == enc[0]);
    if k < 255 {
        assert(code[o + 1] == enc[1]);
        assert(code[o + 1] == k as u8);
    } else {
        assert(code[o + 1] == enc[1] && code[o + 2] == enc[2] && code[o + 3] == enc[3]);
        lemma_long_bytes_value(k);
        assert(spec_long_index(code, o) == k);
    }
}

/// Executing loads of the pool entries `k..n` followed by a return pushes
/// every entry in order and halts normally, surfacing the topmost value.
proof fn lemma_run_loads(code: Seq<u8>, constants: Seq<Value>, stack: Seq<Value>, o: int, k: int)
    requires
        0 <= k <= constants.len() < 0x1000000,
        0 <= o <= code.len(),
        code.subrange(o, code.len() as int) == spec_constant_loads(k, constants.len() as int)
            + seq![spec_opcode_byte(OpCode::Return)],
        stack.len() + constants.len() - k > 0,
    ensures
        ({
            let full = stack + constants.subrange(k as int, constants.len() as int);
            spec_run(code, constants, stack, o) == Some(
                (
                    Pause::Halt { result: InterpretResult::Success, value: Some(full.last()) },
                    full.drop_last(),
                    code.len() as int,
                ),
            )
        }),
    decreases constants.len() - k,
{
    let n = constants.len() as int;
    let suffix = code.subrange(o, code.len() as int);
    if k == n {
        assert(spec_constant_loads(n, n) =~= Seq::<u8>::empty());
        assert(suffix =~= seq![spec_opcode_byte(OpCode::Return)]);
        assert(code.len() - o == 1);
        assert(code[o] == suffix[0]);
        assert(code[o] == spec_opcode_byte(OpCode::Return));
        assert(stack + constants.subrange(n, n) =~= stack);
    } else {
        let enc = spec_constant_encoding(k);
        let w = enc.len() as int;
        let rest = spec_constant_loads(k + 1, n) + seq![spec_opcode_byte(OpCode::Return)];
        assert(suffix =~= enc + rest);
        assert(suffix.len() == w + rest.len());
        assert(code.subrange(o, o + w) =~= enc);
        lemma_run_load_step(code, constants, stack, o, k);
        assert forall|i: int| 0 <= i < code.len() - (o + w) implies code.subrange(
            o + w,
            code.len() as int,
        )[i] == rest[i] by {
            assert(rest[i] == suffix[w + i]);
            assert(suffix[w + i] == code[o + w + i]);
        };
        assert(code.subrange(o + w, code.len() as int) =~= rest);
        lemma_run_loads(code, constants, stack.push(constants[k]), o + w, k + 1);
        assert(stack.push(constants[k]) + constants.subrange(k + 1, n) =~= stack
            + constants.subrange(k as int, n));
    }
}

/// A program that loads every pool entry in order — crossing from the short
/// to the long form wherever its indices do — and then returns, executes
/// normally: each value is pushed bit-identically, and the returned value is
/// the last entry.
pub proof fn lemma_constant_program_runs(constants: Seq<Value>)
    requires
        0 < constants.len() < 0x1000000,
    ensures
        ({
            let code = spec_constant_loads(0, constants.len() as int).push(
                spec_opcode_byte(OpCode::Return),
            );
            spec_run(code, constants, Seq::empty(), 0) == Some(
                (
                    Pause::Halt {
                        result: InterpretResult::Success,
                        value: Some(constants.last()),
                    },
                    constants.drop_last(),
                    code.len() as int,
                ),
            )
        }),
{
    let n = constants.len() as int;
    let code = spec_constant_loads(0, n).push(spec_opcode_byte(OpCode::Return));
    assert(code.subrange(0, code.len() as int) =~= spec_constant_loads(0, n)
        + seq![spec_opcode_byte(OpCode::Return)]);
    lemma_run_loads(code, constants, Seq::empty(), 0, 0);
    assert(Seq::<Value>::empty() + constants.subrange(0, n) =~= constants);
}

/// The virtual machine: an operand stack of value bit patterns and the
/// cursor into the chunk's code.
pub struct VM {
    stack: Vec<Value>,
    ip: usize,
}

impl VM {
    pub closed spec fn spec_stack(&self) -> Seq<Value> {
        self.stack@
    }

    pub closed spec fn spec_ip(&self) -> int {
        self.ip as int
    }

    pub fn new() -> (r: VM)
        ensures
            r.spec_stack() == Seq::<Value>::empty(),
            r.spec_ip() == 0,
    {
        VM { stack: Vec::new(), ip: 0 }
    }

    /// Push a value; this is also how the caller hands back the result of a
    /// `Pause::Binary` arithmetic request.
    pub fn push(&mut self, value: Value)
        ensures
            final(self).spec_stack() == old(self).spec_stack().push(value),
            final(self).spec_ip() == old(self).spec_ip(),
    {
        self.stack.push(value);
    }

    /// Truncate the operand stack to empty.
    pub fn free(&mut self)
        ensures
            final(self).spec_stack() == Seq::<Value>::empty(),
            final(self).spec_ip() == old(self).spec_ip(),
    {
        self.stack.truncate(0);
    }

    /// Move the cursor back to the start of the code, keeping the stack.
    pub fn rewind(&mut self)
        ensures
            final(self).spec_stack() == old(self).spec_stack(),
            final(self).spec_ip() == 0,
    {
        self.ip = 0;
    }

    /// Execute instructions from the current cursor until the program halts
    /// or an arithmetic opcode needs its result computed, exactly as
    /// [`spec_run`] describes. The states [`spec_run`] maps to `None` are
    /// the fatal faults the caller must avoid.
    pub fn run(&mut self, chunk: &Chunk) -> (p: Pause)
        requires
            spec_run(
                chunk.code@,
                chunk.constants@,
                old(self).spec_stack(),
                old(self).spec_ip(),
            ) is Some,
        ensures
            spec_run(chunk.code@, chunk.constants@, old(self).spec_stack(), old(self).spec_ip())
                == Some((p, final(self).spec_stack(), final(self).spec_ip())),
    {
        let ghost stack0 = self.stack@;
        let ghost ip0 = self.ip as int;
        loop
            invariant
                stack0 == old(self).spec_stack(),
                ip0 == old(self).spec_ip(),
                spec_run(chunk.code@, chunk.constants@, self.stack@, self.ip as int) == spec_run(
                    chunk.code@,
                    chunk.constants@,
                    stack0,
                    ip0,
                ),
                spec_run(chunk.code@, chunk.constants@, stack0, ip0) is Some,
            decreases chunk.code@.len() - self.ip,
        {
            let ghost cur_stack = self.stack@;
            let n = chunk.code.len();
            if self.ip >= n {
                return Pause::Halt { result: InterpretResult::RuntimeError, value: None };
            }
            let byte = chunk.code[self.ip];
            let decoded = OpCode::from_byte(byte);
            if decoded.is_none() {
                return Pause::Halt { result: InterpretResult::RuntimeError, value: None };
            }
            match decoded.unwrap() {
                OpCode::Constant => {
                    if n - self.ip < 2 {
                        return Pause::Halt {
                            result: InterpretResult::RuntimeError,
                            value: None,
                        };
                    }
                    let idx = chunk.code[self.ip + 1] as usize;
                    self.stack.push(chunk.constants[idx]);
                    self.ip = self.ip + 2;
                },
                OpCode::ConstantLong => {
                    if n - self.ip < 4 {
                        return Pause::Halt {
                            result: InterpretResult::RuntimeError,
                            value: None,
                        };
                    }
                    let idx = (chunk.code[self.ip + 1] as usize) * 0x10000 + (chunk.code[self.ip
                        + 2] as usize) * 0x100 + (chunk.code[self.ip + 3] as usize);
                    self.stack.push(chunk.constants[idx]);
                    self.ip = self.ip + 4;
                },
                OpCode::Negate => {
                    let top = self.stack.len() - 1;
                    let v = self.stack[top];
                    self.stack[top] = v ^ SIGN_BIT;
                    self.ip = self.ip + 1;
                    proof {
                        assert(self.stack@ =~= cur_stack.update(
                            cur_stack.len() - 1,
                            spec_negated(cur_stack.last()),
                        ));
                    }
                },
                OpCode::Return => {
                    let value = self.stack.pop().unwrap();
                    self.ip = self.ip + 1;
                    proof {
                        assert(self.stack@ =~= cur_stack.drop_last());
                    }
                    return Pause::Halt { result: InterpretResult::Success, value: Some(value) };
                },
                op => {
                    let right = self.stack.pop().unwrap();
                    let left = self.stack.pop().unwrap();
                    self.ip = self.ip + 1;
                    proof {
                        assert(self.stack@ =~= cur_stack.take(cur_stack.len() - 2));
                    }
                    return Pause::Binary { op, left, right };
                },
            }
        }
    }
}

} // verus!
