//! A tokenizer and stack-machine execution engine for a terse,
//! character-per-instruction language: an integer operand stack, bounded
//! counting loops, index-keyed procedures, and an interactive mode that
//! extends the program while keeping all runtime state.
//!
//! The machine's behaviour is specified by a small-step transition function
//! (`semantics::step_spec`); `Vm::step` is proved to perform exactly one
//! such transition and `Vm::run` to perform a `semantics::run_n` trace.
//!
//! Three points where the reference behaviour of 32-bit machines would
//! abort the process are deliberately total here instead:
//! - arithmetic wraps (the two's-complement behaviour of release builds);
//! - division faults and a loop-exit without an active loop are reported as
//!   `RuntimeError` values, recoverable like any other runtime error;
//! - a marker scan that runs off the code (a dangling opener) is reported
//!   as a `RuntimeError` as well.

use vstd::prelude::*;

use std::collections::BTreeMap;
use std::io::Read;
use std::io::Write;

use crate::opcode::Opcode;
use crate::program::Program;
use crate::semantics::OutEvent;
use crate::semantics::StepRes;
use crate::semantics::VmState;
use crate::semantics::guard_abs;
use crate::semantics::lemma_run_n_snoc;
use crate::semantics::lemma_step_wf;
use crate::semantics::run_n;
use crate::semantics::scan_back;
use crate::semantics::scan_fwd;
use crate::semantics::shift_amount;
use crate::semantics::step_spec;
use crate::semantics::binary_result;
use crate::semantics::unary_result;

pub mod opcode;
pub mod parser;
pub mod program;
pub mod semantics;

verus! {

broadcast use
    vstd::laws_cmp::group_laws_cmp,
    vstd::std_specs::btree::axiom_contains_deref_key,
    vstd::std_specs::btree::axiom_maps_deref_key_to_value,
;

/// A condition that aborts one `run` call; the machine itself stays usable.
#[derive(Debug, Copy, Clone, PartialEq, Eq, Structural)]
pub enum RuntimeError {
    /// An instruction required more operands than the stack holds.
    StackUnderflow,
    /// The one-byte input read failed or hit end of input.
    IoError,
    /// Division or remainder with a zero divisor.
    DivisionByZero,
    /// Division or remainder whose result does not fit in 32 bits.
    DivisionOverflow,
    /// A loop-exit instruction ran with no active loop.
    LoopUnderflow,
    /// A scan for a matching marker ran off the end of the code.
    UnmatchedMarker,
}

/// The error a `run` or `step` call reported, or nothing when it succeeded.
pub open spec fn err_of(r: Result<(), RuntimeError>) -> Option<RuntimeError> {
    match r {
        Ok(_) => None,
        Err(e) => Some(e),
    }
}

/// Relies on std::io::Read::read_exact on standard input: on success the
/// one-byte buffer is filled from the stream; any failure, end of input
/// included, is reported as an error. No outcome is promised: the byte
/// depends on the environment.
#[verifier::external_body]
fn read_byte() -> (r: Option<u8>) {
    let mut buf: [u8; 1] = [0u8; 1];
    match std::io::stdin().read_exact(&mut buf) {
        Ok(()) => Some(buf[0]),
        Err(_) => None,
    }
}

/// Relies on char::from_u32: it returns Some exactly for Unicode scalar
/// values (below the surrogate range, or past it and at most 0x10FFFF), and
/// the character it returns has the argument as its code point.
#[verifier::external_body]
fn char_from_u32(u: u32) -> (r: Option<char>)
    ensures
        r is Some <==> (u < 0xD800 || (0xE000 <= u && u <= 0x10FFFF)),
        r matches Some(c) ==> c as u32 == u,
{
    char::from_u32(u)
}

/// Relies on write! to standard output: prints the one character.
#[verifier::external_body]
fn write_char(c: char) {
    let _ = write!(std::io::stdout(), "{}", c);
}

/// Relies on writeln! to standard output: prints the value in decimal,
/// followed by a line break.
#[verifier::external_body]
fn write_int_line(v: i32) {
    let _ = writeln!(std::io::stdout(), "{}", v);
}

/// The most instructions one `run` call will execute before giving the
/// caller control back; far beyond anything a real session reaches.
pub const RUN_FUEL: u64 = u64::MAX;

/// The virtual machine: fixed (append-only) code, an instruction pointer,
/// the operand stack, the call-return stack, the loop trip-count stack, and
/// the procedure dictionary.
pub struct Vm {
    dictionary: BTreeMap<i32, usize>,
    call_stack: Vec<usize>,
    loop_stack: Vec<u32>,
    data_stack: Vec<i32>,
    code: Vec<Opcode>,
    pc: usize,
    output: Ghost<Seq<OutEvent>>,
}

impl View for Vm {
    type V = VmState;

    closed spec fn view(&self) -> VmState {
        VmState {
            code: self.code@,
            pc: self.pc as nat,
            dict: self.dictionary@,
            call: self.call_stack@,
            loops: self.loop_stack@,
            data: self.data_stack@,
            out: self.output@,
        }
    }
}

/// The unary instruction `op` applied to the old top of stack `t`.
fn unary_value(op: Opcode, t: i32) -> (r: i32)
    ensures
        r == unary_result(op, t),
{
    match op {
        Opcode::Fold0 => t.wrapping_mul(10).wrapping_add(0),
        Opcode::Fold1 => t.wrapping_mul(10).wrapping_add(1),
        Opcode::Fold2 => t.wrapping_mul(10).wrapping_add(2),
        Opcode::Fold3 => t.wrapping_mul(10).wrapping_add(3),
        Opcode::Fold4 => t.wrapping_mul(10).wrapping_add(4),
        Opcode::Fold5 => t.wrapping_mul(10).wrapping_add(5),
        Opcode::Fold6 => t.wrapping_mul(10).wrapping_add(6),
        Opcode::Fold7 => t.wrapping_mul(10).wrapping_add(7),
        Opcode::Fold8 => t.wrapping_mul(10).wrapping_add(8),
        Opcode::Fold9 => t.wrapping_mul(10).wrapping_add(9),
        Opcode::Neg => 0i32.wrapping_sub(t),
        Opcode::BitNot => {
            assert(i32::MIN <= -1 - t <= i32::MAX);
            -1 - t
        },
        _ => t,
    }
}

/// The shift distance the shift instructions use: the operand's low five
/// bits.
fn shift_amount_value(w: i32) -> (s: u32)
    ensures
        s == shift_amount(w),
        s < 32,
{
    match w.checked_rem(32) {
        Some(t) => if t < 0 {
            (t + 32) as u32
        } else {
            t as u32
        },
        None => 0,
    }
}

/// The binary instruction `op` applied to `v` below `w`, or the error it
/// fails with.
fn binary_value(op: Opcode, v: i32, w: i32) -> (r: Result<i32, RuntimeError>)
    ensures
        r == binary_result(op, v, w),
{
    match op {
        Opcode::Add => Ok(v.wrapping_add(w)),
        Opcode::Sub => Ok(v.wrapping_sub(w)),
        Opcode::Mul => Ok(v.wrapping_mul(w)),
        Opcode::Div => match v.checked_div(w) {
            Some(r) => Ok(r),
            None => Err(
                if w == 0 {
                    RuntimeError::DivisionByZero
                } else {
                    RuntimeError::DivisionOverflow
                },
            ),
        },
        Opcode::Rem => match v.checked_rem(w) {
            Some(r) => Ok(r),
            None => Err(
                if w == 0 {
                    RuntimeError::DivisionByZero
                } else {
                    RuntimeError::DivisionOverflow
                },
            ),
        },
        Opcode::Eq => Ok(if v == w { 1 } else { 0 }),
        Opcode::Gt => Ok(if v > w { 1 } else { 0 }),
        Opcode::Lt => Ok(if v < w { 1 } else { 0 }),
        Opcode::BitAnd => Ok(v & w),
        Opcode::BitXor => Ok(v ^ w),
        Opcode::BitOr => Ok(v | w),
        Opcode::BitShl => {
            let s = shift_amount_value(w);
            Ok(v << s)
        },
        Opcode::BitShr => {
            let s = shift_amount_value(w);
            Ok(v >> s)
        },
        _ => Err(RuntimeError::StackUnderflow),
    }
}

/// The index of the closer matching an already-consumed opener, scanning
/// forward from `start`.
fn scan_forward(code: &Vec<Opcode>, start: usize, opener: Opcode, closer: Opcode) -> (r: Option<
    usize,
>)
    requires
        start <= code@.len(),
    ensures
        match r {
            Some(m) => scan_fwd(code@, start as nat, 0, opener, closer) == Some(m as nat) && start
                <= m < code@.len(),
            None => scan_fwd(code@, start as nat, 0, opener, closer) is None,
        },
{
    let mut i = start;
    let mut depth: usize = 0;
    while i < code.len()
        invariant
            start <= i <= code@.len(),
            depth <= i - start,
            scan_fwd(code@, start as nat, 0, opener, closer) == scan_fwd(
                code@,
                i as nat,
                depth as nat,
                opener,
                closer,
            ),
        decreases code@.len() - i,
    {
        let x = code[i];
        if x == closer {
            if depth == 0 {
                return Some(i);
            }
            depth = depth - 1;
        } else if x == opener {
            depth = depth + 1;
        }
        i = i + 1;
    }
    None
}

/// The index of the opener matching an already-consumed closer, scanning
/// backward from just below `from`.
fn scan_backward(code: &Vec<Opcode>, from: usize, opener: Opcode, closer: Opcode) -> (r: Option<
    usize,
>)
    requires
        from <= code@.len(),
    ensures
        match r {
            Some(m) => scan_back(code@, from - 1, 0, opener, closer) == Some(m as nat) && m < from,
            None => scan_back(code@, from - 1, 0, opener, closer) is None,
        },
{
    let mut j = from;
    let mut depth: usize = 0;
    while j > 0
        invariant
            j <= from <= code@.len(),
            depth <= from - j,
            scan_back(code@, from - 1, 0, opener, closer) == scan_back(
                code@,
                j - 1,
                depth as nat,
                opener,
                closer,
            ),
        decreases j,
    {
        let x = code[j - 1];
        if x == opener {
            if depth == 0 {
                return Some(j - 1);
            }
            depth = depth - 1;
        } else if x == closer {
            depth = depth + 1;
        }
        j = j - 1;
    }
    None
}

impl Vm {
    /// Every active loop has at least one pass left to make.
    pub open spec fn wf(self) -> bool {
        self@.wf()
    }

    /// A machine with no code and empty state.
    pub fn new() -> (r: Vm)
        ensures
            r@ == VmState::init(Seq::<Opcode>::empty()),
            r.wf(),
    {
        let vm = Vm {
            dictionary: BTreeMap::new(),
            call_stack: Vec::new(),
            loop_stack: Vec::new(),
            data_stack: Vec::new(),
            code: Vec::new(),
            pc: 0,
            output: Ghost(Seq::empty()),
        };
        proof {
            assert(vm@ =~= VmState::init(Seq::<Opcode>::empty()));
        }
        vm
    }

    /// A fresh machine holding `program` as its code.
    pub fn load(program: Program) -> (r: Vm)
        ensures
            r@ == VmState::init(program@),
            r.wf(),
    {
        let vm = Vm {
            dictionary: BTreeMap::new(),
            call_stack: Vec::new(),
            loop_stack: Vec::new(),
            data_stack: Vec::new(),
            code: program.into_inner(),
            pc: 0,
            output: Ghost(Seq::empty()),
        };
        proof {
            assert(vm@ =~= VmState::init(program@));
        }
        vm
    }

    /// Appends more instructions; every other part of the machine state is
    /// kept, so a later `run` picks up where the last one stopped.
    pub fn extend_program(&mut self, program: Program)
        ensures
            final(self)@ == (VmState { code: old(self)@.code + program@, ..old(self)@ }),
            old(self).wf() ==> final(self).wf(),
    {
        let mut ops = program.into_inner();
        self.code.append(&mut ops);
        proof {
            assert(self@ =~= (VmState { code: old(self)@.code + program@, ..old(self)@ }));
        }
    }

    /// The operand stack, bottom first.
    pub fn stack(&self) -> (r: &Vec<i32>)
        ensures
            r@ == self@.data,
    {
        &self.data_stack
    }

    /// Error recovery: drops the control state (call-return and trip-count
    /// stacks) and moves the instruction pointer to the end of the code, so
    /// the next `run` returns at once; the operand stack and the dictionary
    /// are deliberately kept.
    pub fn unwind(&mut self)
        ensures
            final(self)@ == (VmState {
                call: Seq::<usize>::empty(),
                loops: Seq::<u32>::empty(),
                pc: old(self)@.code.len(),
                ..old(self)@
            }),
            final(self).wf(),
    {
        self.call_stack.clear();
        self.loop_stack.clear();
        self.pc = self.code.len();
        proof {
            assert(self@ =~= (VmState {
                call: Seq::<usize>::empty(),
                loops: Seq::<u32>::empty(),
                pc: old(self)@.code.len(),
                ..old(self)@
            }));
        }
    }

    /// Executes at most one instruction: exactly the transition `step_spec`
    /// describes, for some input byte that only the input instruction looks
    /// at.
    pub fn step(&mut self) -> (r: Result<(), RuntimeError>)
        requires
            old(self).wf(),
        ensures
            final(self).wf(),
            old(self)@.pc >= old(self)@.code.len() ==> r is Ok && final(self)@ == old(self)@,
            old(self)@.pc < old(self)@.code.len() ==> exists|b: Option<u8>|
                (StepRes { state: final(self)@, err: err_of(r) }) == #[trigger] step_spec(
                    old(self)@,
                    b,
                ),
            old(self)@.pc < old(self)@.code.len() && old(self)@.code[old(self)@.pc as int]
                != Opcode::Ask ==> (StepRes { state: final(self)@, err: err_of(r) }) == step_spec(
                old(self)@,
                None,
            ),
            final(self)@.code == old(self)@.code,
    {
        if self.pc >= self.code.len() {
            return Ok(());
        }
        let ghost pre = self@;
        let ghost mut inb: Option<u8> = None;
        let op = self.code[self.pc];
        self.pc = self.pc + 1;
        let r: Result<(), RuntimeError> = match op {
            Opcode::Push0 => { self.data_stack.push(0); Ok(()) },
            Opcode::Push1 => { self.data_stack.push(1); Ok(()) },
            Opcode::Push2 => { self.data_stack.push(2); Ok(()) },
            Opcode::Push3 => { self.data_stack.push(3); Ok(()) },
            Opcode::Push4 => { self.data_stack.push(4); Ok(()) },
            Opcode::Push5 => { self.data_stack.push(5); Ok(()) },
            Opcode::Push6 => { self.data_stack.push(6); Ok(()) },
            Opcode::Push7 => { self.data_stack.push(7); Ok(()) },
            Opcode::Push8 => { self.data_stack.push(8); Ok(()) },
            Opcode::Push9 => { self.data_stack.push(9); Ok(()) },
            Opcode::Fold0 | Opcode::Fold1 | Opcode::Fold2 | Opcode::Fold3 | Opcode::Fold4
            | Opcode::Fold5 | Opcode::Fold6 | Opcode::Fold7 | Opcode::Fold8 | Opcode::Fold9
            | Opcode::Neg | Opcode::BitNot => {
                let l = self.data_stack.len();
                if l == 0 {
                    Err(RuntimeError::StackUnderflow)
                } else {
                    let t = self.data_stack[l - 1];
                    let x = unary_value(op, t);
                    self.data_stack.pop();
                    self.data_stack.push(x);
                    proof {
                        assert(self@.data =~= pre.data.update(
                            pre.data.len() - 1,
                            unary_result(op, t),
                        ));
                    }
                    Ok(())
                }
            },
            Opcode::Add | Opcode::Sub | Opcode::Mul | Opcode::Div | Opcode::Rem | Opcode::Eq
            | Opcode::Gt | Opcode::Lt | Opcode::BitAnd | Opcode::BitXor | Opcode::BitOr
            | Opcode::BitShl | Opcode::BitShr => {
                let l = self.data_stack.len();
                if l < 2 {
                    Err(RuntimeError::StackUnderflow)
                } else {
                    let w = self.data_stack[l - 1];
                    let v = self.data_stack[l - 2];
                    match binary_value(op, v, w) {
                        Ok(x) => {
                            self.data_stack.pop();
                            self.data_stack.pop();
                            self.data_stack.push(x);
                            proof {
                                assert(self@.data =~= pre.data.subrange(
                                    0,
                                    pre.data.len() - 2,
                                ).push(x));
                            }
                            Ok(())
                        },
                        Err(e) => Err(e),
                    }
                }
            },
            Opcode::Pop => {
                match self.data_stack.pop() {
                    Some(_) => Ok(()),
                    None => Err(RuntimeError::StackUnderflow),
                }
            },
            Opcode::Dup => {
                let l = self.data_stack.len();
                if l == 0 {
                    Err(RuntimeError::StackUnderflow)
                } else {
                    let t = self.data_stack[l - 1];
                    self.data_stack.push(t);
                    Ok(())
                }
            },
            Opcode::Swap => {
                let l = self.data_stack.len();
                if l < 2 {
                    Err(RuntimeError::StackUnderflow)
                } else {
                    let w = self.data_stack[l - 1];
                    let v = self.data_stack[l - 2];
                    self.data_stack.pop();
                    self.data_stack.pop();
                    self.data_stack.push(w);
                    self.data_stack.push(v);
                    proof {
                        assert(self@.data =~= pre.data.update(
                            pre.data.len() - 2,
                            pre.data[pre.data.len() - 1],
                        ).update(pre.data.len() - 1, pre.data[pre.data.len() - 2]));
                    }
                    Ok(())
                }
            },
            Opcode::Ask => {
                match read_byte() {
                    Some(b) => {
                        proof {
                            inb = Some(b);
                        }
                        self.data_stack.push(b as i32);
                        Ok(())
                    },
                    None => Err(RuntimeError::IoError),
                }
            },
            Opcode::Say => {
                let l = self.data_stack.len();
                if l == 0 {
                    Err(RuntimeError::StackUnderflow)
                } else {
                    let v = self.data_stack[l - 1];
                    self.data_stack.pop();
                    let u: u32 = #[verifier::truncate] (v as u32);
                    let c: char = match char_from_u32(u) {
                        Some(c) => c,
                        None => '\u{FFFD}',
                    };
                    write_char(c);
                    self.output = Ghost(self.output@.push(OutEvent::Say(v)));
                    Ok(())
                }
            },
            Opcode::Print => {
                let l = self.data_stack.len();
                if l == 0 {
                    Err(RuntimeError::StackUnderflow)
                } else {
                    let v = self.data_stack[l - 1];
                    self.data_stack.pop();
                    write_int_line(v);
                    self.output = Ghost(self.output@.push(OutEvent::Print(v)));
                    Ok(())
                }
            },
            Opcode::While => {
                let l = self.data_stack.len();
                if l == 0 {
                    Err(RuntimeError::StackUnderflow)
                } else {
                    let g = self.data_stack[l - 1];
                    if g != 0 {
                        self.data_stack.pop();
                        let t: u32 = if g > 0 {
                            g as u32
                        } else {
                            (-(g as i64)) as u32
                        };
                        assert(t == guard_abs(g));
                        self.loop_stack.push(t);
                        Ok(())
                    } else {
                        match scan_forward(&self.code, self.pc, Opcode::While, Opcode::Until) {
                            Some(m) => {
                                self.data_stack.pop();
                                self.pc = m + 1;
                                Ok(())
                            },
                            None => Err(RuntimeError::UnmatchedMarker),
                        }
                    }
                }
            },
            Opcode::Until => {
                let l = self.loop_stack.len();
                if l == 0 {
                    Err(RuntimeError::LoopUnderflow)
                } else {
                    let t = self.loop_stack[l - 1];
                    assert(t >= 1);
                    if t == 1 {
                        self.loop_stack.pop();
                        Ok(())
                    } else {
                        match scan_backward(&self.code, self.pc - 1, Opcode::While, Opcode::Until) {
                            Some(m) => {
                                self.loop_stack.pop();
                                self.loop_stack.push(t - 1);
                                self.pc = m + 1;
                                proof {
                                    assert(self@.loops =~= pre.loops.update(
                                        pre.loops.len() - 1,
                                        (t - 1) as u32,
                                    ));
                                }
                                Ok(())
                            },
                            None => Err(RuntimeError::UnmatchedMarker),
                        }
                    }
                }
            },
            Opcode::Let => {
                let l = self.data_stack.len();
                if l == 0 {
                    Err(RuntimeError::StackUnderflow)
                } else {
                    match scan_forward(&self.code, self.pc, Opcode::Let, Opcode::End) {
                        Some(m) => {
                            let k = self.data_stack[l - 1];
                            self.data_stack.pop();
                            self.dictionary.insert(k, self.pc);
                            self.pc = m + 1;
                            Ok(())
                        },
                        None => Err(RuntimeError::UnmatchedMarker),
                    }
                }
            },
            Opcode::End | Opcode::Ret => {
                match self.call_stack.pop() {
                    Some(ret) => {
                        self.pc = ret;
                    },
                    None => {
                        self.pc = usize::MAX;
                    },
                }
                Ok(())
            },
            Opcode::Call => {
                let l = self.data_stack.len();
                if l == 0 {
                    Err(RuntimeError::StackUnderflow)
                } else {
                    let k = self.data_stack[l - 1];
                    self.data_stack.pop();
                    let target: Option<usize> = match self.dictionary.get(&k) {
                        Some(t) => Some(*t),
                        None => None,
                    };
                    match target {
                        Some(t) => {
                            self.call_stack.push(self.pc);
                            self.pc = t;
                        },
                        None => {},
                    }
                    Ok(())
                }
            },
            Opcode::Halt => {
                self.pc = usize::MAX;
                Ok(())
            },
        };
        proof {
            assert(self@ =~= step_spec(pre, inb).state);
            assert(err_of(r) == step_spec(pre, inb).err);
            if pre.code[pre.pc as int] != Opcode::Ask {
                assert((StepRes { state: self@, err: err_of(r) }) == step_spec(pre, None));
            }
            lemma_step_wf(pre, inb);
        }
        r
    }

    /// Executes from the current instruction pointer until the pointer
    /// leaves the code, an instruction fails, or the step budget runs out;
    /// the budget is far past anything reachable in practice. The final
    /// state is exactly a `run_n` trace from the starting state.
    pub fn run(&mut self) -> (r: Result<(), RuntimeError>)
        requires
            old(self).wf(),
        ensures
            final(self).wf(),
            final(self)@.code == old(self)@.code,
            r is Ok ==> exists|ins: Seq<Option<u8>>|
                #[trigger] run_n(old(self)@, ins, ins.len()) == (StepRes {
                    state: final(self)@,
                    err: None,
                }) && (final(self)@.pc >= final(self)@.code.len() || ins.len() == RUN_FUEL as nat),
            r matches Err(e) ==> exists|ins: Seq<Option<u8>>|
                #[trigger] run_n(old(self)@, ins, ins.len()) == (StepRes {
                    state: final(self)@,
                    err: Some(e),
                }),
    {
        let ghost mut ins: Seq<Option<u8>> = Seq::empty();
        let mut fuel: u64 = RUN_FUEL;
        proof {
            assert(run_n(old(self)@, ins, 0) == (StepRes { state: self@, err: None }));
        }
        while self.pc < self.code.len() && fuel > 0
            invariant
                self.wf(),
                ins.len() + fuel == RUN_FUEL as nat,
                run_n(old(self)@, ins, ins.len()) == (StepRes { state: self@, err: None }),
                self@.code == old(self)@.code,
            decreases fuel,
        {
            let ghost mid = self@;
            let r = self.step();
            proof {
                let b = choose|b: Option<u8>|
                    (StepRes { state: self@, err: err_of(r) }) == #[trigger] step_spec(mid, b);
                lemma_run_n_snoc(old(self)@, ins, b);
                ins = ins.push(b);
            }
            fuel = fuel - 1;
            if let Err(e) = r {
                return Err(e);
            }
        }
        Ok(())
    }
}

} // verus!

