use vstd::prelude::*;

use crate::opcode::Opcode;
use crate::parser::digit_fold_op;
use crate::parser::digit_push_op;
use crate::RuntimeError;

verus! {

/// One value handed to the console while the machine runs.
pub enum OutEvent {
    /// A value printed as a single code point.
    Say(i32),
    /// A value printed in decimal followed by a line break.
    Print(i32),
}

/// The mathematical state of the virtual machine: the loaded code, the
/// instruction pointer, the procedure dictionary, the three stacks, and the
/// values handed to the console so far.
#[verifier::ext_equal]
pub ghost struct VmState {
    pub code: Seq<Opcode>,
    pub pc: nat,
    pub dict: Map<i32, usize>,
    pub call: Seq<usize>,
    pub loops: Seq<u32>,
    pub data: Seq<i32>,
    pub out: Seq<OutEvent>,
}

/// The outcome of executing one instruction: the state afterwards and the
/// error, if the instruction failed.
#[verifier::ext_equal]
pub ghost struct StepRes {
    pub state: VmState,
    pub err: Option<RuntimeError>,
}

/// The distinguished past-the-end instruction pointer that ends a run.
pub open spec fn halt_pc() -> nat {
    usize::MAX as nat
}

impl VmState {
    /// Every active loop holds at least one remaining pass.
    pub open spec fn wf(self) -> bool {
        forall|i: int| 0 <= i < self.loops.len() ==> self.loops[i] >= 1
    }

    /// The state of a machine that has just loaded `code`.
    pub open spec fn init(code: Seq<Opcode>) -> VmState {
        VmState {
            code: code,
            pc: 0,
            dict: Map::empty(),
            call: Seq::empty(),
            loops: Seq::empty(),
            data: Seq::empty(),
            out: Seq::empty(),
        }
    }
}

/// The digit pushed by a push instruction; meaningful only on push opcodes.
pub open spec fn push_value(op: Opcode) -> i32 {
    match op {
        Opcode::Push0 => 0,
        Opcode::Push1 => 1,
        Opcode::Push2 => 2,
        Opcode::Push3 => 3,
        Opcode::Push4 => 4,
        Opcode::Push5 => 5,
        Opcode::Push6 => 6,
        Opcode::Push7 => 7,
        Opcode::Push8 => 8,
        Opcode::Push9 => 9,
        _ => 0,
    }
}

pub open spec fn is_push(op: Opcode) -> bool {
    match op {
        Opcode::Push0 | Opcode::Push1 | Opcode::Push2 | Opcode::Push3 | Opcode::Push4
        | Opcode::Push5 | Opcode::Push6 | Opcode::Push7 | Opcode::Push8 | Opcode::Push9 => true,
        _ => false,
    }
}

pub open spec fn is_unary(op: Opcode) -> bool {
    match op {
        Opcode::Fold0 | Opcode::Fold1 | Opcode::Fold2 | Opcode::Fold3 | Opcode::Fold4
        | Opcode::Fold5 | Opcode::Fold6 | Opcode::Fold7 | Opcode::Fold8 | Opcode::Fold9
        | Opcode::Neg | Opcode::BitNot => true,
        _ => false,
    }
}

pub open spec fn is_binary(op: Opcode) -> bool {
    match op {
        Opcode::Add | Opcode::Sub | Opcode::Mul | Opcode::Div | Opcode::Rem | Opcode::Eq
        | Opcode::Gt | Opcode::Lt | Opcode::BitAnd | Opcode::BitXor | Opcode::BitOr
        | Opcode::BitShl | Opcode::BitShr => true,
        _ => false,
    }
}

/// One more decimal digit folded onto a running literal, with the wrapping
/// semantics of 32-bit arithmetic.
pub open spec fn fold_step(t: i32, d: i32) -> i32 {
    vstd::wrapping::i32_specs::wrapping_add(vstd::wrapping::i32_specs::wrapping_mul(t, 10), d)
}

/// Bitwise complement, written through two's-complement arithmetic.
pub open spec fn bit_not(t: i32) -> i32 {
    (-1 - t) as i32
}

pub open spec fn unary_result(op: Opcode, t: i32) -> i32 {
    match op {
        Opcode::Fold0 => fold_step(t, 0),
        Opcode::Fold1 => fold_step(t, 1),
        Opcode::Fold2 => fold_step(t, 2),
        Opcode::Fold3 => fold_step(t, 3),
        Opcode::Fold4 => fold_step(t, 4),
        Opcode::Fold5 => fold_step(t, 5),
        Opcode::Fold6 => fold_step(t, 6),
        Opcode::Fold7 => fold_step(t, 7),
        Opcode::Fold8 => fold_step(t, 8),
        Opcode::Fold9 => fold_step(t, 9),
        Opcode::Neg => vstd::wrapping::i32_specs::wrapping_sub(0, t),
        Opcode::BitNot => bit_not(t),
        _ => t,
    }
}

/// The shift distance actually used by the shift instructions: the low five
/// bits of the operand, as 32-bit shifts use them.
pub open spec fn shift_amount(w: i32) -> u32 {
    match w.checked_rem(32) {
        Some(t) => if t < 0 {
            (t + 32) as u32
        } else {
            t as u32
        },
        None => 0,
    }
}

/// What a binary instruction makes of its two operands, `v` below `w`, or
/// the error it fails with.
pub open spec fn binary_result(op: Opcode, v: i32, w: i32) -> Result<i32, RuntimeError> {
    match op {
        Opcode::Add => Ok(vstd::wrapping::i32_specs::wrapping_add(v, w)),
        Opcode::Sub => Ok(vstd::wrapping::i32_specs::wrapping_sub(v, w)),
        Opcode::Mul => Ok(vstd::wrapping::i32_specs::wrapping_mul(v, w)),
        Opcode::Div => match v.checked_div(w) {
            Some(r) => Ok(r),
            None => Err(
                if w == 0 {
                    RuntimeError::DivisionByZero
                } else {
                    RuntimeError::DivisionOverflow
                },
            ),
        },
        Opcode::Rem => match v.checked_rem(w) {
            Some(r) => Ok(r),
            None => Err(
                if w == 0 {
                    RuntimeError::DivisionByZero
                } else {
                    RuntimeError::DivisionOverflow
                },
            ),
        },
        Opcode::Eq => Ok(if v == w { 1 } else { 0 }),
        Opcode::Gt => Ok(if v > w { 1 } else { 0 }),
        Opcode::Lt => Ok(if v < w { 1 } else { 0 }),
        Opcode::BitAnd => Ok(v & w),
        Opcode::BitXor => Ok(v ^ w),
        Opcode::BitOr => Ok(v | w),
        Opcode::BitShl => Ok(v << shift_amount(w)),
        Opcode::BitShr => Ok(v >> shift_amount(w)),
        _ => Err(RuntimeError::StackUnderflow),
    }
}

/// The magnitude of a loop guard, the trip count of the loop it opens.
pub open spec fn guard_abs(g: i32) -> u32 {
    if g >= 0 {
        g as u32
    } else {
        (-(g as int)) as u32
    }
}

/// The index of the matching closer at or after `i`: scanning forward,
/// `depth` counts openers of the same kind not yet closed.
pub open spec fn scan_fwd(code: Seq<Opcode>, i: nat, depth: nat, opener: Opcode, closer: Opcode) -> Option<nat>
    decreases code.len() - i,
{
    if i >= code.len() {
        None
    } else if code[i as int] == closer {
        if depth == 0 {
            Some(i)
        } else {
            scan_fwd(code, i + 1, (depth - 1) as nat, opener, closer)
        }
    } else if code[i as int] == opener {
        scan_fwd(code, i + 1, depth + 1, opener, closer)
    } else {
        scan_fwd(code, i + 1, depth, opener, closer)
    }
}

/// The index of the matching opener at or before `i`: scanning backward,
/// `depth` counts closers of the same kind not yet opened.
pub open spec fn scan_back(code: Seq<Opcode>, i: int, depth: nat, opener: Opcode, closer: Opcode) -> Option<nat>
    decreases i + 1,
{
    if i < 0 {
        None
    } else if code[i] == opener {
        if depth == 0 {
            Some(i as nat)
        } else {
            scan_back(code, i - 1, (depth - 1) as nat, opener, closer)
        }
    } else if code[i] == closer {
        scan_back(code, i - 1, depth + 1, opener, closer)
    } else {
        scan_back(code, i - 1, depth, opener, closer)
    }
}

pub open spec fn step_ok(s: VmState) -> StepRes {
    StepRes { state: s, err: None }
}

/// A failing instruction mutates nothing; only the instruction pointer has
/// already moved past it.
pub open spec fn step_err(s: VmState, pc1: nat, e: RuntimeError) -> StepRes {
    StepRes { state: VmState { pc: pc1, ..s }, err: Some(e) }
}

/// One fetch-decode-execute step from `s`, which must have its instruction
/// pointer inside the code. `input` is the byte the input instruction read,
/// `None` when the read failed; every other instruction ignores it.
pub open spec fn step_spec(s: VmState, input: Option<u8>) -> StepRes {
    let op = s.code[s.pc as int];
    let pc1 = s.pc + 1;
    if is_push(op) {
        step_ok(VmState { pc: pc1, data: s.data.push(push_value(op)), ..s })
    } else if is_unary(op) {
        if s.data.len() == 0 {
            step_err(s, pc1, RuntimeError::StackUnderflow)
        } else {
            step_ok(
                VmState {
                    pc: pc1,
                    data: s.data.update(s.data.len() - 1, unary_result(op, s.data.last())),
                    ..s
                },
            )
        }
    } else if is_binary(op) {
        if s.data.len() < 2 {
            step_err(s, pc1, RuntimeError::StackUnderflow)
        } else {
            let v = s.data[s.data.len() - 2];
            let w = s.data[s.data.len() - 1];
            match binary_result(op, v, w) {
                Ok(r) => step_ok(
                    VmState { pc: pc1, data: s.data.subrange(0, s.data.len() - 2).push(r), ..s },
                ),
                Err(e) => step_err(s, pc1, e),
            }
        }
    } else {
        match op {
            Opcode::Pop => if s.data.len() == 0 {
                step_err(s, pc1, RuntimeError::StackUnderflow)
            } else {
                step_ok(VmState { pc: pc1, data: s.data.drop_last(), ..s })
            },
            Opcode::Dup => if s.data.len() == 0 {
                step_err(s, pc1, RuntimeError::StackUnderflow)
            } else {
                step_ok(VmState { pc: pc1, data: s.data.push(s.data.last()), ..s })
            },
            Opcode::Swap => if s.data.len() < 2 {
                step_err(s, pc1, RuntimeError::StackUnderflow)
            } else {
                let l = s.data.len();
                step_ok(
                    VmState {
                        pc: pc1,
                        data: s.data.update(l - 2, s.data[l - 1]).update(l - 1, s.data[l - 2]),
                        ..s
                    },
                )
            },
            Opcode::Ask => match input {
                Some(b) => step_ok(VmState { pc: pc1, data: s.data.push(b as i32), ..s }),
                None => step_err(s, pc1, RuntimeError::IoError),
            },
            Opcode::Say => if s.data.len() == 0 {
                step_err(s, pc1, RuntimeError::StackUnderflow)
            } else {
                step_ok(
                    VmState {
                        pc: pc1,
                        data: s.data.drop_last(),
                        out: s.out.push(OutEvent::Say(s.data.last())),
                        ..s
                    },
                )
            },
            Opcode::Print => if s.data.len() == 0 {
                step_err(s, pc1, RuntimeError::StackUnderflow)
            } else {
                step_ok(
                    VmState {
                        pc: pc1,
                        data: s.data.drop_last(),
                        out: s.out.push(OutEvent::Print(s.data.last())),
                        ..s
                    },
                )
            },
            Opcode::While => if s.data.len() == 0 {
                step_err(s, pc1, RuntimeError::StackUnderflow)
            } else {
                let g = s.data.last();
                if g != 0 {
                    step_ok(
                        VmState {
                            pc: pc1,
                            data: s.data.drop_last(),
                            loops: s.loops.push(guard_abs(g)),
                            ..s
                        },
                    )
                } else {
                    match scan_fwd(s.code, pc1, 0, Opcode::While, Opcode::Until) {
                        Some(m) => step_ok(
                            VmState { pc: m + 1, data: s.data.drop_last(), ..s },
                        ),
                        None => step_err(s, pc1, RuntimeError::UnmatchedMarker),
                    }
                }
            },
            Opcode::Until => if s.loops.len() == 0 {
                step_err(s, pc1, RuntimeError::LoopUnderflow)
            } else {
                let t = s.loops.last();
                if t <= 1 {
                    step_ok(VmState { pc: pc1, loops: s.loops.drop_last(), ..s })
                } else {
                    match scan_back(s.code, s.pc - 1, 0, Opcode::While, Opcode::Until) {
                        Some(m) => step_ok(
                            VmState {
                                pc: m + 1,
                                loops: s.loops.update(s.loops.len() - 1, (t - 1) as u32),
                                ..s
                            },
                        ),
                        None => step_err(s, pc1, RuntimeError::UnmatchedMarker),
                    }
                }
            },
            Opcode::Let => if s.data.len() == 0 {
                step_err(s, pc1, RuntimeError::StackUnderflow)
            } else {
                match scan_fwd(s.code, pc1, 0, Opcode::Let, Opcode::End) {
                    Some(m) => step_ok(
                        VmState {
                            pc: m + 1,
                            data: s.data.drop_last(),
                            dict: s.dict.insert(s.data.last(), pc1 as usize),
                            ..s
                        },
                    ),
                    None => step_err(s, pc1, RuntimeError::UnmatchedMarker),
                }
            },
            Opcode::End | Opcode::Ret => if s.call.len() == 0 {
                step_ok(VmState { pc: halt_pc(), ..s })
            } else {
                step_ok(
                    VmState { pc: s.call.last() as nat, call: s.call.drop_last(), ..s },
                )
            },
            Opcode::Call => if s.data.len() == 0 {
                step_err(s, pc1, RuntimeError::StackUnderflow)
            } else {
                let k = s.data.last();
                if s.dict.contains_key(k) {
                    step_ok(
                        VmState {
                            pc: s.dict[k] as nat,
                            data: s.data.drop_last(),
                            call: s.call.push(pc1 as usize),
                            ..s
                        },
                    )
                } else {
                    step_ok(VmState { pc: pc1, data: s.data.drop_last(), ..s })
                }
            },
            Opcode::Halt => step_ok(VmState { pc: halt_pc(), ..s }),
            _ => step_ok(s),
        }
    }
}

/// One step preserves well-formedness and never rewrites the code.
pub proof fn lemma_step_wf(s: VmState, input: Option<u8>)
    requires
        s.wf(),
        s.pc < s.code.len(),
    ensures
        step_spec(s, input).state.wf(),
        step_spec(s, input).state.code == s.code,
{
    let r = step_spec(s, input);
    let op = s.code[s.pc as int];
    if op == Opcode::While && s.data.len() > 0 && s.data.last() != 0 {
        assert(guard_abs(s.data.last()) >= 1);
        assert forall|i: int| 0 <= i < r.state.loops.len() implies r.state.loops[i] >= 1 by {
            if i < s.loops.len() {
                assert(s.loops[i] >= 1);
            }
        }
    } else if op == Opcode::Until && s.loops.len() > 0 && s.loops.last() > 1 {
        assert forall|i: int| 0 <= i < r.state.loops.len() implies r.state.loops[i] >= 1 by {
            if i < s.loops.len() - 1 {
                assert(s.loops[i] >= 1);
            }
        }
    } else {
        assert(r.state.loops == s.loops || r.state.loops == s.loops.drop_last());
        assert forall|i: int| 0 <= i < r.state.loops.len() implies r.state.loops[i] >= 1 by {
            assert(s.loops[i] >= 1);
        }
    }
}

/// Up to `n` steps from `s`, stopping early when the instruction pointer
/// leaves the code or a step fails. `inputs` holds the bytes read, oldest
/// first.
pub open spec fn run_n(s: VmState, inputs: Seq<Option<u8>>, n: nat) -> StepRes
    decreases n,
{
    if n == 0 || s.pc >= s.code.len() {
        StepRes { state: s, err: None }
    } else {
        let first: Option<u8> = if inputs.len() > 0 {
            inputs[0]
        } else {
            None
        };
        let r = step_spec(s, first);
        if r.err is Some {
            r
        } else {
            run_n(r.state, inputs.skip(1), (n - 1) as nat)
        }
    }
}

/// Appending one more input extends an error-free, unfinished run by
/// exactly one step.
pub proof fn lemma_run_n_snoc(s: VmState, inputs: Seq<Option<u8>>, b: Option<u8>)
    requires
        run_n(s, inputs, inputs.len()).err is None,
        run_n(s, inputs, inputs.len()).state.pc < run_n(s, inputs, inputs.len()).state.code.len(),
    ensures
        run_n(s, inputs.push(b), inputs.len() + 1) == step_spec(
            run_n(s, inputs, inputs.len()).state,
            b,
        ),
    decreases inputs.len(),
{
    let mid = run_n(s, inputs, inputs.len()).state;
    if inputs.len() == 0 {
        assert(mid == s);
        let ext = inputs.push(b);
        assert(ext[0] == b);
        let r = step_spec(s, b);
        if r.err is None {
            assert(run_n(r.state, ext.skip(1), 0) == StepRes { state: r.state, err: None });
            assert(StepRes { state: r.state, err: None } =~= r);
        }
    } else {
        if s.pc >= s.code.len() {
            assert(mid == s);
            assert(false);
        } else {
            let first = inputs[0];
            let r1 = step_spec(s, first);
            assert(r1.err is None);
            lemma_run_n_snoc(r1.state, inputs.skip(1), b);
            let ext = inputs.push(b);
            assert(ext[0] == first);
            assert(ext.skip(1) =~= inputs.skip(1).push(b));
            assert(ext.skip(1).len() == inputs.len());
        }
    }
}

/// Ten to the `n`th power.
pub open spec fn pow10(n: nat) -> int
    decreases n,
{
    if n == 0 {
        1
    } else {
        10 * pow10((n - 1) as nat)
    }
}

pub proof fn lemma_pow10_pos(n: nat)
    ensures
        pow10(n) >= 1,
    decreases n,
{
    if n > 0 {
        lemma_pow10_pos((n - 1) as nat);
    }
}

/// The value of a digit string read as a decimal numeral.
pub open spec fn digits_value(ds: Seq<i32>) -> int
    decreases ds.len(),
{
    if ds.len() == 0 {
        0
    } else {
        digits_value(ds.drop_last()) * 10 + ds.last()
    }
}

pub proof fn lemma_digits_value_bounds(ds: Seq<i32>)
    requires
        forall|i: int| 0 <= i < ds.len() ==> 0 <= #[trigger] ds[i] <= 9,
    ensures
        0 <= digits_value(ds) < pow10(ds.len()),
    decreases ds.len(),
{
    if ds.len() == 0 {
    } else {
        lemma_digits_value_bounds(ds.drop_last());
        assert(ds.last() == ds[ds.len() - 1]);
    }
}

/// A decimal numeral decomposed at its first digit.
pub proof fn lemma_digits_value_front(ds: Seq<i32>)
    requires
        ds.len() > 0,
    ensures
        digits_value(ds) == ds[0] * pow10((ds.len() - 1) as nat) + digits_value(ds.skip(1)),
    decreases ds.len(),
{
    if ds.len() == 1 {
        assert(ds.drop_last() =~= Seq::<i32>::empty());
        assert(ds.skip(1) =~= Seq::<i32>::empty());
    } else {
        let dl = ds.drop_last();
        lemma_digits_value_front(dl);
        assert(dl.skip(1) =~= ds.skip(1).drop_last());
        assert(ds.skip(1).last() == ds.last());
        let a = ds[0] as int;
        let p = pow10((ds.len() - 2) as nat);
        let b = digits_value(dl.skip(1));
        assert(dl[0] == ds[0]);
        assert(digits_value(dl) == a * p + b);
        assert(digits_value(ds) == digits_value(dl) * 10 + ds.last());
        assert(digits_value(ds.skip(1)) == b * 10 + ds.last());
        assert((a * p + b) * 10 == a * (10 * p) + b * 10) by (nonlinear_arith);
        assert(pow10((ds.len() - 1) as nat) == 10 * p);
        assert(digits_value(ds) == a * pow10((ds.len() - 1) as nat) + digits_value(ds.skip(1)));
    }
}

/// Folding one digit onto a nonnegative accumulator is exact while the
/// result stays in 32-bit range.
pub proof fn lemma_fold_step_exact(t: i32, d: i32)
    requires
        0 <= d <= 9,
        t >= 0,
        t * 10 + d <= i32::MAX,
    ensures
        fold_step(t, d) == t * 10 + d,
{
    let x = t as int * 10;
    vstd::arithmetic::div_mod::lemma_small_mod(x as nat, 0x1_0000_0000nat);
    assert(vstd::wrapping::i32_specs::wrapping_mul(t, 10) == x as i32);
}

/// Law: folding the digits `ds` onto a nonnegative top-of-stack value `t`
/// runs without error and replaces the top with the decimal value
/// `t*10^n + ds`, as long as that value fits the 32-bit range; nothing else
/// in the machine changes, whatever bytes the input holds.
pub proof fn lemma_fold_run(s: VmState, ds: Seq<i32>, inputs: Seq<Option<u8>>)
    requires
        s.data.len() >= 1,
        s.data.last() >= 0,
        forall|i: int| 0 <= i < ds.len() ==> 0 <= #[trigger] ds[i] <= 9,
        s.pc + ds.len() <= s.code.len(),
        forall|i: int| 0 <= i < ds.len() ==> s.code[s.pc + i] == digit_fold_op(#[trigger] ds[i]),
        s.data.last() * pow10(ds.len()) + digits_value(ds) <= i32::MAX,
    ensures
        run_n(s, inputs, ds.len()).err is None,
        run_n(s, inputs, ds.len()).state == (VmState {
            pc: s.pc + ds.len(),
            data: s.data.update(
                s.data.len() - 1,
                (s.data.last() * pow10(ds.len()) + digits_value(ds)) as i32,
            ),
            ..s
        }),
    decreases ds.len(),
{
    let t = s.data.last();
    let n = ds.len();
    lemma_digits_value_bounds(ds);
    lemma_pow10_pos(n);
    if n == 0 {
        assert(s.data.update(s.data.len() - 1, t) =~= s.data);
        assert(run_n(s, inputs, 0).state =~= (VmState {
            pc: s.pc + 0,
            data: s.data.update(s.data.len() - 1, (t * pow10(0) + 0) as i32),
            ..s
        }));
    } else {
        let d = ds[0];
        let rest = ds.skip(1);
        lemma_digits_value_front(ds);
        lemma_digits_value_bounds(rest);
        lemma_pow10_pos((n - 1) as nat);
        let p1 = pow10((n - 1) as nat);
        let v_all = t * pow10(n) + digits_value(ds);
        // The value after the first fold, still nonnegative and in range.
        let t1i = t * 10 + d;
        assert(t1i * p1 + digits_value(rest) == v_all) by {
            assert(t * (10 * p1) == (t * 10) * p1) by (nonlinear_arith);
            assert((t * 10) * p1 + d * p1 == (t * 10 + d) * p1) by (nonlinear_arith);
        }
        assert(t1i <= t1i * p1) by (nonlinear_arith)
            requires
                t1i >= 0,
                p1 >= 1,
        ;
        assert(t1i <= i32::MAX);
        lemma_fold_step_exact(t, d);
        let op = s.code[s.pc as int];
        assert(op == digit_fold_op(d));
        assert(is_unary(op));
        assert(unary_result(op, t) == fold_step(t, d));
        let first: Option<u8> = if inputs.len() > 0 {
            inputs[0]
        } else {
            None
        };
        let r1 = step_spec(s, first);
        let s1 = r1.state;
        assert(r1.err is None);
        assert(s1.data.last() == t1i as i32);
        assert(s1.data.len() == s.data.len());
        assert forall|i: int| 0 <= i < rest.len() implies s1.code[s1.pc + i] == digit_fold_op(
            #[trigger] rest[i],
        ) by {
            assert(rest[i] == ds[i + 1]);
            assert(s.code[s.pc + (i + 1)] == digit_fold_op(ds[i + 1]));
        }
        assert forall|i: int| 0 <= i < rest.len() implies 0 <= #[trigger] rest[i] <= 9 by {
            assert(rest[i] == ds[i + 1]);
        }
        lemma_fold_run(s1, rest, inputs.skip(1));
        assert(run_n(s, inputs, n) == run_n(s1, inputs.skip(1), (n - 1) as nat));
        assert(s1.data.update(s.data.len() - 1, v_all as i32) =~= s.data.update(
            s.data.len() - 1,
            v_all as i32,
        ));
        assert(run_n(s, inputs, n).state =~= (VmState {
            pc: s.pc + n,
            data: s.data.update(s.data.len() - 1, v_all as i32),
            ..s
        }));
    }
}

/// Law: a multi-digit literal — a push of digit `d` followed by folds of
/// the digits `ds` — runs without error and pushes exactly
/// `d*10^n + d1*10^(n-1) + ... + dn` onto the operand stack, as long as the
/// value fits the 32-bit range; nothing else in the machine changes.
pub proof fn lemma_literal_run(s: VmState, d: i32, ds: Seq<i32>, inputs: Seq<Option<u8>>)
    requires
        0 <= d <= 9,
        forall|i: int| 0 <= i < ds.len() ==> 0 <= #[trigger] ds[i] <= 9,
        s.pc + 1 + ds.len() <= s.code.len(),
        s.code[s.pc as int] == digit_push_op(d),
        forall|i: int| 0 <= i < ds.len() ==> s.code[s.pc + 1 + i] == digit_fold_op(
            #[trigger] ds[i],
        ),
        d * pow10(ds.len()) + digits_value(ds) <= i32::MAX,
    ensures
        run_n(s, inputs, ds.len() + 1).err is None,
        run_n(s, inputs, ds.len() + 1).state == (VmState {
            pc: s.pc + 1 + ds.len(),
            data: s.data.push((d * pow10(ds.len()) + digits_value(ds)) as i32),
            ..s
        }),
{
    let op = s.code[s.pc as int];
    assert(is_push(op));
    assert(push_value(op) == d);
    let first: Option<u8> = if inputs.len() > 0 {
        inputs[0]
    } else {
        None
    };
    let r1 = step_spec(s, first);
    let s1 = r1.state;
    assert(r1.err is None);
    assert(s1.data == s.data.push(d));
    assert(s1.data.last() == d);
    assert forall|i: int| 0 <= i < ds.len() implies s1.code[s1.pc + i] == digit_fold_op(
        #[trigger] ds[i],
    ) by {
        assert(s.code[s.pc + 1 + i] == digit_fold_op(ds[i]));
    }
    lemma_fold_run(s1, ds, inputs.skip(1));
    assert(run_n(s, inputs, ds.len() + 1) == run_n(s1, inputs.skip(1), ds.len()));
    let v_all = d * pow10(ds.len()) + digits_value(ds);
    assert(s.data.push(d).update(s.data.len() as int, v_all as i32) =~= s.data.push(
        v_all as i32,
    ));
    assert(run_n(s, inputs, ds.len() + 1).state =~= (VmState {
        pc: s.pc + 1 + ds.len(),
        data: s.data.push(v_all as i32),
        ..s
    }));
}

/// Law: a call whose key is not in the dictionary does nothing beyond
/// consuming the key it popped: the rest of the operand stack, the output,
/// the dictionary and both control stacks are untouched, and execution
/// continues with the next instruction.
pub proof fn lemma_unknown_call_is_noop(s: VmState, input: Option<u8>)
    requires
        s.pc < s.code.len(),
        s.code[s.pc as int] == Opcode::Call,
        s.data.len() >= 1,
        !s.dict.contains_key(s.data.last()),
    ensures
        step_spec(s, input) == step_ok(VmState { pc: s.pc + 1, data: s.data.drop_last(), ..s }),
{
}

/// Law: a loop whose guard is zero skips to just past its matching
/// loop-exit marker; the body contributes nothing — no trip count is
/// pushed, and only the guard leaves the operand stack.
pub proof fn lemma_zero_guard_skips_loop(s: VmState, input: Option<u8>)
    requires
        s.pc < s.code.len(),
        s.code[s.pc as int] == Opcode::While,
        s.data.len() >= 1,
        s.data.last() == 0,
        scan_fwd(s.code, s.pc + 1, 0, Opcode::While, Opcode::Until) is Some,
    ensures
        ({
            let m = scan_fwd(s.code, s.pc + 1, 0, Opcode::While, Opcode::Until).unwrap();
            step_spec(s, input) == step_ok(
                VmState { pc: m + 1, data: s.data.drop_last(), ..s },
            )
        }),
{
}

/// Law: a loop whose guard is not zero is entered: the magnitude of the
/// guard becomes the trip count of a new active loop, and execution falls
/// through into the body. Together with `lemma_loop_exit_counts_down` this
/// makes a loop entered with guard `g` pass through its body exactly `|g|`
/// times, whatever the body does to the operand stack.
pub proof fn lemma_nonzero_guard_enters_loop(s: VmState, input: Option<u8>)
    requires
        s.pc < s.code.len(),
        s.code[s.pc as int] == Opcode::While,
        s.data.len() >= 1,
        s.data.last() != 0,
    ensures
        step_spec(s, input) == step_ok(
            VmState {
                pc: s.pc + 1,
                data: s.data.drop_last(),
                loops: s.loops.push(guard_abs(s.data.last())),
                ..s
            },
        ),
{
}

/// Law: a loop-exit instruction with an active loop either closes the loop
/// — one pass left: the trip count is popped and execution falls through —
/// or jumps back to just past the matching loop-enter marker with the count
/// decremented by one.
pub proof fn lemma_loop_exit_counts_down(s: VmState, input: Option<u8>)
    requires
        s.pc < s.code.len(),
        s.code[s.pc as int] == Opcode::Until,
        s.loops.len() >= 1,
        s.wf(),
    ensures
        s.loops.last() == 1 ==> step_spec(s, input) == step_ok(
            VmState { pc: s.pc + 1, loops: s.loops.drop_last(), ..s },
        ),
        s.loops.last() > 1 && scan_back(s.code, s.pc - 1, 0, Opcode::While, Opcode::Until)
            is Some ==> step_spec(s, input) == step_ok(
            VmState {
                pc: scan_back(s.code, s.pc - 1, 0, Opcode::While, Opcode::Until).unwrap() + 1,
                loops: s.loops.update(s.loops.len() - 1, (s.loops.last() - 1) as u32),
                ..s
            },
        ),
{
}

/// Law: a failing instruction performs no mutation: the stacks, the
/// dictionary and the output are exactly as they were; only the instruction
/// pointer has moved past the failing instruction.
pub proof fn lemma_error_preserves_state(s: VmState, input: Option<u8>)
    requires
        s.pc < s.code.len(),
        step_spec(s, input).err is Some,
    ensures
        step_spec(s, input).state == (VmState { pc: s.pc + 1, ..s }),
{
}

} // verus!
