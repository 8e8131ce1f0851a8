//! The stack machine.  Integer arithmetic is computed here, with explicit
//! division-by-zero, negative-exponent and overflow failures.  Floating
//! point is not computed here: a float value is carried as its IEEE-754 bit
//! pattern, and whenever a float must be produced — a literal pushed or a
//! binary operation with a float operand — the machine pauses and hands the
//! driver a request; `resume` accepts the computed bits and continues.
//! Negating a float is exact on the bits (the sign bit flips), so it needs
//! no request.

use vstd::prelude::*;

use crate::bytecode::{BinOpCode, ByteCode, ByteCodeS, ByteCodes, RuntimeError, UnaryOpCode, Value};

verus! {

/// The machine's mathematical state.
#[verifier::ext_equal]
pub struct VmS {
    pub codes: Seq<ByteCodeS>,
    pub pc: int,
    pub stack: Seq<Value>,
    pub vals: Seq<Value>,
    pub pending: bool,
}

/// The model of a request to the driver.
pub enum FloatReqS {
    /// The bits the literal's lexeme denotes.
    Lit(Seq<char>),
    /// The bits of `a op b`, each integer operand promoted to float.
    Bin(BinOpCode, Value, Value),
}

/// A request to the driver: what only floating point can answer.
pub enum FloatReq {
    Lit(String),
    Bin(BinOpCode, Value, Value),
}

impl View for FloatReq {
    type V = FloatReqS;

    open spec fn view(&self) -> FloatReqS {
        match self {
            FloatReq::Lit(s) => FloatReqS::Lit(s@),
            FloatReq::Bin(op, a, b) => FloatReqS::Bin(*op, *a, *b),
        }
    }
}

/// What a run step reports: finished, or paused on a request.
pub enum VmOutcome {
    Done,
    Need(FloatReq),
}

pub open spec fn abs_i(a: int) -> int {
    if a < 0 {
        -a
    } else {
        a
    }
}

/// Truncating division: the quotient of the magnitudes, negated when the
/// signs differ (this rounds toward zero).
pub open spec fn div_t(a: int, b: int) -> int {
    let q = abs_i(a) / abs_i(b);
    if (a < 0) != (b < 0) {
        -q
    } else {
        q
    }
}

pub open spec fn in_i64(x: int) -> bool {
    i64::MIN <= x <= i64::MAX
}

/// Exponentiation by repeated multiplication, failing at the first product
/// outside the 64-bit range.
pub open spec fn pow_checked(a: i64, e: nat) -> Result<i64, RuntimeError>
    decreases e,
{
    if e == 0 {
        Ok(1i64)
    } else {
        match pow_checked(a, (e - 1) as nat) {
            Ok(p) => if in_i64(p * a) {
                Ok((p * a) as i64)
            } else {
                Err(RuntimeError::IntegerOverflow)
            },
            Err(er) => Err(er),
        }
    }
}

/// The integer result of a binary operation, or its failure.
pub open spec fn int_bin(op: BinOpCode, a: i64, b: i64) -> Result<i64, RuntimeError> {
    match op {
        BinOpCode::Add => if in_i64(a + b) {
            Ok((a + b) as i64)
        } else {
            Err(RuntimeError::IntegerOverflow)
        },
        BinOpCode::Sub => if in_i64(a - b) {
            Ok((a - b) as i64)
        } else {
            Err(RuntimeError::IntegerOverflow)
        },
        BinOpCode::Mul => if in_i64(a * b) {
            Ok((a * b) as i64)
        } else {
            Err(RuntimeError::IntegerOverflow)
        },
        BinOpCode::Div => if b == 0 {
            Err(RuntimeError::DivisionByZero)
        } else if a == i64::MIN && b == -1 {
            Err(RuntimeError::IntegerOverflow)
        } else {
            Ok(div_t(a as int, b as int) as i64)
        },
        BinOpCode::Pow => if b < 0 {
            Err(RuntimeError::NegativeIntegerExponent)
        } else {
            pow_checked(a, b as nat)
        },
    }
}

/// IEEE-754 negation is exactly a sign-bit flip.
pub open spec fn float_neg_bits(bits: u64) -> u64 {
    bits ^ 0x8000_0000_0000_0000u64
}

/// The state after an instruction computed and recorded `v`.
pub open spec fn push_state(s: VmS, v: Value) -> VmS {
    VmS {
        codes: s.codes,
        pc: s.pc + 1,
        stack: s.stack.push(v),
        vals: s.vals.push(v),
        pending: false,
    }
}

/// The state paused on a request, its operands already popped.
pub open spec fn pause_state(s: VmS, stack: Seq<Value>) -> VmS {
    VmS { codes: s.codes, pc: s.pc + 1, stack: stack, vals: s.vals, pending: true }
}

/// The state after the driver answered a request with `bits`.
pub open spec fn resume_state(s: VmS, bits: u64) -> VmS {
    VmS {
        codes: s.codes,
        pc: s.pc,
        stack: s.stack.push(Value::Float(bits)),
        vals: s.vals.push(Value::Float(bits)),
        pending: false,
    }
}

/// What running to completion, a pause, or a failure yields.
pub enum RunResS {
    Done(VmS),
    Need(VmS, FloatReqS),
    Fail(RuntimeError),
}

/// Big-step execution from a non-pending state: each instruction either
/// pushes its result, pauses on a float request, or fails.
pub open spec fn spec_run(s: VmS) -> RunResS
    decreases s.codes.len() - s.pc,
{
    if !(0 <= s.pc < s.codes.len()) {
        RunResS::Done(s)
    } else {
        match s.codes[s.pc] {
            ByteCodeS::PUSHI(i) => spec_run(push_state(s, Value::Int(i))),
            ByteCodeS::PUSHF(lit) => RunResS::Need(pause_state(s, s.stack), FloatReqS::Lit(lit)),
            ByteCodeS::BINOP(op) => if s.stack.len() < 2 {
                RunResS::Fail(RuntimeError::StackUnderflow)
            } else {
                let bv = s.stack[s.stack.len() - 1];
                let av = s.stack[s.stack.len() - 2];
                let popped = s.stack.take(s.stack.len() - 2);
                match (av, bv) {
                    (Value::Int(x), Value::Int(y)) => match int_bin(op, x, y) {
                        Ok(v) => spec_run(
                            push_state(
                                VmS {
                                    codes: s.codes,
                                    pc: s.pc,
                                    stack: popped,
                                    vals: s.vals,
                                    pending: false,
                                },
                                Value::Int(v),
                            ),
                        ),
                        Err(e) => RunResS::Fail(e),
                    },
                    _ => RunResS::Need(pause_state(s, popped), FloatReqS::Bin(op, av, bv)),
                }
            },
            ByteCodeS::UNARYOP(op) => if s.stack.len() < 1 {
                RunResS::Fail(RuntimeError::StackUnderflow)
            } else {
                let av = s.stack[s.stack.len() - 1];
                let popped = s.stack.take(s.stack.len() - 1);
                let base = VmS {
                    codes: s.codes,
                    pc: s.pc,
                    stack: popped,
                    vals: s.vals,
                    pending: false,
                };
                match op {
                    UnaryOpCode::Identity => spec_run(push_state(base, av)),
                    UnaryOpCode::Negate => match av {
                        Value::Int(x) => if x == i64::MIN {
                            RunResS::Fail(RuntimeError::IntegerOverflow)
                        } else {
                            spec_run(push_state(base, Value::Int((-x) as i64)))
                        },
                        Value::Float(bits) => spec_run(
                            push_state(base, Value::Float(float_neg_bits(bits))),
                        ),
                    },
                }
            },
        }
    }
}

/// How one run call relates the state before, the state after, and what it
/// returned.
pub open spec fn run_post(pre: VmS, post: VmS, r: Result<VmOutcome, RuntimeError>) -> bool {
    match spec_run(pre) {
        RunResS::Done(s2) => r matches Ok(VmOutcome::Done) && post == s2,
        RunResS::Need(s2, q) => match r {
            Ok(VmOutcome::Need(req)) => req@ == q && post == s2,
            _ => false,
        },
        RunResS::Fail(e) => r == Err::<VmOutcome, RuntimeError>(e),
    }
}

/// The machine: instructions, a cursor, the operand stack, the history of
/// every value produced, and whether a request is outstanding.
pub struct VM {
    pub b: ByteCodes,
    pub pc: usize,
    pub stack: Vec<Value>,
    pub val: Vec<Value>,
    pub pending: bool,
}

impl View for VM {
    type V = VmS;

    open spec fn view(&self) -> VmS {
        VmS {
            codes: self.b@,
            pc: self.pc as int,
            stack: self.stack@,
            vals: self.val@,
            pending: self.pending,
        }
    }
}

impl VM {
    /// A fresh machine over an instruction list.
    pub fn new(b: ByteCodes) -> (r: VM)
        ensures
            r@ == (VmS {
                codes: b@,
                pc: 0,
                stack: Seq::empty(),
                vals: Seq::empty(),
                pending: false,
            }),
    {
        let r = VM { b, pc: 0, stack: Vec::new(), val: Vec::new(), pending: false };
        proof {
            assert(r@ =~= (VmS {
                codes: r.b@,
                pc: 0,
                stack: Seq::empty(),
                vals: Seq::empty(),
                pending: false,
            }));
        }
        r
    }

    /// Runs until the instructions are exhausted, a float request must be
    /// answered, or a failure stops the run.
    pub fn run(&mut self) -> (r: Result<VmOutcome, RuntimeError>)
        requires
            !old(self)@.pending,
        ensures
            run_post(old(self)@, final(self)@, r),
    {
        let ghost s0 = self@;
        while self.pc < self.b.codes.len()
            invariant
                s0 == old(self)@,
                self.pending == false,
                spec_run(s0) == spec_run(self@),
            decreases self.b.codes@.len() - self.pc,
        {
            let ghost prev = self@;
            let instr_kind: u8 = match &self.b.codes[self.pc] {
                ByteCode::PUSHI(_) => 0,
                ByteCode::PUSHF(_) => 1,
                ByteCode::BINOP(_) => 2,
                ByteCode::UNARYOP(_) => 3,
            };
            proof {
                assert(prev.codes[prev.pc] == self.b.codes[self.pc as int]@);
            }
            if instr_kind == 0 {
                let iv: i64 = match &self.b.codes[self.pc] {
                    ByteCode::PUSHI(i) => *i,
                    _ => 0,
                };
                let v = Value::Int(iv);
                self.stack.push(v);
                self.val.push(v);
                self.pc = self.pc + 1;
                proof {
                    assert(self@ =~= push_state(prev, v));
                }
            } else if instr_kind == 1 {
                let lit: String = match &self.b.codes[self.pc] {
                    ByteCode::PUSHF(s) => s.clone(),
                    _ => String::new(),
                };
                self.pending = true;
                self.pc = self.pc + 1;
                proof {
                    assert(self@ =~= pause_state(prev, prev.stack));
                }
                return Ok(VmOutcome::Need(FloatReq::Lit(lit)));
            } else if instr_kind == 2 {
                let opc: BinOpCode = match &self.b.codes[self.pc] {
                    ByteCode::BINOP(c) => *c,
                    _ => BinOpCode::Add,
                };
                if self.stack.len() < 2 {
                    return Err(RuntimeError::StackUnderflow);
                }
                let bv = self.stack.pop().unwrap();
                let av = self.stack.pop().unwrap();
                proof {
                    assert(self.stack@ =~= prev.stack.take(prev.stack.len() - 2));
                    assert(bv == prev.stack[prev.stack.len() - 1]);
                    assert(av == prev.stack[prev.stack.len() - 2]);
                }
                let both_int = match (&av, &bv) {
                    (Value::Int(_), Value::Int(_)) => true,
                    _ => false,
                };
                if both_int {
                    let x: i64 = match av {
                        Value::Int(x) => x,
                        _ => 0,
                    };
                    let y: i64 = match bv {
                        Value::Int(y) => y,
                        _ => 0,
                    };
                    match int_bin_exec(opc, x, y) {
                        Ok(v) => {
                            let val = Value::Int(v);
                            self.stack.push(val);
                            self.val.push(val);
                            self.pc = self.pc + 1;
                            proof {
                                assert(self@ =~= push_state(
                                    VmS {
                                        codes: prev.codes,
                                        pc: prev.pc,
                                        stack: prev.stack.take(prev.stack.len() - 2),
                                        vals: prev.vals,
                                        pending: false,
                                    },
                                    val,
                                ));
                            }
                        },
                        Err(e) => {
                            return Err(e);
                        },
                    }
                } else {
                    self.pending = true;
                    self.pc = self.pc + 1;
                    proof {
                        assert(self@ =~= pause_state(
                            prev,
                            prev.stack.take(prev.stack.len() - 2),
                        ));
                    }
                    return Ok(VmOutcome::Need(FloatReq::Bin(opc, av, bv)));
                }
            } else {
                let opc: UnaryOpCode = match &self.b.codes[self.pc] {
                    ByteCode::UNARYOP(c) => *c,
                    _ => UnaryOpCode::Identity,
                };
                if self.stack.len() < 1 {
                    return Err(RuntimeError::StackUnderflow);
                }
                let av = self.stack.pop().unwrap();
                proof {
                    assert(self.stack@ =~= prev.stack.take(prev.stack.len() - 1));
                    assert(av == prev.stack[prev.stack.len() - 1]);
                }
                let ghost base = VmS {
                    codes: prev.codes,
                    pc: prev.pc,
                    stack: prev.stack.take(prev.stack.len() - 1),
                    vals: prev.vals,
                    pending: false,
                };
                let out: Value = match (opc, &av) {
                    (UnaryOpCode::Identity, _) => av,
                    (UnaryOpCode::Negate, Value::Int(x)) => {
                        if *x == i64::MIN {
                            return Err(RuntimeError::IntegerOverflow);
                        }
                        Value::Int(-(*x))
                    },
                    (UnaryOpCode::Negate, Value::Float(bits)) => Value::Float(
                        *bits ^ 0x8000_0000_0000_0000u64,
                    ),
                };
                self.stack.push(out);
                self.val.push(out);
                self.pc = self.pc + 1;
                proof {
                    assert(self@ =~= push_state(base, out));
                }
            }
        }
        proof {
            assert(spec_run(self@) == RunResS::Done(self@));
        }
        Ok(VmOutcome::Done)
    }

    /// Accepts the bits the driver computed for the outstanding request and
    /// continues the run.
    pub fn resume(&mut self, bits: u64) -> (r: Result<VmOutcome, RuntimeError>)
        requires
            old(self)@.pending,
        ensures
            run_post(resume_state(old(self)@, bits), final(self)@, r),
    {
        let v = Value::Float(bits);
        self.stack.push(v);
        self.val.push(v);
        self.pending = false;
        proof {
            assert(self@ =~= resume_state(old(self)@, bits));
        }
        self.run()
    }

    /// The last value produced, which a finished run leaves as the
    /// expression's result.
    pub fn result(&self) -> (r: Option<Value>)
        ensures
            r == (if self@.vals.len() > 0 {
                Some(self@.vals.last())
            } else {
                None::<Value>
            }),
    {
        if self.val.len() > 0 {
            Some(self.val[self.val.len() - 1])
        } else {
            None
        }
    }

    /// Every value produced so far, in order.
    pub fn history(&self) -> (r: &Vec<Value>)
        ensures
            r@ == self@.vals,
    {
        &self.val
    }
}

/// The integer result of a binary operation.
fn int_bin_exec(op: BinOpCode, a: i64, b: i64) -> (r: Result<i64, RuntimeError>)
    ensures
        r == int_bin(op, a, b),
{
    match op {
        BinOpCode::Add => match a.checked_add(b) {
            Some(v) => Ok(v),
            None => Err(RuntimeError::IntegerOverflow),
        },
        BinOpCode::Sub => match a.checked_sub(b) {
            Some(v) => Ok(v),
            None => Err(RuntimeError::IntegerOverflow),
        },
        BinOpCode::Mul => match a.checked_mul(b) {
            Some(v) => Ok(v),
            None => Err(RuntimeError::IntegerOverflow),
        },
        BinOpCode::Div => div_exec(a, b),
        BinOpCode::Pow => pow_exec(a, b),
    }
}

/// The magnitude of a signed value, covering `i64::MIN`.
fn mag(a: i64) -> (r: u64)
    ensures
        r as int == abs_i(a as int),
{
    if a >= 0 {
        a as u64
    } else {
        ((-(a + 1)) as u64) + 1
    }
}

/// Truncating division with explicit failures.
fn div_exec(a: i64, b: i64) -> (r: Result<i64, RuntimeError>)
    ensures
        r == int_bin(BinOpCode::Div, a, b),
{
    if b == 0 {
        return Err(RuntimeError::DivisionByZero);
    }
    if a == i64::MIN && b == -1 {
        return Err(RuntimeError::IntegerOverflow);
    }
    let ua = mag(a);
    let ub = mag(b);
    let uq = ua / ub;
    proof {
        assert(ua / ub <= ua) by (nonlinear_arith)
            requires
                ub >= 1,
        ;
        assert(ub >= 2 ==> ua / ub <= ua / 2) by (nonlinear_arith)
            requires
                ub >= 1,
        ;
    }
    let neg = (a < 0) != (b < 0);
    if neg {
        if uq == 0x8000_0000_0000_0000u64 {
            Ok(i64::MIN)
        } else {
            Ok(-(uq as i64))
        }
    } else {
        Ok(uq as i64)
    }
}

proof fn lemma_pow_checked_zero(e: nat)
    ensures
        pow_checked(0, e) == (if e == 0 {
            Ok::<i64, RuntimeError>(1)
        } else {
            Ok::<i64, RuntimeError>(0)
        }),
    decreases e,
{
    if e > 0 {
        lemma_pow_checked_zero((e - 1) as nat);
    }
}

proof fn lemma_pow_checked_one(e: nat)
    ensures
        pow_checked(1, e) == Ok::<i64, RuntimeError>(1),
    decreases e,
{
    if e > 0 {
        lemma_pow_checked_one((e - 1) as nat);
    }
}

proof fn lemma_pow_checked_neg_one(e: nat)
    ensures
        pow_checked(-1i64, e) == (if e % 2 == 0 {
            Ok::<i64, RuntimeError>(1)
        } else {
            Ok::<i64, RuntimeError>(-1i64)
        }),
    decreases e,
{
    if e > 0 {
        lemma_pow_checked_neg_one((e - 1) as nat);
    }
}

/// Once a power fails, every higher power fails the same way.
proof fn lemma_pow_checked_err_mono(a: i64, e1: nat, e2: nat)
    requires
        e1 <= e2,
        pow_checked(a, e1) is Err,
    ensures
        pow_checked(a, e2) == pow_checked(a, e1),
    decreases e2,
{
    if e2 > e1 {
        lemma_pow_checked_err_mono(a, e1, (e2 - 1) as nat);
    }
}

/// Integer exponentiation: non-negative exponents only, overflow checked
/// at each multiplication.
fn pow_exec(a: i64, b: i64) -> (r: Result<i64, RuntimeError>)
    ensures
        r == int_bin(BinOpCode::Pow, a, b),
{
    if b < 0 {
        return Err(RuntimeError::NegativeIntegerExponent);
    }
    let e = b as u64;
    if a == 0 {
        proof {
            lemma_pow_checked_zero(e as nat);
        }
        return Ok(
            if e == 0 {
                1
            } else {
                0
            },
        );
    }
    if a == 1 {
        proof {
            lemma_pow_checked_one(e as nat);
        }
        return Ok(1);
    }
    if a == -1 {
        proof {
            lemma_pow_checked_neg_one(e as nat);
        }
        return Ok(
            if e % 2 == 0 {
                1
            } else {
                -1
            },
        );
    }
    let mut cur: i64 = 1;
    let mut k: u64 = 0;
    while k < e
        invariant
            k <= e,
            e == b as u64,
            b >= 0,
            pow_checked(a, k as nat) == Ok::<i64, RuntimeError>(cur),
        decreases e - k,
    {
        match cur.checked_mul(a) {
            Some(v) => {
                cur = v;
                k = k + 1;
            },
            None => {
                proof {
                    assert(pow_checked(a, (k + 1) as nat) == Err::<i64, RuntimeError>(
                        RuntimeError::IntegerOverflow,
                    ));
                    lemma_pow_checked_err_mono(a, (k + 1) as nat, e as nat);
                }
                return Err(RuntimeError::IntegerOverflow);
            },
        }
    }
    Ok(cur)
}

} // verus!
