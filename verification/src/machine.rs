//! What the virtual machine does, as mathematics: the machine's state as a
//! value, and each instruction as a function from state to state.

use vstd::prelude::*;
use crate::assemble::decode_spec;
use crate::bin::{
    IADD, IANEW, ICALL, ICJMP, IDIV, IEQ, IFALSE, IGE, IGET, IGT, IJMP, IKONST, ILE, ILOAD, ILT,
    IMOD, IMULT, INE, INIL, INOP, IPOP, IRET, ISET, ISTORE, ISUB, ITRUE,
};
use crate::error::ErrorView;
use crate::number::{
    has_index, is_nan, is_zero, nearest, number_eq, number_le, number_lt, whole_part,
};
use crate::value::{Function, Value};

verus! {

/// One activation record: the next instruction, the stack index where the
/// frame's slots begin, and whether the host (not a `call` instruction)
/// entered the frame.
#[derive(Clone, Copy, Debug, PartialEq, Eq, Structural)]
pub struct Frame {
    pub ip: usize,
    pub bp: usize,
    pub from_host: bool,
}

/// The arithmetic operations, whose results the host computes.
#[derive(Clone, Copy, Debug, PartialEq, Eq, Structural)]
pub enum ArithOp {
    Add,
    Sub,
    Mult,
    Div,
    Mod,
}

/// The order relations.
#[derive(Clone, Copy, Debug, PartialEq, Eq, Structural)]
pub enum Relation {
    Ge,
    Le,
    Gt,
    Lt,
}

/// Why the machine handed control back to its host.
#[derive(Clone, Copy, Debug, PartialEq, Eq, Structural)]
pub enum Signal {
    /// The function that the host called has returned; its result is on top
    /// of the stack. Also given when there is nothing to run.
    Done,
    /// An error is recorded; `error` tells which.
    Fault,
    /// The step budget is used up; `resume` goes on.
    Paused,
    /// Both operands are popped. The host computes the binary32 result,
    /// pushes it as a number and resumes.
    Arith(ArithOp, u32, u32),
    /// The arguments are on the stack, as many as the native declares. The
    /// host runs the native with this number and resumes.
    Native(usize),
}

/// Whether `a` comes before `b`, character by character.
pub open spec fn text_lt(a: Seq<char>, b: Seq<char>) -> bool
    decreases a.len(),
{
    if b.len() == 0 {
        false
    } else if a.len() == 0 {
        true
    } else if a[0] != b[0] {
        (a[0] as u32) < (b[0] as u32)
    } else {
        text_lt(a.skip(1), b.skip(1))
    }
}

impl Relation {
    /// The relation on numbers; false where either is a NaN.
    pub open spec fn on_numbers(self, a: u32, b: u32) -> bool {
        match self {
            Relation::Lt => number_lt(a, b),
            Relation::Le => number_le(a, b),
            Relation::Gt => number_lt(b, a),
            Relation::Ge => number_le(b, a),
        }
    }

    /// The relation on strings, in lexicographic order.
    pub open spec fn on_texts(self, a: Seq<char>, b: Seq<char>) -> bool {
        match self {
            Relation::Lt => text_lt(a, b),
            Relation::Le => !text_lt(b, a),
            Relation::Gt => text_lt(b, a),
            Relation::Ge => !text_lt(a, b),
        }
    }
}

/// Where a branch with the operand `offset` leads from `ip`, the place
/// behind the branch: to their sum, taken modulo two to the 16. So a small
/// offset leads forward and a large one backward, and every place below two
/// to the 16 is within reach of every other.
pub open spec fn branch_target(ip: usize, offset: nat) -> usize {
    ((ip + offset) % 0x1_0000) as usize
}

/// The state of the virtual machine.
pub struct Machine {
    /// The evaluation stack, top last.
    pub stack: Seq<Value>,
    /// The bytecode.
    pub bin: Seq<u8>,
    /// The constant pool.
    pub constants: Seq<Value>,
    /// The frames, current frame last; the first is the sentinel.
    pub frames: Seq<Frame>,
    /// The constant that holds the entry function.
    pub entry: usize,
    /// The last error, if any.
    pub error: Option<ErrorView>,
    /// The heap's strings, by handle.
    pub strings: Seq<Seq<char>>,
    /// The heap's arrays, by handle.
    pub arrays: Seq<Seq<Value>>,
}

impl Machine {
    /// A machine that holds nothing but the sentinel frame.
    pub open spec fn empty() -> Machine {
        Machine {
            stack: Seq::empty(),
            bin: Seq::empty(),
            constants: Seq::empty(),
            frames: seq![Frame { ip: 0, bp: 0, from_host: true }],
            entry: 0,
            error: None,
            strings: Seq::empty(),
            arrays: Seq::empty(),
        }
    }

    pub open spec fn sp(self) -> nat {
        self.stack.len()
    }

    /// The base of the current frame.
    pub open spec fn bp(self) -> nat {
        if self.frames.len() > 0 {
            self.frames.last().bp as nat
        } else {
            0
        }
    }

    /// The machine with `e` recorded as its error.
    pub open spec fn fault(self, e: ErrorView) -> Machine {
        Machine { error: Some(e), ..self }
    }

    pub open spec fn push(self, v: Value) -> Machine {
        Machine { stack: self.stack.push(v), ..self }
    }

    /// The machine without the top `n` values.
    pub open spec fn drop(self, n: nat) -> Machine {
        Machine { stack: self.stack.take(self.stack.len() - n), ..self }
    }

    /// The value `k` places below the top.
    pub open spec fn peek(self, k: nat) -> Value {
        self.stack[self.stack.len() - 1 - k]
    }

    /// The string with handle `h`; empty where no string has that handle.
    pub open spec fn string(self, h: usize) -> Seq<char> {
        if h < self.strings.len() {
            self.strings[h as int]
        } else {
            Seq::empty()
        }
    }

    /// The machine with the current frame's `ip` set.
    pub open spec fn goto(self, ip: usize) -> Machine {
        Machine {
            frames: self.frames.update(
                self.frames.len() - 1,
                Frame { ip, ..self.frames.last() },
            ),
            ..self
        }
    }

    /// Equality of the language: numbers as binary32 numbers, strings by
    /// content, arrays by identity, functions by the code they name.
    pub open spec fn value_eq(self, a: Value, b: Value) -> bool {
        match (a, b) {
            (Value::String(l), Value::String(r)) => self.string(l) == self.string(r),
            (Value::Nil, Value::Nil) => true,
            (Value::Array(l), Value::Array(r)) => l == r,
            (Value::Boolean(l), Value::Boolean(r)) => l == r,
            (Value::Number(l), Value::Number(r)) => number_eq(l, r),
            (Value::Function(l), Value::Function(r)) => l.same(r),
            _ => false,
        }
    }

    /// `load(s)`: pushes the slot `s` of the current frame.
    pub open spec fn i_load(self, s: nat) -> Machine {
        if self.bp() + s < self.sp() {
            self.push(self.stack[(self.bp() + s) as int])
        } else {
            self.fault(ErrorView::InvalidBytecode)
        }
    }

    /// `store(s)`: pops a value into the slot `s` of the current frame.
    pub open spec fn i_store(self, s: nat) -> Machine {
        if self.sp() >= 1 && self.bp() + s < self.sp() - 1 {
            Machine { stack: self.stack.drop_last().update((self.bp() + s) as int, self.peek(0)), ..self }
        } else {
            self.fault(ErrorView::InvalidBytecode)
        }
    }

    /// `konst(k)`: pushes the constant `k`.
    pub open spec fn i_konst(self, k: nat) -> Machine {
        if k < self.constants.len() {
            self.push(self.constants[k as int])
        } else {
            self.fault(ErrorView::InvalidBytecode)
        }
    }

    /// `add`, `sub`, `mult`, `div`, `mod`: pops `b`, then `a`. Two numbers
    /// are handed to the host, but for a division by zero, which is an
    /// error; so is an operand that is no number. Either way both operands
    /// are off the stack.
    pub open spec fn i_arith(self, op: ArithOp) -> (Machine, Option<Signal>) {
        if self.sp() < 2 {
            (self.fault(ErrorView::InvalidBytecode), None)
        } else {
            match (self.peek(1), self.peek(0)) {
                (Value::Number(a), Value::Number(b)) => {
                    if (op == ArithOp::Div || op == ArithOp::Mod) && is_zero(b) {
                        (self.drop(2).fault(ErrorView::DivisionByZero), None)
                    } else {
                        (self.drop(2), Some(Signal::Arith(op, a, b)))
                    }
                },
                _ => (self.drop(2).fault(ErrorView::InvalidOperands), None),
            }
        }
    }

    /// `eq` and (with `negate`) `ne`: pops `b`, then `a`, pushes whether they
    /// are equal.
    pub open spec fn i_eq(self, negate: bool) -> Machine {
        if self.sp() < 2 {
            self.fault(ErrorView::InvalidBytecode)
        } else {
            self.drop(2).push(Value::Boolean(self.value_eq(self.peek(1), self.peek(0)) != negate))
        }
    }

    /// `lt`, `le`, `gt`, `ge`: pops `b`, then `a`, pushes whether `a` stands
    /// in the relation to `b`; both numbers or both strings. Anything else
    /// is an error, which finds both off the stack.
    pub open spec fn i_relation(self, relation: Relation) -> Machine {
        if self.sp() < 2 {
            self.fault(ErrorView::InvalidBytecode)
        } else {
            match (self.peek(1), self.peek(0)) {
                (Value::Number(a), Value::Number(b)) => self.drop(2).push(
                    Value::Boolean(relation.on_numbers(a, b)),
                ),
                (Value::String(a), Value::String(b)) => self.drop(2).push(
                    Value::Boolean(relation.on_texts(self.string(a), self.string(b))),
                ),
                _ => self.drop(2).fault(ErrorView::InvalidOperands),
            }
        }
    }

    /// `anew(count)`: pops `count` values and pushes a new array that holds
    /// them in the order in which they were pushed.
    pub open spec fn i_anew(self, count: nat) -> Machine {
        if self.sp() < count {
            self.fault(ErrorView::InvalidBytecode)
        } else {
            Machine {
                stack: self.stack.take(self.sp() - count).push(
                    Value::Array(self.arrays.len() as usize),
                ),
                arrays: self.arrays.push(self.stack.skip(self.sp() - count)),
                ..self
            }
        }
    }

    /// `pop(count)`: discards the top `count` values.
    pub open spec fn i_pop(self, count: nat) -> Machine {
        if self.sp() < count {
            self.fault(ErrorView::InvalidBytecode)
        } else {
            self.drop(count)
        }
    }

    /// `ret`: pops the result, discards the frame's slots, pops the frame and
    /// pushes the result. Tells the host when the frame was one it entered.
    pub open spec fn i_ret(self) -> (Machine, Option<Signal>) {
        if self.frames.len() < 2 || self.sp() < 1 || self.bp() > self.sp() - 1 {
            (self.fault(ErrorView::InvalidBytecode), None)
        } else {
            (
                Machine {
                    stack: self.stack.take(self.bp() as int).push(self.peek(0)),
                    frames: self.frames.drop_last(),
                    ..self
                },
                if self.frames.last().from_host {
                    Some(Signal::Done)
                } else {
                    None
                },
            )
        }
    }

    /// `get`: pops an index, then a container; pushes the array's element or
    /// the string's character, as a new string, at the index. An index
    /// outside the container, and what is no container or no number, are
    /// errors, which find both off the stack.
    pub open spec fn i_get(self) -> Machine {
        if self.sp() < 2 {
            self.fault(ErrorView::InvalidBytecode)
        } else {
            match (self.peek(1), self.peek(0)) {
                (Value::Array(h), Value::Number(i)) => {
                    if h >= self.arrays.len() {
                        self.drop(2).fault(ErrorView::InvalidOperands)
                    } else if has_index(i) && whole_part(i) < self.arrays[h as int].len() {
                        self.drop(2).push(self.arrays[h as int][whole_part(i) as int])
                    } else {
                        self.drop(2).fault(ErrorView::IndexOutOfBound)
                    }
                },
                (Value::String(h), Value::Number(i)) => {
                    if has_index(i) && whole_part(i) < self.string(h).len() {
                        Machine {
                            stack: self.stack.take(self.sp() - 2).push(
                                Value::String(self.strings.len() as usize),
                            ),
                            strings: self.strings.push(seq![self.string(h)[whole_part(i) as int]]),
                            ..self
                        }
                    } else {
                        self.drop(2).fault(ErrorView::IndexOutOfBound)
                    }
                },
                _ => self.drop(2).fault(ErrorView::InvalidOperands),
            }
        }
    }

    /// `set`: pops a value, an index and an array; writes the value at the
    /// index and pushes the array back. An index outside the array, and
    /// what is no array or no number, are errors, which find all three off
    /// the stack.
    pub open spec fn i_set(self) -> Machine {
        if self.sp() < 3 {
            self.fault(ErrorView::InvalidBytecode)
        } else {
            match (self.peek(2), self.peek(1)) {
                (Value::Array(h), Value::Number(i)) => {
                    if h >= self.arrays.len() {
                        self.drop(3).fault(ErrorView::InvalidOperands)
                    } else if has_index(i) && whole_part(i) < self.arrays[h as int].len() {
                        Machine {
                            stack: self.stack.take(self.sp() - 2),
                            arrays: self.arrays.update(
                                h as int,
                                self.arrays[h as int].update(whole_part(i) as int, self.peek(0)),
                            ),
                            ..self
                        }
                    } else {
                        self.drop(3).fault(ErrorView::IndexOutOfBound)
                    }
                },
                _ => self.drop(3).fault(ErrorView::InvalidOperands),
            }
        }
    }

    /// `jmp(offset)`: moves the current frame's `ip` to where the branch
    /// leads.
    pub open spec fn i_jmp(self, offset: nat) -> Machine {
        if self.frames.len() == 0 {
            self.fault(ErrorView::InvalidBytecode)
        } else {
            self.goto(branch_target(self.frames.last().ip, offset))
        }
    }

    /// `cjmp(offset)`: pops a condition and branches where it is `false` or
    /// `nil`.
    pub open spec fn i_cjmp(self, offset: nat) -> Machine {
        if self.sp() < 1 {
            self.fault(ErrorView::InvalidBytecode)
        } else if self.peek(0).is_falsy() {
            if self.frames.len() == 0 {
                self.fault(ErrorView::InvalidBytecode)
            } else {
                self.drop(1).goto(branch_target(self.frames.last().ip, offset))
            }
        } else {
            self.drop(1)
        }
    }

    /// Makes `argc` arguments on top of the stack into `param_count`: with
    /// too few, `nil` is pushed for each that is missing; with too many, the
    /// extra ones leave from the top (all the stack, where it holds fewer).
    pub open spec fn push_args(self, argc: nat, param_count: nat) -> Machine {
        if argc >= param_count {
            if argc - param_count <= self.sp() {
                self.drop((argc - param_count) as nat)
            } else {
                Machine { stack: Seq::empty(), ..self }
            }
        } else {
            Machine {
                stack: self.stack + Seq::new((param_count - argc) as nat, |i: int| Value::Nil),
                ..self
            }
        }
    }

    /// The call of the value that lies under `argc` arguments: the callee
    /// leaves the stack; what is no function is then an error. The
    /// arguments are made as many as the callee declares. Compiled code gets
    /// a new frame over its arguments; a native is handed to the host.
    pub open spec fn call(self, argc: nat, from_host: bool) -> (Machine, Option<Signal>) {
        if self.sp() < argc + 1 {
            (self.fault(ErrorView::InvalidBytecode), None)
        } else {
            match self.peek(argc) {
                Value::Function(f) => {
                    let ready = Machine {
                        stack: self.stack.remove(self.sp() - 1 - argc),
                        ..self
                    }.push_args(argc, f.params() as nat);
                    match f {
                        Function::Bakht { param_count, address } => (
                            Machine {
                                frames: ready.frames.push(
                                    Frame {
                                        ip: address,
                                        bp: (ready.sp() - param_count) as usize,
                                        from_host,
                                    },
                                ),
                                ..ready
                            },
                            None,
                        ),
                        Function::Native { func, .. } => (ready, Some(Signal::Native(func))),
                    }
                },
                _ => (
                    Machine { stack: self.stack.remove(self.sp() - 1 - argc), ..self }.fault(
                        ErrorView::CallingNonFunction,
                    ),
                    None,
                ),
            }
        }
    }

    /// The instruction with canonical opcode `opcode` and operand `operand`.
    pub open spec fn execute(self, opcode: u8, operand: nat) -> (Machine, Option<Signal>) {
        if opcode == INOP {
            (self, None)
        } else if opcode == IADD {
            self.i_arith(ArithOp::Add)
        } else if opcode == ISUB {
            self.i_arith(ArithOp::Sub)
        } else if opcode == IMULT {
            self.i_arith(ArithOp::Mult)
        } else if opcode == IDIV {
            self.i_arith(ArithOp::Div)
        } else if opcode == IMOD {
            self.i_arith(ArithOp::Mod)
        } else if opcode == IEQ {
            (self.i_eq(false), None)
        } else if opcode == INE {
            (self.i_eq(true), None)
        } else if opcode == IGE {
            (self.i_relation(Relation::Ge), None)
        } else if opcode == ILE {
            (self.i_relation(Relation::Le), None)
        } else if opcode == IGT {
            (self.i_relation(Relation::Gt), None)
        } else if opcode == ILT {
            (self.i_relation(Relation::Lt), None)
        } else if opcode == ISET {
            (self.i_set(), None)
        } else if opcode == IGET {
            (self.i_get(), None)
        } else if opcode == IPOP {
            (self.i_pop(operand), None)
        } else if opcode == IRET {
            self.i_ret()
        } else if opcode == ILOAD {
            (self.i_load(operand), None)
        } else if opcode == ISTORE {
            (self.i_store(operand), None)
        } else if opcode == ICALL {
            self.call(operand, false)
        } else if opcode == IKONST {
            (self.i_konst(operand), None)
        } else if opcode == INIL {
            (self.push(Value::Nil), None)
        } else if opcode == ITRUE {
            (self.push(Value::Boolean(true)), None)
        } else if opcode == IFALSE {
            (self.push(Value::Boolean(false)), None)
        } else if opcode == IANEW {
            (self.i_anew(operand), None)
        } else if opcode == IJMP {
            (self.i_jmp(operand), None)
        } else if opcode == ICJMP {
            (self.i_cjmp(operand), None)
        } else {
            (self.fault(ErrorView::InvalidBytecode), None)
        }
    }

    /// Reads the instruction at the current frame's `ip` and moves `ip`
    /// behind it. Gives the canonical opcode and the operand; nothing, and
    /// an error, where no whole instruction stands there.
    pub open spec fn fetch(self) -> (Machine, Option<(u8, nat)>) {
        if self.frames.len() == 0 {
            (self.fault(ErrorView::InvalidBytecode), None)
        } else {
            match decode_spec(self.bin, self.frames.last().ip as int) {
                Some((opcode, operand, next)) => (
                    self.goto(next as usize),
                    Some((opcode, operand)),
                ),
                None => (self.fault(ErrorView::InvalidBytecode), None),
            }
        }
    }

    /// One step: fetches an instruction and executes it.
    pub open spec fn step(self) -> (Machine, Option<Signal>) {
        let (fetched, instruction) = self.fetch();
        match instruction {
            Some((opcode, operand)) => fetched.execute(opcode, operand),
            None => (fetched, None),
        }
    }

    /// Runs until the machine has something to tell its host: an error, the
    /// return into the sentinel frame or from a frame that the host entered,
    /// a request to the host, or the end of the budget of `budget` steps.
    pub open spec fn run(self, budget: nat) -> (Machine, Signal)
        decreases budget,
    {
        if self.error is Some {
            (self, Signal::Fault)
        } else if self.frames.len() <= 1 {
            (self, Signal::Done)
        } else if budget == 0 {
            (self, Signal::Paused)
        } else {
            let (next, signal) = self.step();
            match signal {
                Some(s) => (next, s),
                None => next.run((budget - 1) as nat),
            }
        }
    }

    /// A call from the host, then `run`.
    pub open spec fn fcall(self, argc: nat, budget: nat) -> (Machine, Signal) {
        if self.error is Some {
            (self, Signal::Fault)
        } else {
            let (next, signal) = self.call(argc, true);
            match signal {
                Some(s) => (next, s),
                None => next.run(budget),
            }
        }
    }

    /// The host's `array_push`: pops an element, then an array, and appends
    /// the element to the array. What is no array is an error.
    pub open spec fn array_push(self) -> Machine {
        match self.peek(1) {
            Value::Array(h) => if h < self.arrays.len() {
                Machine {
                    arrays: self.arrays.update(h as int, self.arrays[h as int].push(self.peek(0))),
                    ..self.drop(2)
                }
            } else {
                self.drop(2).fault(ErrorView::InvalidOperands)
            },
            _ => self.drop(2).fault(ErrorView::InvalidOperands),
        }
    }

    /// The host's `array_pop`: pops an array, takes its last element off and
    /// pushes that. An empty array is an error, and so is what is no array.
    pub open spec fn array_pop(self) -> Machine {
        match self.peek(0) {
            Value::Array(h) => if h < self.arrays.len() {
                if self.arrays[h as int].len() > 0 {
                    Machine {
                        arrays: self.arrays.update(h as int, self.arrays[h as int].drop_last()),
                        ..self.drop(1).push(self.arrays[h as int].last())
                    }
                } else {
                    self.drop(1).fault(ErrorView::IndexOutOfBound)
                }
            } else {
                self.drop(1).fault(ErrorView::InvalidOperands)
            },
            _ => self.drop(1).fault(ErrorView::InvalidOperands),
        }
    }

    /// The host's `array_len`: pops an array or a string and pushes its
    /// length as a number. Anything else is an error.
    pub open spec fn array_len(self) -> Machine {
        match self.peek(0) {
            Value::Array(h) => if h < self.arrays.len() {
                self.drop(1).push(Value::Number(nearest(self.arrays[h as int].len())))
            } else {
                self.drop(1).fault(ErrorView::InvalidOperands)
            },
            Value::String(h) => self.drop(1).push(Value::Number(nearest(self.string(h).len()))),
            _ => self.drop(1).fault(ErrorView::InvalidOperands),
        }
    }
}

/// A branch behind which the code goes on at `behind` leads forward to `to`
/// with the offset `to - behind`, and back to `to` with the offset that is
/// two to the 16 less `behind - to`, where both places lie below two to
/// the 16.
pub proof fn lemma_branch(behind: usize, to: usize)
    requires
        behind <= 0xffff,
        to <= 0xffff,
    ensures
        behind <= to ==> branch_target(behind, (to - behind) as nat) == to,
        to <= behind ==> branch_target(
            behind,
            ((0x1_0000 - (behind - to)) % 0x1_0000) as nat,
        ) == to,
{
}

/// A call of compiled code and the `ret` that ends it leave, in place of the
/// callee and its arguments, exactly one value: the stack is one longer than
/// it was before the callee was pushed. `at_ret` is any state in the callee's
/// frame that holds a value to give back above the frame's base.
pub proof fn lemma_call_ret(m: Machine, argc: nat, from_host: bool, at_ret: Machine)
    requires
        m.sp() >= argc + 1,
        m.sp() <= usize::MAX,
        m.frames.len() >= 1,
        m.peek(argc) matches Value::Function(f) && f is Bakht,
        at_ret.frames == m.call(argc, from_host).0.frames,
        at_ret.sp() > at_ret.bp(),
    ensures
        m.call(argc, from_host).0.bp() == m.sp() - 1 - argc,
        at_ret.i_ret().0.sp() == (m.sp() - 1 - argc) + 1,
        at_ret.i_ret().0.frames == m.frames,
        at_ret.i_ret().0.peek(0) == at_ret.peek(0),
        at_ret.i_ret().0.error == at_ret.error,
{
}

/// `anew(k)` followed by the host's `array_len` leaves the number nearest
/// to `k` on the stack, which up to two to the 24 is `k` itself.
pub proof fn lemma_anew_len(m: Machine, k: nat)
    requires
        m.sp() >= k,
        m.arrays.len() < usize::MAX,
    ensures
        m.i_anew(k).array_len().stack == m.stack.take(m.sp() - k).push(
            Value::Number(nearest(k)),
        ),
        m.i_anew(k).array_len().error == m.error,
        k < 0x100_0000 ==> has_index(nearest(k)) && whole_part(nearest(k)) == k,
{
    if k < 0x100_0000 {
        crate::number::lemma_nearest_exact(k);
    }
}

/// After `a[i] = v`, `a[i]` is `v`: a `set` at a valid index, then a `get`
/// at the same index, gives the very value that was set. That value also
/// equals itself, as the language has it, unless it is a NaN.
pub proof fn lemma_set_get(m: Machine, h: usize, i: u32)
    requires
        m.sp() >= 3,
        m.peek(2) == Value::Array(h),
        m.peek(1) == Value::Number(i),
        h < m.arrays.len(),
        has_index(i),
        whole_part(i) < m.arrays[h as int].len(),
    ensures
        m.i_set().error == m.error,
        m.i_set().push(Value::Number(i)).i_get().error == m.error,
        m.i_set().push(Value::Number(i)).i_get().peek(0) == m.peek(0),
        !(m.peek(0) matches Value::Number(n) && is_nan(n)) ==> m.value_eq(m.peek(0), m.peek(0)),
{
}

/// A call with fewer arguments than the callee declares gets `nil` for each
/// missing one; of a call with more, the extra ones are discarded. The
/// arguments that stay keep their places, and so does all below them.
pub proof fn lemma_push_args(m: Machine, argc: nat, param_count: nat)
    requires
        argc <= m.sp(),
    ensures
        m.push_args(argc, param_count).sp() == m.sp() - argc + param_count,
        forall|j: int|
            0 <= j < m.sp() - argc + param_count ==> #[trigger] m.push_args(
                argc,
                param_count,
            ).stack[j] == if j < m.sp() {
                m.stack[j]
            } else {
                Value::Nil
            },
{
}

/// A division or a remainder by zero, of either sign, is an error: both
/// operands leave the stack, no number comes of it, and nothing is asked of
/// the host.
pub proof fn lemma_division_by_zero(m: Machine, op: ArithOp, a: u32, b: u32)
    requires
        m.sp() >= 2,
        m.peek(1) == Value::Number(a),
        m.peek(0) == Value::Number(b),
        is_zero(b),
        op == ArithOp::Div || op == ArithOp::Mod,
    ensures
        m.i_arith(op) == (m.drop(2).fault(ErrorView::DivisionByZero), None::<Signal>),
        m.i_arith(op).0.stack == m.stack.take(m.sp() - 2),
        m.i_arith(op).0.error == Some(ErrorView::DivisionByZero),
{
}

/// An index that is a NaN, or `-1.0` or below, or whose whole part is the
/// array's length or more, is an error: index and array leave the stack,
/// nothing is pushed, and the array is as it was.
pub proof fn lemma_index_at_len(m: Machine, h: usize, i: u32)
    requires
        m.sp() >= 2,
        m.peek(1) == Value::Array(h),
        m.peek(0) == Value::Number(i),
        h < m.arrays.len(),
        !has_index(i) || whole_part(i) >= m.arrays[h as int].len(),
    ensures
        m.i_get() == m.drop(2).fault(ErrorView::IndexOutOfBound),
        m.i_get().stack == m.stack.take(m.sp() - 2),
        m.i_get().arrays == m.arrays,
        m.i_get().error == Some(ErrorView::IndexOutOfBound),
{
}

} // verus!
